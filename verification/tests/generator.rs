//! Generated passwords and passphrases.
use keystash::config::AppConfig;
use keystash::generator::{
    draft_password, generate_passphrase, generate_password, join_words, GeneratorOptions,
    DEFAULT_WORDS, MAX_LENGTH, MAX_WORDS, MIN_LENGTH, MIN_WORDS,
};

fn word_list() -> Vec<String> {
    let mut words: Vec<String> = (0..7772u32).map(|i| format!("w{:05}", i)).collect();
    for w in ["yo-yo", "t-shirt", "drop-down", "felt-tip"] {
        words.push(w.to_string());
    }
    words
}

#[test]
fn length_is_clamped_to_the_single_shared_rule() {
    for (requested, expected) in [(1, MIN_LENGTH), (0, MIN_LENGTH), (10_000, MAX_LENGTH), (20, 20)]
    {
        let opts = GeneratorOptions { length: requested, ..Default::default() };
        assert_eq!(
            generate_password(&opts).unwrap().chars().count(),
            expected,
            "requested length {}",
            requested
        );
    }
}

#[test]
fn passphrases_draw_real_words_and_clamp_the_count() {
    let list = word_list();
    assert_eq!(list.len(), 7776);
    let pw = generate_passphrase(&list, DEFAULT_WORDS);
    assert!(pw.split('-').count() >= DEFAULT_WORDS);

    let three = generate_passphrase(&list, 3);
    assert!(three.len() >= 3 * 3);

    assert!(generate_passphrase(&list, 0).split('-').count() >= MIN_WORDS);
    let twelve = generate_passphrase(&list, 100);
    assert!(twelve.split('-').count() >= MAX_WORDS);
    assert!(twelve.split('-').count() <= MAX_WORDS + 4);

    let plain: Vec<String> = list[..7772].to_vec();
    let phrase = generate_passphrase(&plain, 6);
    assert_eq!(phrase.split('-').count(), 6);
    for w in phrase.split('-') {
        assert!(plain.iter().any(|x| x == w));
    }
}

#[test]
fn every_selected_charset_is_represented() {
    let opts = GeneratorOptions::default();
    let pw = generate_password(&opts).unwrap();
    assert!(pw.chars().any(|c| c.is_ascii_lowercase()));
    assert!(pw.chars().any(|c| c.is_ascii_uppercase()));
    assert!(pw.chars().any(|c| c.is_ascii_digit()));
    assert!(pw.chars().any(|c| !c.is_alphanumeric()));
}

#[test]
fn only_selected_charsets_are_used() {
    let opts = GeneratorOptions {
        length: 64,
        use_lowercase: false,
        use_uppercase: false,
        use_numbers: true,
        use_symbols: false,
    };
    let pw = generate_password(&opts).unwrap();
    assert!(pw.chars().all(|c| "23456789".contains(c)));
    let none = GeneratorOptions { use_numbers: false, ..opts };
    assert_eq!(
        generate_password(&none).unwrap_err(),
        "At least one character set must be selected"
    );
}

#[test]
fn passwords_differ_and_are_shuffled() {
    let opts = GeneratorOptions::default();
    let all: Vec<String> = (0..40).map(|_| generate_password(&opts).unwrap()).collect();
    assert_ne!(all[0], all[1]);
    assert!(
        all.iter().any(|p| !p.chars().next().unwrap().is_ascii_lowercase()),
        "the guaranteed characters are not always at the start"
    );
}

#[test]
fn draws_pick_the_characters() {
    let opts = GeneratorOptions { length: 6, ..Default::default() };
    let v = draft_password(&opts, &vec![0, 1, 2, 3, 0, 25]);
    let s: String = v.into_iter().collect();
    assert_eq!(s, "aB4$aA");
    let words = vec!["a".to_string(), "b".to_string()];
    assert_eq!(join_words(&words, &vec![1, 0, 1]), "b-a-b");
}

#[test]
fn options_live_in_the_settings() {
    let config = AppConfig::default();
    let mut o = GeneratorOptions::load(&config);
    assert_eq!(o, GeneratorOptions::default());
    o.length = 33;
    let saved = o.save(&config);
    assert_eq!(saved.generator.length, 33);
    assert_eq!(saved.idle_timeout_seconds, config.idle_timeout_seconds);
}
