//! The command line.
use keystash::cli::{
    breach_column, check_new_password, get_db_path, is_yes, issue_column, list_notes, list_secret,
    parse_command, parse_generate_args, parse_id, parse_search_args, search_records,
    strength_column, text_to_copy, truncate_chars, Command, GenerateError,
};
use keystash::audit::Severity;
use keystash::crypto::encrypt;
use keystash::db::SecretRecord;
use keystash::generator::GeneratorOptions;

#[test]
fn truncate_chars_does_not_panic_on_multibyte_boundaries() {
    let title = format!("{}\u{00e9}more text after", "a".repeat(21));
    assert_eq!(truncate_chars(&title, 22).chars().count(), 22);
    assert_eq!(truncate_chars("short", 22), "short");
    let emoji_title: String = std::iter::repeat_n('\u{1F511}', 30).collect();
    assert_eq!(truncate_chars(&emoji_title, 22).chars().count(), 22);
}

fn args(strs: &[&str]) -> Vec<String> {
    strs.iter().map(|s| s.to_string()).collect()
}

#[test]
fn parse_search_args_finds_a_plain_query() {
    let a = args(&["github"]);
    let (query, reveal) = parse_search_args(&a);
    assert_eq!(query.map(|s| s.as_str()), Some("github"));
    assert!(!reveal);
}

#[test]
fn parse_search_args_skips_known_flags_regardless_of_order() {
    let a = args(&["--reveal", "github"]);
    let (query, reveal) = parse_search_args(&a);
    assert_eq!(query.map(|s| s.as_str()), Some("github"));
    assert!(reveal);

    let a = args(&["github", "-r"]);
    let (query, reveal) = parse_search_args(&a);
    assert_eq!(query.map(|s| s.as_str()), Some("github"));
    assert!(reveal);
}

#[test]
fn parse_search_args_accepts_a_query_starting_with_a_dash() {
    let a = args(&["-test"]);
    let (query, reveal) = parse_search_args(&a);
    assert_eq!(query.map(|s| s.as_str()), Some("-test"));
    assert!(!reveal);
}

#[test]
fn parse_search_args_dash_dash_forces_the_next_arg_to_be_the_query_verbatim() {
    let a = args(&["--", "-r"]);
    let (query, _) = parse_search_args(&a);
    assert_eq!(query.map(|s| s.as_str()), Some("-r"));

    let a = args(&["--reveal", "--", "--reveal"]);
    let (query, reveal) = parse_search_args(&a);
    assert_eq!(query.map(|s| s.as_str()), Some("--reveal"));
    assert!(reveal, "a --reveal flag before -- should still count");
}

#[test]
fn parse_search_args_no_query_returns_none() {
    let a = args(&["--reveal"]);
    let (query, _) = parse_search_args(&a);
    assert!(query.is_none());

    let a = args(&[]);
    let (query, _) = parse_search_args(&a);
    assert!(query.is_none());
}

#[test]
fn flags_after_the_dashes_are_no_flags() {
    let a = args(&["--", "-r"]);
    let (query, reveal) = parse_search_args(&a);
    assert_eq!(query.map(|s| s.as_str()), Some("-r"));
    assert!(!reveal);
    let a = args(&["keystash", "search", "--", "--reveal"]);
    assert!(matches!(parse_command(&a), Command::Search { query: Some(_), reveal: false }));
    let a = args(&["keystash", "search", "x", "-r", "--"]);
    assert!(matches!(parse_command(&a), Command::Search { query: None, reveal: true }));
}

#[test]
fn commands_are_recognized() {
    assert!(matches!(parse_command(&args(&["keystash"])), Command::Tui));
    assert!(matches!(parse_command(&args(&["keystash", "init"])), Command::Init));
    let a = args(&["keystash", "add", "T", "tags", "user"]);
    assert!(matches!(parse_command(&a), Command::Add { url: None, .. }));
    let a = args(&["keystash", "add", "T"]);
    assert!(matches!(parse_command(&a), Command::Incomplete { .. }));
    let a = args(&["keystash", "delete", "-7"]);
    assert!(matches!(parse_command(&a), Command::Delete { id: -7 }));
    let a = args(&["keystash", "view", "x"]);
    assert!(matches!(parse_command(&a), Command::InvalidId { .. }));
    let a = args(&["keystash", "show", "3", "-r"]);
    assert!(matches!(parse_command(&a), Command::Show { id: 3, reveal: true }));
    let a = args(&["keystash", "copy", "3", "url"]);
    assert!(matches!(parse_command(&a), Command::Copy { id: 3, field: Some(_) }));
    let a = args(&["keystash", "sync", "setup"]);
    assert!(matches!(parse_command(&a), Command::SyncSetup));
    let a = args(&["keystash", "audit", "--hibp"]);
    assert!(matches!(parse_command(&a), Command::Audit { hibp: true }));
    let a = args(&["keystash", "search", "--reveal", "--", "-r"]);
    match parse_command(&a) {
        Command::Search { query: Some(q), reveal: true } => assert_eq!(q, "-r"),
        other => panic!("{:?}", other),
    }
    let a = args(&["keystash", "frobnicate"]);
    assert!(matches!(parse_command(&a), Command::Unknown { .. }));
    for c in ["list", "import", "export", "reset", "change-password", "generate", "gen", "help"] {
        let a = args(&["keystash", c]);
        assert!(!matches!(parse_command(&a), Command::Unknown { .. }), "{c}");
    }
}

#[test]
fn ids_are_whole_numbers() {
    assert_eq!(parse_id("12"), Some(12));
    assert_eq!(parse_id("+12"), Some(12));
    assert_eq!(parse_id("-9223372036854775808"), Some(i64::MIN));
    assert_eq!(parse_id("9223372036854775807"), Some(i64::MAX));
    assert_eq!(parse_id("9223372036854775808"), None);
    for bad in ["", "-", "+", "-+1", "1 ", "0x1"] {
        assert_eq!(parse_id(bad), None, "{bad:?}");
        assert!(bad.parse::<i64>().is_err());
    }
}

#[test]
fn generator_arguments_change_the_options() {
    let o = GeneratorOptions::default();
    let a = args(&["keystash", "gen", "-l", "300", "--no-symbols", "--save"]);
    let p = parse_generate_args(&a, 2, o).unwrap();
    assert!(p.save);
    assert_eq!(p.options.length, 256, "a saved length is in range");
    assert!(!p.options.use_symbols);
    let a = args(&["keystash", "gen", "-l", "300"]);
    let p = parse_generate_args(&a, 2, o).unwrap();
    assert!(!p.save);
    assert_eq!(p.options.length, 300);
    let a = args(&["keystash", "gen", "--words"]);
    assert_eq!(parse_generate_args(&a, 2, o).unwrap().words, Some(6));
    let a = args(&["keystash", "gen", "-w", "7", "--no-numbers", "--numbers"]);
    let p = parse_generate_args(&a, 2, o).unwrap();
    assert_eq!(p.words, Some(7));
    assert!(p.options.use_numbers);
    let a = args(&["keystash", "gen", "-l", "x"]);
    assert!(matches!(parse_generate_args(&a, 2, o), Err(GenerateError::InvalidLength { .. })));
    let a = args(&["keystash", "gen", "-l"]);
    assert!(matches!(parse_generate_args(&a, 2, o), Err(GenerateError::MissingLength)));
    let a = args(&["keystash", "gen", "--what"]);
    assert!(matches!(parse_generate_args(&a, 2, o), Err(GenerateError::UnknownOption { .. })));
}

fn record(title: &str, url: &str, password: &str, key: &[u8; 32]) -> SecretRecord {
    SecretRecord {
        id: 1,
        title: title.to_string(),
        category: "Dev".to_string(),
        username: "me".to_string(),
        url: url.to_string(),
        encrypted_password: encrypt(password.as_bytes(), key).unwrap(),
        encrypted_notes: None,
        updated_at: String::new(),
        sync_uuid: title.to_string(),
    }
}

#[test]
fn searches_ignore_case() {
    let key = [1u8; 32];
    let all = vec![record("GitHub", "", "a", &key), record("Mail", "https://ÄÖ.example", "b", &key)];
    assert_eq!(search_records(&all, "git").len(), 1);
    assert_eq!(search_records(&all, "DEV").len(), 2);
    assert_eq!(search_records(&all, "äö")[0].title, "Mail");
    assert!(search_records(&all, "nothing").is_empty());
}

#[test]
fn secrets_are_masked_unless_asked_for() {
    let key = [1u8; 32];
    let r = record("T", "https://x", "pw", &key);
    assert_eq!(list_secret(&r.encrypted_password, &key, false), "••••••••");
    assert_eq!(list_secret(&r.encrypted_password, &key, true), "pw");
    assert_eq!(list_secret(&[1, 2], &key, true), "<Error>");
    assert_eq!(list_notes(&None, &key, true), "[No Notes]");
    assert_eq!(text_to_copy(&r, None, &key), Ok(Some("pw".to_string())));
    assert_eq!(text_to_copy(&r, Some(&"user".to_string()), &key), Ok(Some("me".to_string())));
    assert_eq!(text_to_copy(&r, Some(&"url".to_string()), &key), Ok(Some("https://x".to_string())));
    assert_eq!(text_to_copy(&r, Some(&"pass".to_string()), &[2u8; 32]), Ok(None));
    assert_eq!(
        text_to_copy(&r, Some(&"title".to_string()), &key).unwrap_err(),
        "Unknown copy target 'title'. Choose from: username, password, url."
    );
}

#[test]
fn answers_and_new_passwords_are_checked() {
    assert!(is_yes(" Y\n"));
    assert!(!is_yes("yes"));
    assert!(!is_yes(""));
    assert!(check_new_password("a", "a").is_ok());
    assert_eq!(check_new_password("  ", "  ").unwrap_err(), "Password cannot be empty!");
    assert_eq!(check_new_password("a", "b").unwrap_err(), "Passwords do not match!");
}

#[test]
fn the_vault_path_follows_the_environment() {
    let s = |x: &str| Some(x.to_string());
    assert_eq!(get_db_path(&s("/v"), &s("/x"), &s("/h")), ("/v/vault.db".to_string(), false));
    assert_eq!(get_db_path(&None, &s("/x/"), &s("/h")).0, "/x/keystash/vault.db");
    assert_eq!(get_db_path(&None, &None, &s("/h")).0, "/h/.config/keystash/vault.db");
    assert_eq!(
        get_db_path(&None, &None, &None),
        ("./.config/keystash/vault.db".to_string(), true)
    );
}

#[test]
fn audit_columns_are_worded() {
    assert_eq!(issue_column(&vec![]), "-");
    assert_eq!(issue_column(&args(&["a", "b"])), "a; b");
    assert_eq!(breach_column(Some(0)), "  ✓ Clean");
    assert_eq!(breach_column(Some(12)), "  ✗ PWNED (12x)");
    assert_eq!(breach_column(None), "  ? Error");
    assert_eq!(strength_column(Severity::Weak), "[WEAK]    ");
}
