//! Forms, lists and dialogs.
use keystash::conflicts::ConflictGroup;
use keystash::crypto::{decrypt, hibp_cache_fingerprint};
use keystash::db::layout::HeadRead;
use keystash::db::swap::{
    advance_swap, begin_swap, describe_swap, swap_backup_path, SwapError, SwapEvent, SwapKind,
    SwapPhase,
};
use keystash::db::unlock::{new_vault, seal_token};
use keystash::db::{add_secret, get_secrets, SecretRecord, Vault};
use keystash::forms::{
    audit_warning, get_strength_bar, handle_change_password_input, handle_form_input,
    handle_generator_input, open_add_form, open_change_password, open_edit_form, open_generator,
    reuse_fingerprints,
    ChangeOutcome, FormField, FormOutcome, GeneratorDialog, GeneratorOutcome,
};
use keystash::generator::GeneratorOptions;
use keystash::import::ImportFormat;
use keystash::keys::{KeyCode, KeyModifiers};
use keystash::modals::{
    find_duplicate_groups, handle_confirmation_input, handle_deduplicate_input,
    handle_export_input, handle_export_type_input, handle_help_input, handle_import_input,
    handle_sync_conflict_input, import_message, progress_percent, visible_scroll, ConfirmAction,
    ConfirmOutcome, ConflictOutcome, ConflictScreen, DuplicateOutcome, DuplicateScreen,
    ExportChoice, PathOutcome,
};
use keystash::render::{
    apply_filter, ask_delete_marked, ask_delete_single, handle_dashboard_input, handle_lock_input,
    handle_setup_input, list_tags, lookup_starts, lookup_waits, perform_unlock, plan_lookup,
    records_to_check, toggle_mark, ActiveBlock, DashAction, Dashboard, EntryOutcome, LockForm,
    LookupStep, SetupForm,
};

const KEY: [u8; 32] = [6u8; 32];
const NOW: &str = "2026-02-01 10:00:00.000";
const LATER: &str = "2026-02-01 11:00:00.000";
const NONE: KeyModifiers = KeyModifiers { control: false, alt: false };

fn vault(rows: &[(&str, &str, &str, &str)]) -> Vault {
    let mut v = new_vault(seal_token(&KEY).unwrap());
    for (title, tags, user, pw) in rows {
        add_secret(&mut v, title, tags, user, "", pw, None, &KEY, NOW).unwrap();
    }
    v
}

fn dashboard(v: &Vault) -> Dashboard {
    let all = get_secrets(v);
    Dashboard {
        searching: false,
        search_query: String::new(),
        categories: list_tags(&all),
        selected_category: 0,
        shown: all,
        selected: 0,
        marked: vec![],
        active: ActiveBlock::Secrets,
        reveal_password: false,
    }
}

#[test]
fn form_reuse_and_strength_reflect_the_cache_not_live_decrypt() {
    let mut v = vault(&[
        ("One", "Cat", "u1", "hunter2"),
        ("Two", "Cat", "u2", "hunter2"),
        ("Three", "Cat", "u3", "SoloPassword1!"),
    ]);
    let mut d = dashboard(&v);
    assert!(matches!(
        handle_dashboard_input(&mut d, KeyCode::Char('a'), true, false),
        DashAction::AddForm
    ));
    let prints = reuse_fingerprints(&v.secrets, &KEY, None);
    let mut form = open_add_form();
    form.active = FormField::Password;
    let options = GeneratorOptions::default();
    for c in "hunter2".chars() {
        handle_form_input(&mut form, &mut v, &Some(KEY), KeyCode::Char(c), NONE, &options, NOW, 10);
    }
    let warning = audit_warning(&form.password, &prints, &v.hibp_checks, &Some(KEY));
    assert!(warning.contains("Reused in 2 other entry(ies)"), "{}", warning);

    form.password.clear();
    for c in "NeverUsedElsewhere99$".chars() {
        handle_form_input(&mut form, &mut v, &Some(KEY), KeyCode::Char(c), NONE, &options, NOW, 10);
    }
    let warning = audit_warning(&form.password, &prints, &v.hibp_checks, &Some(KEY));
    assert!(!warning.contains("Reused in"), "{}", warning);
}

#[test]
fn the_edited_record_is_not_its_own_reuse() {
    let v = vault(&[("One", "Cat", "u1", "hunter2"), ("Two", "Cat", "u2", "hunter2")]);
    assert_eq!(reuse_fingerprints(&v.secrets, &KEY, Some(1)).len(), 1);
    assert_eq!(
        reuse_fingerprints(&v.secrets, &KEY, Some(1))[0],
        hibp_cache_fingerprint(b"hunter2", &KEY)
    );
}

#[test]
fn forms_save_records() {
    let mut v = vault(&[]);
    let options = GeneratorOptions::default();
    let mut form = open_add_form();
    let mut press = |f: &mut keystash::forms::SecretForm, v: &mut Vault, k: KeyCode| {
        handle_form_input(f, v, &Some(KEY), k, NONE, &options, NOW, 10)
    };
    for c in "Site".chars() {
        press(&mut form, &mut v, KeyCode::Char(c));
    }
    press(&mut form, &mut v, KeyCode::Tab);
    assert_eq!(form.active, FormField::Category);
    press(&mut form, &mut v, KeyCode::BackTab);
    assert_eq!(form.active, FormField::Title);
    press(&mut form, &mut v, KeyCode::Backspace);
    assert_eq!(form.title, "Sit");
    form.password = "pw".to_string();
    form.notes = "note".to_string();
    form.category = "b , a,b".to_string();
    form.username = "me".to_string();
    form.active = FormField::Notes;
    let mut saved = false;
    for k in [KeyCode::Enter, KeyCode::Enter] {
        if matches!(press(&mut form, &mut v, k), FormOutcome::Saved) {
            saved = true;
            break;
        }
    }
    assert!(saved);
    assert_eq!(v.secrets.len(), 1);
    assert_eq!(v.secrets[0].title, "Sit");
    assert_eq!(v.secrets[0].category, "b, a");
    assert_eq!(decrypt(&v.secrets[0].encrypted_password, &KEY).unwrap(), b"pw");

    let mut edit = open_edit_form(&v.secrets[0], &Some(KEY));
    assert_eq!(edit.password, "pw");
    assert_eq!(edit.notes, "note");
    assert_eq!(edit.edit_id, Some(1));
    assert!(matches!(press(&mut edit, &mut v, KeyCode::Esc), FormOutcome::Cancelled));
}

#[test]
fn master_password_changes_are_checked() {
    let mut f = open_change_password();
    f.current = "old".to_string();
    f.new = "a".to_string();
    f.confirm = "b".to_string();
    f.field = 2;
    assert!(matches!(
        handle_change_password_input(&mut f, KeyCode::Enter, true),
        ChangeOutcome::Stay
    ));
    assert!(!f.error.is_empty());
    f.confirm = "a".to_string();
    assert!(matches!(
        handle_change_password_input(&mut f, KeyCode::Enter, true),
        ChangeOutcome::Change
    ));
    assert!(matches!(handle_change_password_input(&mut f, KeyCode::Esc, true), ChangeOutcome::Close));
}

#[test]
fn strength_bars_have_ten_cells() {
    for pw in ["a", "hunter2", "vT9#kQ2$mZ7!pL4&wX"] {
        let (bar, label, severity) = get_strength_bar(pw);
        assert!(!bar.is_empty() && !label.is_empty() && severity.is_some(), "{pw}: {bar} {label}");
    }
    assert_eq!(get_strength_bar("").2, None);
}

#[test]
fn the_generator_always_keeps_a_charset() {
    let words: Vec<String> = vec!["alpha".to_string(), "beta".to_string()];
    let mut d = GeneratorDialog {
        options: GeneratorOptions {
            length: 12,
            use_lowercase: false,
            use_uppercase: false,
            use_numbers: true,
            use_symbols: false,
        },
        passphrase_mode: false,
        words: 6,
        password: String::new(),
    };
    for c in ['1', '2', '3', '4', 'l', 'u', 'n', 's', 'r', ' '] {
        handle_generator_input(&mut d, KeyCode::Char(c), &words);
        let o = d.options;
        assert!(o.use_lowercase || o.use_uppercase || o.use_numbers || o.use_symbols);
    }
    assert!(matches!(
        handle_generator_input(&mut d, KeyCode::Esc, &words).0,
        GeneratorOutcome::Close | GeneratorOutcome::Stay
    ));
}

#[test]
fn the_generator_opens_on_a_password() {
    let mut d = GeneratorDialog {
        options: GeneratorOptions::default(),
        passphrase_mode: true,
        words: 6,
        password: "old".to_string(),
    };
    let options = GeneratorOptions { length: 9, ..Default::default() };
    open_generator(&mut d, options);
    assert_eq!(d.password.chars().count(), 9);
    assert!(d.passphrase_mode);
    let none = GeneratorOptions {
        length: 9,
        use_lowercase: false,
        use_uppercase: false,
        use_numbers: false,
        use_symbols: false,
    };
    open_generator(&mut d, none);
    assert!(d.password.is_empty());
}

#[test]
fn lists_are_filtered_by_tag_and_text() {
    let v = vault(&[
        ("GitHub", "dev, work", "me", "a"),
        ("Mail", "work", "you", "b"),
        ("Bank", "Finance", "me", "c"),
    ]);
    let all = get_secrets(&v);
    let names = |r: Vec<SecretRecord>| r.into_iter().map(|s| s.title).collect::<Vec<_>>();
    assert_eq!(names(apply_filter(&all, &Some("work".to_string()), "")), vec!["GitHub", "Mail"]);
    assert_eq!(names(apply_filter(&all, &None, "MAI")), vec!["Mail"]);
    assert_eq!(names(apply_filter(&all, &Some("work".to_string()), "git")), vec!["GitHub"]);
    let tags = list_tags(&all);
    for t in ["dev", "work", "Finance"] {
        assert_eq!(tags.iter().filter(|x| *x == t).count(), 1);
    }
}

#[test]
fn marks_toggle() {
    let mut marked = vec![1];
    toggle_mark(&mut marked, 2);
    assert_eq!(marked, vec![1, 2]);
    toggle_mark(&mut marked, 2);
    assert_eq!(marked, vec![1]);
    toggle_mark(&mut marked, 1);
    toggle_mark(&mut marked, 1);
    assert_eq!(marked, vec![1]);
    assert!(ask_delete_marked(3).contains('3'));
    assert!(ask_delete_single("Mail").contains("Mail"));
}

#[test]
fn the_dashboard_moves_and_asks() {
    let v = vault(&[("A", "x", "u", "p"), ("B", "x", "u", "p"), ("C", "x", "u", "p")]);
    let mut d = dashboard(&v);
    assert!(matches!(handle_dashboard_input(&mut d, KeyCode::Down, true, false), DashAction::Stay));
    assert_eq!(d.selected, 1);
    assert!(matches!(
        handle_dashboard_input(&mut d, KeyCode::Char('e'), true, false),
        DashAction::EditForm { index: 1 }
    ));
    assert!(matches!(
        handle_dashboard_input(&mut d, KeyCode::Char('s'), true, true),
        DashAction::SyncDisabled
    ));
    assert!(matches!(
        handle_dashboard_input(&mut d, KeyCode::Char('s'), false, false),
        DashAction::SyncUnconfigured
    ));
    assert!(matches!(
        handle_dashboard_input(&mut d, KeyCode::Char('s'), false, true),
        DashAction::Sync
    ));
    handle_dashboard_input(&mut d, KeyCode::Char(' '), true, false);
    assert_eq!(d.marked.len(), 1);
    assert_eq!(records_to_check(&d), d.marked);
    handle_dashboard_input(&mut d, KeyCode::Char('/'), true, false);
    assert!(d.searching);
    assert!(matches!(
        handle_dashboard_input(&mut d, KeyCode::Char('q'), true, false),
        DashAction::Filter
    ));
    assert_eq!(d.search_query, "q");
}

#[test]
fn locks_open_only_on_success() {
    let mut f = LockForm { password: String::new(), error: String::new() };
    handle_lock_input(&mut f, KeyCode::Char('x'));
    assert!(matches!(handle_lock_input(&mut f, KeyCode::Enter), EntryOutcome::Submit));
    assert!(!perform_unlock(&mut f, &Err("Incorrect master password.".to_string())));
    assert!(f.error.contains("Incorrect master password."));
    assert!(f.password.is_empty());
    assert!(perform_unlock(&mut f, &Ok(())));

    let mut s = SetupForm {
        password: "a".to_string(),
        confirm: "b".to_string(),
        on_confirm: true,
        error: String::new(),
    };
    assert!(matches!(handle_setup_input(&mut s, KeyCode::Enter), EntryOutcome::Stay));
    assert!(!s.error.is_empty());
}

#[test]
fn lookups_use_the_cache() {
    let v = vault(&[("A", "x", "u", "p")]);
    let r = &v.secrets[0];
    let print = hibp_cache_fingerprint(b"p", &KEY);
    match plan_lookup(r, &KEY, &vec![], &vec![]) {
        LookupStep::Ask { password, fingerprint } => {
            assert_eq!(password, "p");
            assert_eq!(fingerprint, print);
        }
        other => panic!("{:?}", other),
    }
    assert!(!matches!(plan_lookup(r, &KEY, &vec![print], &vec![]), LookupStep::Ask { .. }));
    assert!(matches!(plan_lookup(r, &[9u8; 32], &vec![], &vec![]), LookupStep::Skip));
    assert!(lookup_starts(true, false, 1));
    assert!(!lookup_starts(true, true, 1));
    assert!(!lookup_starts(true, false, 0));
    assert!(lookup_waits(true, 0, 2));
    assert!(!lookup_waits(true, 1, 2));
    assert_eq!(progress_percent(1, 3), 33);
}

#[test]
fn deletions_are_confirmed() {
    let mut v = vault(&[("A", "x", "u", "p"), ("B", "x", "u", "p")]);
    let mut marked = vec![1, 2];
    let o = handle_confirmation_input(&mut v, &mut marked, KeyCode::Char('n'), ConfirmAction::DeleteMarked, LATER);
    assert_eq!(o, ConfirmOutcome::Cancelled);
    assert_eq!(v.secrets.len(), 2);
    let one = ConfirmAction::DeleteSingle { id: 1 };
    let o = handle_confirmation_input(&mut v, &mut marked, KeyCode::Char('y'), one, LATER);
    assert_eq!(o, ConfirmOutcome::Confirmed);
    assert_eq!(v.secrets.len(), 1);
    let o = handle_confirmation_input(&mut v, &mut marked, KeyCode::Char('x'), one, LATER);
    assert_eq!(o, ConfirmOutcome::Stay);
    let o = handle_confirmation_input(&mut v, &mut marked, KeyCode::Char('q'), one, LATER);
    assert_eq!(o, ConfirmOutcome::Cancelled);
}

#[test]
fn paths_are_typed() {
    let mut input = String::new();
    for c in "/tmp/x".chars() {
        handle_import_input(&mut input, KeyCode::Char(c));
    }
    match handle_import_input(&mut input, KeyCode::Enter) {
        PathOutcome::Submit { path } => assert_eq!(path, "/tmp/x"),
        other => panic!("{:?}", other),
    }
    let mut none = String::new();
    assert!(!matches!(handle_export_input(&mut none, KeyCode::Enter), PathOutcome::Submit { .. }));
    assert!(matches!(handle_export_input(&mut none, KeyCode::Esc), PathOutcome::Close));
    assert_eq!(handle_export_type_input(KeyCode::Esc, false), ExportChoice::Close);
    assert_eq!(handle_help_input(3, KeyCode::Down), (4, false));
    assert_eq!(handle_help_input(3, KeyCode::Esc).1, true);
    let (scroll, most) = visible_scroll(90, 40, 10);
    assert!(scroll <= most && most <= 40);
    assert!(import_message(2, ImportFormat::FirefoxCsv, 0).contains('2'));
}

#[test]
fn duplicates_are_found_and_settled() {
    let mut v = vault(&[("A", "x", "u", "p1"), ("A", "x", "u", "p2"), ("B", "x", "u", "p")]);
    let groups = find_duplicate_groups(&get_secrets(&v));
    assert_eq!(groups.len(), 1);
    assert_eq!(groups[0].len(), 2);
    let mut s = DuplicateScreen { groups, group: 0, item: 0 };
    let kept = s.groups[0][0].id;
    let o = handle_deduplicate_input(&mut s, &mut v, &Some(KEY), KeyCode::Enter, LATER, 10);
    assert_eq!(o, DuplicateOutcome::ResolvedLast);
    assert_eq!(v.secrets.len(), 2);
    assert!(v.secrets.iter().any(|r| r.id == kept && r.updated_at == LATER));
    assert_eq!(v.tombstones.len(), 1);
}

fn conflict(v: &Vault, remote_title: &str) -> ConflictGroup {
    let local = v.secrets[0].clone();
    let mut remote = local.clone();
    remote.title = remote_title.to_string();
    ConflictGroup {
        title: local.title.clone(),
        category: local.category.clone(),
        username: local.username.clone(),
        local_secret: local,
        remote_secret: remote,
        base_secret: None,
    }
}

#[test]
fn conflicts_are_settled_one_by_one() {
    let mut v = vault(&[("Mine", "x", "u", "p")]);
    let c = conflict(&v, "Theirs");
    let mut s = ConflictScreen { conflicts: vec![c], selected: 0 };
    let mut settled = false;
    for k in ['r', '2'] {
        let o = handle_sync_conflict_input(&mut s, &mut v, &Some(KEY), KeyCode::Char(k), LATER);
        if matches!(o, ConflictOutcome::ResolvedAll) {
            settled = true;
            break;
        }
    }
    assert!(settled);
    assert_eq!(v.secrets[0].title, "Theirs");
    assert_eq!(v.secrets[0].updated_at, LATER);
    assert!(s.conflicts.is_empty());
}

#[test]
fn swaps_never_lose_the_vault() {
    let salt = [8u8; 16];
    let ok = || SwapEvent::Finished { error: None };
    let mut s = begin_swap(SwapKind::Rotation, salt);
    s = advance_swap(s, ok());
    s = advance_swap(s, SwapEvent::HeadSeen { read: HeadRead::Head { bytes: [1u8; 16] } });
    assert!(matches!(s.phase, SwapPhase::RemoveTemp { .. }));
    assert!(!s.moved_away);
    s = advance_swap(s, SwapEvent::Performed);
    assert!(matches!(s.phase, SwapPhase::Done { error: Some(SwapError::BadHeader { .. }) }));

    let mut s = begin_swap(SwapKind::Rotation, salt);
    s = advance_swap(s, ok());
    s = advance_swap(s, SwapEvent::HeadSeen { read: HeadRead::Head { bytes: salt } });
    let mut steps = 0;
    while !matches!(s.phase, SwapPhase::Done { .. }) && steps < 20 {
        let e = match s.phase {
            SwapPhase::DropStaleSidecar | SwapPhase::DropSidecar | SwapPhase::DropBackup => {
                SwapEvent::Performed
            }
            _ => ok(),
        };
        s = advance_swap(s, e);
        steps += 1;
    }
    assert!(matches!(s.phase, SwapPhase::Done { error: None }));
    assert!(s.verified && s.moved_away && s.reopened);
    assert_eq!(swap_backup_path(SwapKind::Rotation, "/v/vault.db"), "/v/vault.db.pre-rekey-backup");
    let e = SwapError::ReopenFailed { error: "bad".to_string() };
    let text = describe_swap(SwapKind::Rotation, &e, "/v/vault.db");
    assert!(text.contains("bad") && text.contains("/v/vault.db.pre-rekey-backup"), "{}", text);
}
