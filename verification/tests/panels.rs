//! What the screens show.
use keystash::audit::{audit_passwords, Severity};
use keystash::conflicts::ConflictGroup;
use keystash::config::AppConfig;
use keystash::crypto::encrypt;
use keystash::db::SecretRecord;
use keystash::panels::{
    audit_lines, breach_line, change_notice, conflict_row, detail_lines, duplicate_header,
    duplicate_lines, duplicate_row, form_password, grid_hint, help_title, lock_notice, lock_title,
    progress_bar, progress_text, score_bar, secret_rows, settings_lines, setup_notice,
    severity_word, shown_notes, shown_password, side_lines, starred, Notice,
};
use keystash::render::{ActiveBlock, Dashboard, LockForm, SetupForm};
use keystash::settings::open_settings;

const KEY: [u8; 32] = [6u8; 32];

fn record(title: &str, url: &str, password: &str, notes: Option<&str>) -> SecretRecord {
    SecretRecord {
        id: 3,
        title: title.to_string(),
        category: "Tag".to_string(),
        username: "user".to_string(),
        url: url.to_string(),
        encrypted_password: encrypt(password.as_bytes(), &KEY).unwrap(),
        encrypted_notes: notes.map(|n| encrypt(n.as_bytes(), &KEY).unwrap()),
        updated_at: "2026-02-01".to_string(),
        sync_uuid: title.to_string(),
    }
}

#[test]
fn secrets_are_shown_only_on_request() {
    let r = record("T", "u", "geheim", Some("notiz"));
    assert_eq!(shown_password(&r, &Some(KEY), false), "••••••••••••");
    assert_eq!(shown_password(&r, &Some(KEY), true), "geheim");
    assert_eq!(shown_password(&r, &None, true), "<Locked>");
    assert_eq!(shown_password(&r, &Some([1u8; 32]), true), "<Error Decrypting>");
    assert_eq!(shown_notes(&r, &Some(KEY), false), "•••••••• (press [v] to reveal)");
    assert_eq!(shown_notes(&r, &Some(KEY), true), "notiz");
    assert_eq!(shown_notes(&record("T", "", "p", None), &None, true), "[No Notes]");
    let lines = detail_lines(&r, &Some(KEY), true);
    assert_eq!(lines.len(), 10);
    assert_eq!(lines[4], ("Password: ".to_string(), "geheim".to_string()));
    assert_eq!(lines[9], ("Last Updated: ".to_string(), "2026-02-01".to_string()));
    assert!(detail_lines(&r, &Some(KEY), false).iter().all(|l| !l.1.contains("geheim")));
}

#[test]
fn audits_are_shown() {
    assert_eq!(score_bar(3), "Score: 3/5  [███░░]");
    assert_eq!(score_bar(5), "Score: 5/5  [█████]");
    assert_eq!(severity_word(Severity::Weak), "WEAK");
    assert_eq!(breach_line(None), "Not checked (Press [h] to check online)");
    assert_eq!(breach_line(Some(0)), "✓ Clean (not found in breaches)");
    assert_eq!(breach_line(Some(12)), "✗ PWNED (found in 12 breaches)");
    let row = (1, "T".to_string(), "C".to_string(), "U".to_string(), "password".to_string());
    let report = audit_passwords(&mut vec![row], &KEY);
    let lines = audit_lines(&report.entries[0]);
    assert_eq!(lines[2].1, "CRITICAL");
    assert_eq!(lines[5].0, "  Issues found:");
    assert_eq!(lines[6].0, "    • ");
    assert_eq!(lines.len(), 6 + report.entries[0].issues.len());
}

#[test]
fn rows_are_worded() {
    let d = Dashboard {
        searching: false,
        search_query: String::new(),
        categories: vec![],
        selected_category: 0,
        shown: vec![record("A", "", "p", None), record("B", "", "p", None)],
        selected: 0,
        marked: vec![],
        active: ActiveBlock::Secrets,
        reveal_password: false,
    };
    assert_eq!(secret_rows(&d), vec!["  [ ] A", "  [ ] B"]);
    let marked = Dashboard { marked: vec![7, 3], ..d };
    assert_eq!(secret_rows(&marked), vec!["  [x] A", "  [x] B"]);
    let r = record("A", "https://a", "p", Some("one\ntwo"));
    assert_eq!(
        duplicate_header(0, 2, &r),
        " Duplicate Group 1 of 2  |  Key: https://a  |  Username: user"
    );
    assert!(duplicate_header(1, 2, &record("A", "", "p", None)).contains("Key: A"));
    assert_eq!(duplicate_row(0, true, &r), "➔ Entry #1 - [Tag] (Modified: 2026-02-01)");
    let lines = duplicate_lines(&r, &Some(KEY));
    assert_eq!(lines[4].1, "p");
    assert_eq!(lines[8], ("    ".to_string(), "one".to_string()));
    assert_eq!(lines[9].1, "two");
    assert_eq!(duplicate_lines(&r, &None).len(), 8);
}

#[test]
fn changed_fields_of_a_conflict_stand_out() {
    let base = record("A", "https://a", "old", None);
    let side = record("A", "https://a", "new", Some("n"));
    let flags: Vec<bool> = side_lines(&side, &Some(base), &KEY).into_iter().map(|l| l.2).collect();
    assert_eq!(flags, vec![false, true, true]);
    let flags: Vec<bool> = side_lines(&side, &None, &KEY).into_iter().map(|l| l.2).collect();
    assert_eq!(flags, vec![true, true, true]);
    let c = ConflictGroup {
        title: "A".to_string(),
        category: "Tag".to_string(),
        username: "user".to_string(),
        local_secret: side.clone(),
        remote_secret: side,
        base_secret: None,
    };
    assert_eq!(conflict_row(&c), "  Tag > A (user)");
}

#[test]
fn typed_passwords_are_masked() {
    assert_eq!(starred("añ"), "***");
    assert_eq!(form_password("añ", false), "••");
    assert_eq!(form_password("añ", true), "añ");
}

#[test]
fn notices_go_by_what_happens() {
    let lock = LockForm { password: String::new(), error: "bad".to_string() };
    assert_eq!(lock_notice(&lock, true, false).0, Notice::Busy);
    assert_eq!(lock_notice(&lock, false, false), (Notice::Error, "bad".to_string()));
    let lock = LockForm { password: String::new(), error: String::new() };
    assert_eq!(lock_notice(&lock, false, true).1, "Press [Enter] to migrate & unlock | [Esc] to Exit");
    assert!(lock_title(true, &None).contains("legacy vault"));
    assert_eq!(
        lock_title(false, &Some("work".to_string())),
        "KeyStash Password Vault  [profile: work]"
    );
    let setup = SetupForm {
        password: String::new(),
        confirm: String::new(),
        on_confirm: false,
        error: String::new(),
    };
    assert_eq!(setup_notice(&setup, false).0, Notice::Hint);
    let change = keystash::forms::open_change_password();
    assert_eq!(change_notice(&change, true).0, Notice::Busy);
}

#[test]
fn scrolling_and_progress_are_worded() {
    assert_eq!(help_title(2, 5, 40), " Help & Keybindings  [3/40] ");
    assert_eq!(help_title(0, 0, 40), " Help & Keybindings ");
    assert_eq!(grid_hint(1, 2).unwrap(), "  (row 2/5, scroll with Tab/Arrows)");
    assert_eq!(grid_hint(0, 5), None);
    assert_eq!(progress_text(1, 4, 25), "  Checked: 1 / 4  (25%)");
    assert_eq!(progress_bar(25, 8), "  [██░░░░░░]");
    let lines = settings_lines(&open_settings(&AppConfig::default()));
    assert_eq!(lines.len(), 9);
    assert_eq!(lines[0], ("1. Idle Timeout (s)".to_string(), "300".to_string(), true));
    assert_eq!(lines[2].1, "Yes [Space to toggle]");
}
