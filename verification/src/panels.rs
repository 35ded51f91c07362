//! What the screens show: the lines of their panels, and which of them stand out.
use vstd::prelude::*;
use vstd::string::*;
use vstd::utf8::encode_utf8;

use crate::audit::{AuditEntry, EntryView};
use crate::conflicts::{plain, reveal_notes, reveal_text, ConflictGroup, ConflictView};
use crate::crypto::{decrypt, lossy_text, opened, text_of, utf8_text, wipe_bytes, wipe_text};
use crate::db::records::{blob, records, text_opt, RecordView, SecretRecord};
use crate::forms::{
    key_opt, push_repeated, read_password, readable_password, repeated, ChangePasswordForm,
};
use crate::render::{Dashboard, LockForm, SetupForm};
use crate::settings::{SettingsForm, SETTINGS_GRID_ROWS};
use crate::strength::Severity;
use crate::text::{chars_of, decimal, decimal_text, lines, lines_of, texts};

verus! {

/// Lines that consist of a label and a text.
pub open spec fn pairs(v: Seq<(String, String)>) -> Seq<(Seq<char>, Seq<char>)> {
    Seq::new(v.len(), |i: int| (v[i].0@, v[i].1@))
}

/// Lines with a label, a text and whether they stand out.
pub open spec fn marked_pairs(v: Seq<(String, String, bool)>) -> Seq<(Seq<char>, Seq<char>, bool)> {
    Seq::new(v.len(), |i: int| (v[i].0@, v[i].1@, v[i].2))
}

proof fn lemma_pairs_push(v: Seq<(String, String)>, p: (String, String))
    ensures
        pairs(v.push(p)) == pairs(v).push((p.0@, p.1@)),
{
    assert(pairs(v.push(p)) =~= pairs(v).push((p.0@, p.1@)));
}

/// A line.
fn line(label: &str, text: &str) -> (p: (String, String))
    ensures
        p.0@ == label@,
        p.1@ == text@,
{
    (label.to_owned(), text.to_owned())
}

/// A secret in plain text, or why it cannot be shown.
pub open spec fn revealed(data: Seq<u8>, key: Option<Seq<u8>>) -> Seq<char> {
    match key {
        None => "<Locked>"@,
        Some(k) => match opened(data, k) {
            Ok(p) => text_of(p),
            Err(_) => "<Error Decrypting>"@,
        },
    }
}

fn read_secret(data: &[u8], key: &Option<[u8; 32]>) -> (s: String)
    ensures
        s@ == revealed(data@, key_opt(*key)),
{
    match key {
        None => "<Locked>".to_owned(),
        Some(k) => match decrypt(data, k) {
            Ok(mut p) => {
                let s = lossy_text(p.as_slice());
                wipe_bytes(&mut p);
                s
            },
            Err(_) => "<Error Decrypting>".to_owned(),
        },
    }
}

/// A password in the detail view.
pub open spec fn password_text(r: RecordView, key: Option<Seq<u8>>, visible: bool) -> Seq<char> {
    if visible {
        revealed(r.password, key)
    } else {
        "••••••••••••"@
    }
}

/// Notes in the detail view.
pub open spec fn notes_text(r: RecordView, key: Option<Seq<u8>>, visible: bool) -> Seq<char> {
    match r.notes {
        None => "[No Notes]"@,
        Some(d) => if visible {
            revealed(d, key)
        } else {
            "•••••••• (press [v] to reveal)"@
        },
    }
}

/// The password of a record in the detail view.
pub fn shown_password(r: &SecretRecord, key: &Option<[u8; 32]>, visible: bool) -> (s: String)
    ensures
        s@ == password_text(r@, key_opt(*key), visible),
{
    if visible {
        read_secret(r.encrypted_password.as_slice(), key)
    } else {
        "••••••••••••".to_owned()
    }
}

/// The notes of a record in the detail view.
pub fn shown_notes(r: &SecretRecord, key: &Option<[u8; 32]>, visible: bool) -> (s: String)
    ensures
        s@ == notes_text(r@, key_opt(*key), visible),
{
    match &r.encrypted_notes {
        None => "[No Notes]".to_owned(),
        Some(d) => if visible {
            read_secret(d.as_slice(), key)
        } else {
            "•••••••• (press [v] to reveal)".to_owned()
        },
    }
}

/// Without a request to reveal them, the detail view says nothing of a record's secrets but
/// whether it has notes.
pub proof fn law_secrets_are_masked(a: RecordView, b: RecordView, key: Option<Seq<u8>>)
    requires
        a.notes is Some == b.notes is Some,
    ensures
        password_text(a, key, false) == password_text(b, key, false),
        notes_text(a, key, false) == notes_text(b, key, false),
{
}

/// A locked vault shows no secret, whatever is asked for.
pub proof fn law_locked_vault_shows_nothing(a: RecordView, b: RecordView, visible: bool)
    requires
        a.notes is Some == b.notes is Some,
    ensures
        password_text(a, None, visible) == password_text(b, None, visible),
        notes_text(a, None, visible) == notes_text(b, None, visible),
{
}

/// The lines of the detail view.
pub open spec fn detail_lines_of(r: RecordView, key: Option<Seq<u8>>, visible: bool) -> Seq<
    (Seq<char>, Seq<char>),
> {
    seq![
        ("Title:    "@, r.title),
        ("Tags:     "@, r.category),
        ("Username: "@, r.username),
        ("URL:      "@, r.url),
        ("Password: "@, password_text(r, key, visible)),
        (""@, ""@),
        ("Notes:"@, ""@),
        (""@, notes_text(r, key, visible)),
        (""@, ""@),
        ("Last Updated: "@, r.updated_at),
    ]
}

/// The lines of the detail view of a record.
pub fn detail_lines(r: &SecretRecord, key: &Option<[u8; 32]>, visible: bool) -> (v: Vec<
    (String, String),
>)
    ensures
        pairs(v@) == detail_lines_of(r@, key_opt(*key), visible),
{
    let v = vec![
        line("Title:    ", r.title.as_str()),
        line("Tags:     ", r.category.as_str()),
        line("Username: ", r.username.as_str()),
        line("URL:      ", r.url.as_str()),
        ("Password: ".to_owned(), shown_password(r, key, visible)),
        line("", ""),
        line("Notes:", ""),
        ("".to_owned(), shown_notes(r, key, visible)),
        line("", ""),
        line("Last Updated: ", r.updated_at.as_str()),
    ];
    assert(pairs(v@) =~= detail_lines_of(r@, key_opt(*key), visible));
    v
}

/// A severity in capital letters.
pub open spec fn severity_word_of(s: Severity) -> Seq<char> {
    match s {
        Severity::Critical => "CRITICAL"@,
        Severity::Weak => "WEAK"@,
        Severity::Good => "GOOD"@,
    }
}

/// A severity in capital letters.
pub fn severity_word(s: Severity) -> (t: &'static str)
    ensures
        t@ == severity_word_of(s),
{
    match s {
        Severity::Critical => "CRITICAL",
        Severity::Weak => "WEAK",
        Severity::Good => "GOOD",
    }
}

/// The cells of a bar of five that are empty at a score.
pub open spec fn empty_cells(score: u8) -> nat {
    if score <= 5 {
        (5 - score) as nat
    } else {
        0
    }
}

/// A score out of five, with a bar.
pub open spec fn score_text(score: u8) -> Seq<char> {
    "Score: "@ + decimal(score as nat) + "/5  ["@ + repeated('█', score as nat) + repeated(
        '░',
        empty_cells(score),
    ) + "]"@
}

/// A score out of five, with a bar.
pub fn score_bar(score: u8) -> (s: String)
    ensures
        s@ == score_text(score),
{
    let mut s = "Score: ".to_owned();
    s.append(decimal_text(score as u64).as_str());
    s.append("/5  [");
    push_repeated(&mut s, '█', score as usize);
    push_repeated(&mut s, '░', 5u8.saturating_sub(score) as usize);
    s.append("]");
    s
}

/// What is known of a password's breaches.
pub open spec fn breach_text(count: Option<u64>) -> Seq<char> {
    match count {
        None => "Not checked (Press [h] to check online)"@,
        Some(n) => if n == 0 {
            "✓ Clean (not found in breaches)"@
        } else {
            "✗ PWNED (found in "@ + decimal(n as nat) + " breaches)"@
        },
    }
}

/// What is known of a password's breaches.
pub fn breach_line(count: Option<u64>) -> (s: String)
    ensures
        s@ == breach_text(count),
{
    match count {
        None => "Not checked (Press [h] to check online)".to_owned(),
        Some(n) => if n == 0 {
            "✓ Clean (not found in breaches)".to_owned()
        } else {
            let mut s = "✗ PWNED (found in ".to_owned();
            s.append(decimal_text(n).as_str());
            s.append(" breaches)");
            s
        },
    }
}

/// The lines on a password's issues.
pub open spec fn issue_lines_of(issues: Seq<Seq<char>>) -> Seq<(Seq<char>, Seq<char>)> {
    if issues.len() == 0 {
        Seq::empty()
    } else {
        seq![("  Issues found:"@, ""@)] + Seq::new(
            issues.len(),
            |i: int| ("    • "@, issues[i]),
        )
    }
}

/// The lines of the audit below the detail view.
pub open spec fn audit_lines_of(e: EntryView) -> Seq<(Seq<char>, Seq<char>)> {
    seq![
        (""@, ""@),
        ("Security Audit:"@, ""@),
        ("  Severity: "@, severity_word_of(e.severity)),
        ("  "@, score_text(e.score)),
        ("  HIBP:     "@, breach_text(e.hibp_count)),
    ] + issue_lines_of(e.issues)
}

/// The lines of the audit of a credential.
pub fn audit_lines(e: &AuditEntry) -> (v: Vec<(String, String)>)
    ensures
        pairs(v@) == audit_lines_of(e@),
{
    let mut v = vec![
        line("", ""),
        line("Security Audit:", ""),
        line("  Severity: ", severity_word(e.severity)),
        ("  ".to_owned(), score_bar(e.score)),
        ("  HIBP:     ".to_owned(), breach_line(e.hibp_count)),
    ];
    let ghost base = pairs(v@);
    assert(base =~= audit_lines_of(e@).take(5));
    assert(e@.issues.len() == e.issues@.len());
    if e.issues.len() == 0 {
        assert(base =~= audit_lines_of(e@));
        return v;
    }
    v.push(line("  Issues found:", ""));
    let ghost all = audit_lines_of(e@);
    assert(pairs(v@) =~= all.take(6));
    let mut i: usize = 0;
    while i < e.issues.len()
        invariant
            i <= e.issues@.len(),
            e.issues@.len() > 0,
            all == audit_lines_of(e@),
            all.len() == 6 + e.issues@.len(),
            pairs(v@) == all.take(6 + i),
        decreases e.issues@.len() - i,
    {
        let ghost old_v = v@;
        let p = line("    • ", e.issues[i].as_str());
        v.push(p);
        proof {
            lemma_pairs_push(old_v, p);
            assert(all[6 + i] == ("    • "@, e@.issues[i as int]));
            assert(pairs(v@) =~= all.take(6 + i + 1));
        }
        i += 1;
    }
    assert(all.take(all.len() as int) =~= all);
    v
}

/// A row of the list of credentials.
pub open spec fn secret_row(title: Seq<char>, marked: bool) -> Seq<char> {
    "  "@ + (if marked {
        "[x] "@
    } else {
        "[ ] "@
    }) + title
}

/// Whether a record is marked.
pub fn is_marked(marked: &Vec<i64>, id: i64) -> (b: bool)
    ensures
        b == marked@.contains(id),
{
    let mut i: usize = 0;
    while i < marked.len()
        invariant
            i <= marked@.len(),
            forall|k: int| 0 <= k < i ==> marked@[k] != id,
        decreases marked@.len() - i,
    {
        if marked[i] == id {
            assert(marked@[i as int] == id);
            return true;
        }
        i += 1;
    }
    false
}

/// The rows of the list of credentials.
pub open spec fn secret_rows_of(s: Seq<RecordView>, ids: Seq<int>) -> Seq<Seq<char>> {
    Seq::new(s.len(), |i: int| secret_row(s[i].title, ids.contains(s[i].id)))
}

/// The ids in a list.
pub open spec fn ids_in(v: Seq<i64>) -> Seq<int> {
    Seq::new(v.len(), |i: int| v[i] as int)
}

/// The rows of the list of credentials.
pub fn secret_rows(d: &Dashboard) -> (rows: Vec<String>)
    ensures
        texts(rows@) == secret_rows_of(records(d.shown@), ids_in(d.marked@)),
{
    let mut rows: Vec<String> = Vec::new();
    let ghost all = secret_rows_of(records(d.shown@), ids_in(d.marked@));
    assert(texts(rows@) =~= all.take(0));
    let mut i: usize = 0;
    while i < d.shown.len()
        invariant
            i <= d.shown@.len(),
            all == secret_rows_of(records(d.shown@), ids_in(d.marked@)),
            texts(rows@) == all.take(i as int),
        decreases d.shown@.len() - i,
    {
        let ghost before = rows@;
        let marked = is_marked(&d.marked, d.shown[i].id);
        proof {
            let id = d.shown@[i as int].id;
            if marked {
                let k = choose|k: int| 0 <= k < d.marked@.len() && d.marked@[k] == id;
                assert(ids_in(d.marked@)[k] == id as int);
            } else if ids_in(d.marked@).contains(id as int) {
                let k = choose|k: int|
                    0 <= k < d.marked@.len() && ids_in(d.marked@)[k] == id as int;
                assert(d.marked@[k] == id);
            }
        }
        let mut row = "  ".to_owned();
        if marked {
            row.append("[x] ");
        } else {
            row.append("[ ] ");
        }
        row.append(d.shown[i].title.as_str());
        proof {
            assert(records(d.shown@)[i as int] == d.shown@[i as int]@);
            assert(marked == ids_in(d.marked@).contains(d.shown@[i as int]@.id));
            assert(row@ =~= all[i as int]);
            assert(texts(before.push(row)) =~= texts(before).push(row@));
            assert(all.take(i + 1) =~= all.take(i as int).push(all[i as int]));
        }
        rows.push(row);
        i += 1;
    }
    assert(all.take(all.len() as int) =~= all);
    rows
}

/// A text of one asterisk for every byte of a password.
pub fn starred(password: &str) -> (s: String)
    ensures
        s@ == repeated('*', encode_utf8(password@).len()),
{
    let n: usize = password.as_bytes().len();
    let mut s = String::new();
    push_repeated(&mut s, '*', n);
    assert(s@ =~= repeated('*', n as nat));
    s
}

/// The password field of a form: as it is, or a dot for every character.
pub fn form_password(password: &str, visible: bool) -> (s: String)
    ensures
        s@ == (if visible {
            password@
        } else {
            repeated('•', password@.len())
        }),
{
    if visible {
        return password.to_owned();
    }
    let n: usize = chars_of(password).len();
    let mut s = String::new();
    push_repeated(&mut s, '•', n);
    assert(s@ =~= repeated('•', n as nat));
    s
}

/// How a notice below a password is shown.
#[derive(Debug, Clone, Copy, PartialEq, Eq, Structural)]
pub enum Notice {
    Busy,
    Error,
    Hint,
}

/// The notice while a password is worked on, after an error, and otherwise.
pub open spec fn notice_of(
    busy: bool,
    error: Seq<char>,
    busy_text: Seq<char>,
    hint: Seq<char>,
) -> (Notice, Seq<char>) {
    if busy {
        (Notice::Busy, busy_text)
    } else if error.len() > 0 {
        (Notice::Error, error)
    } else {
        (Notice::Hint, hint)
    }
}

fn choose_notice(busy: bool, error: &str, busy_text: &str, hint: &str) -> (r: (Notice, String))
    ensures
        (r.0, r.1@) == notice_of(busy, error@, busy_text@, hint@),
{
    if busy {
        (Notice::Busy, busy_text.to_owned())
    } else if !error.is_empty() {
        (Notice::Error, error.to_owned())
    } else {
        (Notice::Hint, hint.to_owned())
    }
}

/// The title of the lock screen; where there are several vaults, with the name of this one.
pub open spec fn lock_title_of(migrates: bool, profile: Option<Seq<char>>) -> Seq<char> {
    (if migrates {
        "KeyStash Password Vault (legacy vault -- will migrate to encrypted format)"@
    } else {
        "KeyStash Password Vault"@
    }) + (match profile {
        Some(p) => "  [profile: "@ + p + "]"@,
        None => Seq::empty(),
    })
}

/// The title of the lock screen.
pub fn lock_title(migrates: bool, profile: &Option<String>) -> (s: String)
    ensures
        s@ == lock_title_of(migrates, text_opt(*profile)),
{
    let mut s = if migrates {
        "KeyStash Password Vault (legacy vault -- will migrate to encrypted format)".to_owned()
    } else {
        "KeyStash Password Vault".to_owned()
    };
    let ghost head = s@;
    match profile {
        Some(p) => {
            s.append("  [profile: ");
            s.append(p.as_str());
            s.append("]");
            assert(s@ =~= head + ("  [profile: "@ + p@ + "]"@));
        },
        None => {
            assert(head + Seq::empty() =~= head);
        },
    }
    s
}

/// The notice on the lock screen.
pub fn lock_notice(f: &LockForm, busy: bool, migrates: bool) -> (r: (Notice, String))
    ensures
        (r.0, r.1@) == notice_of(
            busy,
            f.error@,
            "Deriving key (Argon2id), please wait..."@,
            if migrates {
                "Press [Enter] to migrate & unlock | [Esc] to Exit"@
            } else {
                "Press [Enter] to Unlock | [Esc] to Exit"@
            },
        ),
{
    choose_notice(
        busy,
        f.error.as_str(),
        "Deriving key (Argon2id), please wait...",
        if migrates {
            "Press [Enter] to migrate & unlock | [Esc] to Exit"
        } else {
            "Press [Enter] to Unlock | [Esc] to Exit"
        },
    )
}

/// The notice on the set-up screen.
pub fn setup_notice(f: &SetupForm, busy: bool) -> (r: (Notice, String))
    ensures
        (r.0, r.1@) == notice_of(
            busy,
            f.error@,
            "Deriving key (Argon2id) and creating the vault, please wait..."@,
            "Use [Tab] to switch fields | Press [Enter] to Initialize | [Esc] to Exit"@,
        ),
{
    choose_notice(
        busy,
        f.error.as_str(),
        "Deriving key (Argon2id) and creating the vault, please wait...",
        "Use [Tab] to switch fields | Press [Enter] to Initialize | [Esc] to Exit",
    )
}

/// The notice on the screen for a new master password.
pub fn change_notice(f: &ChangePasswordForm, busy: bool) -> (r: (Notice, String))
    ensures
        (r.0, r.1@) == notice_of(
            busy,
            f.error@,
            "Verifying password, deriving new key, and re-encrypting the vault -- please wait..."@,
            "Use [Tab] / [Shift+Tab] to switch fields | Press [Enter] to Save | [Esc] to Cancel"@,
        ),
{
    choose_notice(
        busy,
        f.error.as_str(),
        "Verifying password, deriving new key, and re-encrypting the vault -- please wait...",
        "Use [Tab] / [Shift+Tab] to switch fields | Press [Enter] to Save | [Esc] to Cancel",
    )
}

/// The title of the help, with the place in it where it can be scrolled.
pub open spec fn help_title_of(scroll: nat, most: nat, total: nat) -> Seq<char> {
    if most > 0 {
        " Help & Keybindings  ["@ + decimal(scroll + 1) + "/"@ + decimal(total) + "] "@
    } else {
        " Help & Keybindings "@
    }
}

/// The title of the help.
pub fn help_title(scroll: u16, most: u16, total: u16) -> (s: String)
    ensures
        s@ == help_title_of(scroll as nat, most as nat, total as nat),
{
    if most > 0 {
        let mut s = " Help & Keybindings  [".to_owned();
        s.append(decimal_text(scroll as u64 + 1).as_str());
        s.append("/");
        s.append(decimal_text(total as u64).as_str());
        s.append("] ");
        s
    } else {
        " Help & Keybindings ".to_owned()
    }
}

/// The header of the screen for duplicates. The group goes by its address, or else by its title.
pub open spec fn duplicate_header_of(group: nat, count: nat, first: RecordView) -> Seq<char> {
    " Duplicate Group "@ + decimal(group + 1) + " of "@ + decimal(count) + "  |  Key: "@ + (
    if first.url.len() > 0 {
        first.url
    } else {
        first.title
    }) + "  |  Username: "@ + first.username
}

/// The header of the screen for duplicates.
pub fn duplicate_header(group: usize, count: usize, first: &SecretRecord) -> (s: String)
    requires
        group < count,
    ensures
        s@ == duplicate_header_of(group as nat, count as nat, first@),
{
    let mut s = " Duplicate Group ".to_owned();
    s.append(decimal_text(group as u64 + 1).as_str());
    s.append(" of ");
    s.append(decimal_text(count as u64).as_str());
    s.append("  |  Key: ");
    if first.url.as_str().is_empty() {
        s.append(first.title.as_str());
    } else {
        s.append(first.url.as_str());
    }
    s.append("  |  Username: ");
    s.append(first.username.as_str());
    s
}

/// A row of the screen for duplicates.
pub open spec fn duplicate_row_of(i: nat, selected: bool, r: RecordView) -> Seq<char> {
    (if selected {
        "➔ "@
    } else {
        "  "@
    }) + "Entry #"@ + decimal(i + 1) + " - ["@ + r.category + "] (Modified: "@ + r.updated_at + ")"@
}

/// A row of the screen for duplicates.
pub fn duplicate_row(i: usize, selected: bool, r: &SecretRecord) -> (s: String)
    requires
        i < usize::MAX,
    ensures
        s@ == duplicate_row_of(i as nat, selected, r@),
{
    let mut s = if selected {
        "➔ ".to_owned()
    } else {
        "  ".to_owned()
    };
    s.append("Entry #");
    s.append(decimal_text((i + 1) as u64).as_str());
    s.append(" - [");
    s.append(r.category.as_str());
    s.append("] (Modified: ");
    s.append(r.updated_at.as_str());
    s.append(")");
    s
}

/// The text of optional notes, if they open and are text; else nothing.
pub open spec fn readable_notes(notes: Option<Seq<u8>>, key: Seq<u8>) -> Seq<char> {
    match notes {
        None => Seq::empty(),
        Some(d) => match opened(d, key) {
            Ok(p) => if vstd::utf8::valid_utf8(p) {
                vstd::utf8::decode_utf8(p)
            } else {
                Seq::empty()
            },
            Err(_) => Seq::empty(),
        },
    }
}

fn read_notes(notes: &Option<Vec<u8>>, key: &[u8; 32]) -> (s: String)
    ensures
        s@ == readable_notes(blob(*notes), key@),
{
    match notes {
        None => String::new(),
        Some(d) => match decrypt(d.as_slice(), key) {
            Ok(p) => match utf8_text(p) {
                Some(s) => s,
                None => String::new(),
            },
            Err(_) => String::new(),
        },
    }
}

/// The text of a record's password, if it opens and is text; else nothing.
pub open spec fn password_or_nothing(r: RecordView, key: Seq<u8>) -> Seq<char> {
    match readable_password(r, key) {
        Some(p) => p,
        None => Seq::empty(),
    }
}

/// The password and notes of a duplicate, which are shown only while the vault is open.
pub open spec fn duplicate_secrets(r: RecordView, key: Option<Seq<u8>>) -> (Seq<char>, Seq<char>) {
    match key {
        Some(k) => (password_or_nothing(r, k), readable_notes(r.notes, k)),
        None => (Seq::empty(), Seq::empty()),
    }
}

/// The lines on a duplicate.
pub open spec fn duplicate_lines_of(r: RecordView, key: Option<Seq<u8>>) -> Seq<
    (Seq<char>, Seq<char>),
> {
    let notes = lines(duplicate_secrets(r, key).1);
    seq![
        ("  Title:      "@, r.title),
        ("  Category:   "@, r.category),
        ("  Username:   "@, r.username),
        ("  URL:        "@, r.url),
        ("  Password:   "@, duplicate_secrets(r, key).0),
        ("  Updated At: "@, r.updated_at),
        (""@, ""@),
        ("  Notes:"@, ""@),
    ] + Seq::new(notes.len(), |i: int| ("    "@, notes[i]))
}

/// The lines on a duplicate.
pub fn duplicate_lines(r: &SecretRecord, key: &Option<[u8; 32]>) -> (v: Vec<(String, String)>)
    ensures
        pairs(v@) == duplicate_lines_of(r@, key_opt(*key)),
{
    let (password, mut notes) = match key {
        Some(k) => (
            match read_password(r, k) {
                Some(p) => p,
                None => String::new(),
            },
            read_notes(&r.encrypted_notes, k),
        ),
        None => (String::new(), String::new()),
    };
    let ghost all = duplicate_lines_of(r@, key_opt(*key));
    let parts = lines_of(notes.as_str());
    wipe_text(&mut notes);
    let mut v = vec![
        line("  Title:      ", r.title.as_str()),
        line("  Category:   ", r.category.as_str()),
        line("  Username:   ", r.username.as_str()),
        line("  URL:        ", r.url.as_str()),
        ("  Password:   ".to_owned(), password),
        line("  Updated At: ", r.updated_at.as_str()),
        line("", ""),
        line("  Notes:", ""),
    ];
    assert(texts(parts@) == lines(duplicate_secrets(r@, key_opt(*key)).1));
    assert(pairs(v@) =~= all.take(8));
    let mut i: usize = 0;
    while i < parts.len()
        invariant
            i <= parts@.len(),
            texts(parts@) == lines(duplicate_secrets(r@, key_opt(*key)).1),
            all == duplicate_lines_of(r@, key_opt(*key)),
            all.len() == 8 + parts@.len(),
            pairs(v@) == all.take(8 + i),
        decreases parts@.len() - i,
    {
        let ghost old_v = v@;
        let p = line("    ", parts[i].as_str());
        v.push(p);
        proof {
            lemma_pairs_push(old_v, p);
            assert(texts(parts@)[i as int] == parts@[i as int]@);
            assert(all[8 + i] == ("    "@, parts@[i as int]@));
            assert(pairs(v@) =~= all.take(8 + i + 1));
        }
        i += 1;
    }
    assert(all.take(all.len() as int) =~= all);
    v
}

/// A row of the list of conflicts.
pub open spec fn conflict_row_of(c: ConflictView) -> Seq<char> {
    "  "@ + c.local.category + " > "@ + c.local.title + " ("@ + c.local.username + ")"@
}

/// A row of the list of conflicts.
pub fn conflict_row(c: &ConflictGroup) -> (s: String)
    requires
        c.wf(),
    ensures
        s@ == conflict_row_of(c@),
{
    let mut s = "  ".to_owned();
    s.append(c.category.as_str());
    s.append(" > ");
    s.append(c.title.as_str());
    s.append(" (");
    s.append(c.username.as_str());
    s.append(")");
    s
}

/// The address, password and notes that both sides last agreed on; nothing where there was no
/// agreement.
pub open spec fn agreed(base: Option<RecordView>, key: Seq<u8>) -> (Seq<char>, Seq<char>, Seq<char>) {
    match base {
        Some(b) => (b.url, plain(b, key).password, plain(b, key).notes),
        None => (Seq::empty(), Seq::empty(), Seq::empty()),
    }
}

/// The lines on one side of a conflict; those stand out that differ from the last agreement.
pub open spec fn side_lines_of(s: RecordView, base: Option<RecordView>, key: Seq<u8>) -> Seq<
    (Seq<char>, Seq<char>, bool),
> {
    let p = plain(s, key);
    let b = agreed(base, key);
    seq![
        ("  URL:      "@, p.url, p.url != b.0),
        ("  Password: "@, p.password, p.password != b.1),
        ("  Notes:    "@, p.notes, p.notes != b.2),
    ]
}

/// An optional record.
pub open spec fn record_opt(r: Option<SecretRecord>) -> Option<RecordView> {
    match r {
        Some(x) => Some(x@),
        None => None,
    }
}

/// The lines on one side of a conflict.
pub fn side_lines(s: &SecretRecord, base: &Option<SecretRecord>, key: &[u8; 32]) -> (v: Vec<
    (String, String, bool),
>)
    ensures
        marked_pairs(v@) == side_lines_of(s@, record_opt(*base), key@),
{
    let (url, mut password, mut notes) = match base {
        Some(b) => (
            b.url.clone(),
            reveal_text(b.encrypted_password.as_slice(), key),
            reveal_notes(&b.encrypted_notes, key),
        ),
        None => (String::new(), String::new(), String::new()),
    };
    let own_password = reveal_text(s.encrypted_password.as_slice(), key);
    let own_notes = reveal_notes(&s.encrypted_notes, key);
    let url_differs = !(s.url == url);
    let password_differs = !(own_password == password);
    let notes_differ = !(own_notes == notes);
    wipe_text(&mut password);
    wipe_text(&mut notes);
    let v = vec![
        ("  URL:      ".to_owned(), s.url.clone(), url_differs),
        ("  Password: ".to_owned(), own_password, password_differs),
        ("  Notes:    ".to_owned(), own_notes, notes_differ),
    ];
    assert(marked_pairs(v@) =~= side_lines_of(s@, record_opt(*base), key@));
    v
}

/// What a switch of the settings shows.
pub open spec fn switch_text(on: bool) -> Seq<char> {
    if on {
        "Yes [Space to toggle]"@
    } else {
        "No [Space to toggle]"@
    }
}

fn switch(on: bool) -> (s: String)
    ensures
        s@ == switch_text(on),
{
    if on {
        "Yes [Space to toggle]".to_owned()
    } else {
        "No [Space to toggle]".to_owned()
    }
}

/// The fields of the settings screen; the focused one stands out.
pub open spec fn settings_lines_of(f: SettingsForm) -> Seq<(Seq<char>, Seq<char>, bool)> {
    seq![
        ("1. Idle Timeout (s)"@, f.idle_timeout@, f.active == 0),
        ("2. Clipboard Delay (s)"@, f.clipboard_clear@, f.active == 1),
        ("3. Auto Sync (Y/N)"@, switch_text(f.auto_sync), f.active == 2),
        ("4. Gen Length"@, f.gen_length@, f.active == 3),
        ("5. Gen Lowercase (Y/N)"@, switch_text(f.gen_lowercase), f.active == 4),
        ("6. Gen Uppercase (Y/N)"@, switch_text(f.gen_uppercase), f.active == 5),
        ("7. Gen Numbers (Y/N)"@, switch_text(f.gen_numbers), f.active == 6),
        ("8. Gen Symbols (Y/N)"@, switch_text(f.gen_symbols), f.active == 7),
        ("9. History Keep (0 = all)"@, f.history_retention@, f.active == 8),
    ]
}

/// The fields of the settings screen.
pub fn settings_lines(f: &SettingsForm) -> (v: Vec<(String, String, bool)>)
    ensures
        marked_pairs(v@) == settings_lines_of(*f),
{
    let v = vec![
        ("1. Idle Timeout (s)".to_owned(), f.idle_timeout.clone(), f.active == 0),
        ("2. Clipboard Delay (s)".to_owned(), f.clipboard_clear.clone(), f.active == 1),
        ("3. Auto Sync (Y/N)".to_owned(), switch(f.auto_sync), f.active == 2),
        ("4. Gen Length".to_owned(), f.gen_length.clone(), f.active == 3),
        ("5. Gen Lowercase (Y/N)".to_owned(), switch(f.gen_lowercase), f.active == 4),
        ("6. Gen Uppercase (Y/N)".to_owned(), switch(f.gen_uppercase), f.active == 5),
        ("7. Gen Numbers (Y/N)".to_owned(), switch(f.gen_numbers), f.active == 6),
        ("8. Gen Symbols (Y/N)".to_owned(), switch(f.gen_symbols), f.active == 7),
        ("9. History Keep (0 = all)".to_owned(), f.history_retention.clone(), f.active == 8),
    ];
    assert(marked_pairs(v@) =~= settings_lines_of(*f));
    v
}

/// At most one field of the settings screen stands out.
pub proof fn law_one_setting_is_focused(f: SettingsForm, i: int, j: int)
    requires
        0 <= i < j < settings_lines_of(f).len(),
    ensures
        !(settings_lines_of(f)[i].2 && settings_lines_of(f)[j].2),
{
}

/// The hint on the place in the settings grid, where it does not fit on the screen.
pub open spec fn grid_hint_of(offset: nat, fit: nat) -> Option<Seq<char>> {
    if fit < SETTINGS_GRID_ROWS {
        Some(
            "  (row "@ + decimal(offset + 1) + "/"@ + decimal(SETTINGS_GRID_ROWS as nat)
                + ", scroll with Tab/Arrows)"@,
        )
    } else {
        None
    }
}

/// The hint on the place in the settings grid.
pub fn grid_hint(offset: usize, fit: usize) -> (r: Option<String>)
    requires
        offset < usize::MAX,
    ensures
        text_opt(r) == grid_hint_of(offset as nat, fit as nat),
{
    if fit < SETTINGS_GRID_ROWS {
        let mut s = "  (row ".to_owned();
        s.append(decimal_text((offset + 1) as u64).as_str());
        s.append("/");
        s.append(decimal_text(SETTINGS_GRID_ROWS as u64).as_str());
        s.append(", scroll with Tab/Arrows)");
        Some(s)
    } else {
        None
    }
}

/// The line above the bar of a breach lookup.
pub open spec fn progress_text_of(checked: nat, total: nat, percent: nat) -> Seq<char> {
    "  Checked: "@ + decimal(checked) + " / "@ + decimal(total) + "  ("@ + decimal(percent) + "%)"@
}

/// The line above the bar of a breach lookup.
pub fn progress_text(checked: usize, total: usize, percent: usize) -> (s: String)
    ensures
        s@ == progress_text_of(checked as nat, total as nat, percent as nat),
{
    let mut s = "  Checked: ".to_owned();
    s.append(decimal_text(checked as u64).as_str());
    s.append(" / ");
    s.append(decimal_text(total as u64).as_str());
    s.append("  (");
    s.append(decimal_text(percent as u64).as_str());
    s.append("%)");
    s
}

/// A bar of `width` cells, `percent` of a hundred of them full.
pub open spec fn progress_bar_of(percent: nat, width: nat) -> Seq<char> {
    let full = (width * percent / 100) as nat;
    "  ["@ + repeated('█', full) + repeated('░', (width - full) as nat) + "]"@
}

/// The bar of a breach lookup.
pub fn progress_bar(percent: usize, width: u16) -> (s: String)
    requires
        percent <= 100,
    ensures
        s@ == progress_bar_of(percent as nat, width as nat),
{
    proof {
        let w = width as int;
        let p = percent as int;
        assert(0 <= w * p <= w * 100) by (nonlinear_arith)
            requires
                0 <= p <= 100,
                0 <= w,
        ;
    }
    let full: usize = (width as usize * percent) / 100;
    let mut s = "  [".to_owned();
    push_repeated(&mut s, '█', full);
    push_repeated(&mut s, '░', width as usize - full);
    s.append("]");
    s
}

} // verus!
