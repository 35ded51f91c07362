//! What the user is told, and the small decisions around it.
use vstd::prelude::*;

use crate::cli::{after_command, join_path};
use crate::config::{clamp_clipboard, clamp_idle, warn_and_quarantine, AppConfig};
use crate::conflicts::{reveal_text, ConflictGroup};
use crate::crypto::lemma_text_round_trip;
use crate::db::records::{RecordView, SecretRecord, Vault};
use crate::forms::{open_change_password, open_generator, ChangePasswordForm, GeneratorDialog};
use crate::generator::{clamp, draft_password, join_words, GeneratorOptions};
use crate::import::{classify, detect_format, import_drafts, Draft, ImportFormat};
use crate::keys::{delete_last, is_digit};
use crate::modals::{delete_records, restamp_record};
use crate::panels::{
    breach_line, conflict_row, duplicate_header, duplicate_row, help_title, is_marked, lock_title,
    progress_bar, progress_text, severity_word,
};
use crate::promises::generating::{capital, figure, small, symbol};
use crate::promises::records::{else_untouched, lemma_found, reads};
use crate::render::{
    ask_delete_marked, ask_delete_single, handle_interrupted_migration_input, lookup_starts,
    lookup_waits,
};
use crate::settings::settings_grid_scroll;
use crate::strength::{is_sequential, Severity};
use crate::sync::{command_text, describe, is_git_configured, GitStep, SyncResult};
use crate::text::{decimal, quoted, texts, trimmed};

verus! {

/// Whether a text begins with another.
pub open spec fn begins(s: Seq<char>, p: Seq<char>) -> bool {
    p.len() <= s.len() && s.subrange(0, p.len() as int) == p
}

proof fn lemma_begins(s: Seq<char>, p: Seq<char>, rest: Seq<char>)
    requires
        s == p + rest,
    ensures
        begins(s, p),
{
    assert(s.subrange(0, p.len() as int) =~= p);
}

/// A report of a sync says what happened: each outcome has its own words, and an error is passed
/// on.
pub proof fn law_sync_is_reported_in_words(r: &SyncResult, s: String)
    requires
        call_ensures(describe, (r,), s),
    ensures
        *r is UpToDate ==> s@ == "Sync complete: Vault is already up-to-date with remote."@,
        *r is Restored ==> s@ == "Sync complete: Local vault restored from remote repository!"@,
        *r is Merged ==> s@ == "Sync complete: Local and remote vaults merged and updated!"@,
        *r is NoDirectory ==> s@ == "Invalid database directory"@,
        *r is Unreachable ==> s@
            == "Could not reach git remote 'origin/main'. Check network or SSH configuration."@,
        *r matches SyncResult::MergeFailed { error } ==> s@ == error@,
        *r matches SyncResult::RestoreFailed { error } ==> s@
            == "Failed to restore vault.db from remote: "@ + error@,
        *r matches SyncResult::NotConfigured { dir } ==> s@
            == "Sync not configured. Run `keystash sync setup` (or set up git in "@ + dir@
            + ") to enable syncing."@,
        *r matches SyncResult::GitUnavailable { step, error } ==> s@ == (match step {
            GitStep::Fetch => "git fetch failed: "@,
            GitStep::Status => "git status failed: "@,
            GitStep::Reset => "git reset failed: "@,
            GitStep::Add => "git add failed: "@,
            GitStep::Commit => "git commit failed: "@,
            GitStep::Push => "git push failed: "@,
        }) + error@,
        *r is PushFailed ==> s@
            == "Git push failed. You might have conflicts or remote changes that couldn't rebase automatically."@,
        *r matches SyncResult::PushedOverRemote { backup, plaintext } ==> exists|
            x: Seq<char>,
            y: Seq<char>,
        | s@ == #[trigger] (x + quoted(backup@) + y),
{
    if let SyncResult::PushedOverRemote { backup, plaintext } = *r {
        let x = "Sync complete: the remote vault was "@ + (if plaintext {
            "an outdated pre-encryption copy"@
        } else {
            "unreadable under the current key despite carrying the same salt -- most likely corrupted"@
        })
            + " and could not be merged. Your local vault was pushed as the new source of truth; the old remote copy was saved to "@;
        assert(s@ =~= x + quoted(backup@) + " in case you need anything from it."@);
    }
}

/// What a broken settings file leads to is said with its path and where it went.
pub proof fn law_broken_settings_are_reported(path: &str, reason: &str, to: &Option<String>, s: String)
    requires
        call_ensures(warn_and_quarantine, (path, reason, to), s),
    ensures
        *to is None ==> s@ == "Warning: "@ + quoted(path@) + " could not be read ("@ + reason@
            + ") -- "@ + "resetting to defaults."@,
        *to matches Some(p) ==> s@ == "Warning: "@ + quoted(path@) + " could not be read ("@ + reason@
            + ") -- "@ + ("moved aside to "@ + quoted(p@) + " and reset to defaults."@),
{
}

/// A number is moved into its range only where it is outside.
pub proof fn law_numbers_are_clamped(n: usize, low: usize, high: usize, r: usize, x: u64, a: u64, b: u64)
    requires
        low <= high,
        call_ensures(clamp, (n, low, high), r),
        call_ensures(clamp_idle, (x,), a),
        call_ensures(clamp_clipboard, (x,), b),
    ensures
        low <= r <= high,
        low <= n <= high ==> r == n,
        n < low ==> r == low,
        n > high ==> r == high,
        a >= 10 && (x >= 10 ==> a == x) && (x < 10 ==> a == 10),
        1 <= b <= 3600 && (1 <= x <= 3600 ==> b == x) && (x > 3600 ==> b == 3600) && (x == 0 ==> b == 1),
{
}

/// The usual options are those of the settings, and saving others changes nothing else there.
pub proof fn law_options_are_kept_in_the_settings(
    o: &GeneratorOptions,
    c: &AppConfig,
    loaded: GeneratorOptions,
    saved: AppConfig,
)
    requires
        call_ensures(GeneratorOptions::load, (c,), loaded),
        call_ensures(GeneratorOptions::save, (o, c), saved),
    ensures
        loaded == c.generator,
        saved.generator == *o,
        saved.idle_timeout_seconds == c.idle_timeout_seconds,
        saved.clipboard_clear_seconds == c.clipboard_clear_seconds,
        saved.auto_sync == c.auto_sync,
        saved.history_retention == c.history_retention,
{
}

/// Words that are drawn are joined in the order they were drawn in.
pub proof fn law_drawn_words_are_joined(words: &Vec<String>, draws: &Vec<usize>, s: String)
    requires
        call_ensures(join_words, (words, draws), s),
        draws@.len() == 2,
        draws@[0] < words@.len(),
        draws@[1] < words@.len(),
    ensures
        s@ == words@[draws@[0] as int]@ + seq!['-'] + words@[draws@[1] as int]@,
{
    let t = texts(words@);
    let d = draws@;
    assert(d.drop_last().len() == 1 && d.drop_last()[0] == d[0]);
    assert(crate::generator::hyphenated(t, d.drop_last()) == t[d[0] as int]);
    assert(t[d[0] as int] == words@[d[0] as int]@ && t[d[1] as int] == words@[d[1] as int]@);
}

/// A draft of a password takes its first characters one from each kind that was asked for.
pub proof fn law_each_kind_is_drawn_first(o: &GeneratorOptions, draws: &Vec<usize>, v: Vec<char>)
    requires
        call_ensures(draft_password, (o, draws), v),
        draws@.len() >= 4,
        crate::generator::fits(draws@, *o),
        o.use_lowercase && o.use_uppercase && o.use_numbers && o.use_symbols,
    ensures
        v@.len() == draws@.len(),
        small(v@[0]),
        capital(v@[1]),
        figure(v@[2]),
        symbol(v@[3]),
{
    crate::promises::generating::lemma_sets();
    let s = crate::generator::selected(*o);
    assert(s[0] == "abcdefghijkmnopqrstuvwxyz"@);
    assert(s[1] == "ABCDEFGHJKLMNPQRSTUVWXYZ"@);
    assert(s[2] == "23456789"@);
    assert(s[3] == "!@#$%^&*()_+-=[]{};:,.<>?"@);
    assert(s[0].contains(v@[0])) by {
        assert(v@[0] == s[0][draws@[0] as int]);
    }
    assert(s[1].contains(v@[1])) by {
        assert(v@[1] == s[1][draws@[1] as int]);
    }
    assert(s[2].contains(v@[2])) by {
        assert(v@[2] == s[2][draws@[2] as int]);
    }
    assert(s[3].contains(v@[3])) by {
        assert(v@[3] == s[3][draws@[3] as int]);
    }
}

/// A generator that is opened has the given options and shows a password of them.
pub proof fn law_opened_generator_shows_a_password(d: &mut GeneratorDialog, o: GeneratorOptions)
    requires
        call_ensures(open_generator, (d, o), ()),
    ensures
        final(d).options == o,
        final(d).words == old(d).words,
        final(d).passphrase_mode == old(d).passphrase_mode,
        o.use_lowercase && 4 <= o.length <= 256 ==> final(d).password@.len() == o.length,
{
    if o.use_lowercase {
        assert(crate::generator::selected(o).len() > 0);
    }
}

/// A form for the master password is empty when it is opened.
pub proof fn law_password_form_opens_empty(f: ChangePasswordForm)
    requires
        call_ensures(open_change_password, (), f),
    ensures
        f.current@.len() == 0 && f.new@.len() == 0 && f.confirm@.len() == 0 && f.error@.len() == 0,
        f.field == 0,
{
    let v = f@;
    assert(v.current == f.current@ && v.new == f.new@ && v.confirm == f.confirm@ && v.error
        == f.error@ && v.field == f.field);
}

/// An import of nothing succeeds and adds nothing; what is added is counted.
pub proof fn law_imports_are_counted(
    vault: &mut Vault,
    d: Vec<Draft>,
    key: &[u8; 32],
    now: &str,
    r: Result<usize, String>,
)
    requires
        call_ensures(import_drafts, (vault, d, key, now), r),
    ensures
        d@.len() == 0 ==> r == Ok::<usize, String>(0) && final(vault)@.secrets == old(vault)@.secrets,
        r matches Ok(n) ==> n == d@.len() && final(vault)@.secrets.len() == old(vault)@.secrets.len()
            + n,
        r is Err ==> final(vault)@ == old(vault)@,
{
    let e = crate::import::drafts(d@);
    assert(e.len() == d@.len());
    if d@.len() == 0 {
        if r is Err {
            let x = r->Err_0@;
            let ids = choose|ids: Seq<Seq<char>>|
                ids.len() == e.len() && (forall|i: int|
                    0 <= i < ids.len() ==> crate::db::identity::is_uuid_v4(#[trigger] ids[i]))
                    && #[trigger] crate::import::import_trouble(
                    old(vault)@,
                    e,
                    ids,
                    e.len() as int,
                ) == Some(x);
            assert(crate::import::import_trouble(old(vault)@, e, ids, 0) is None);
        }
        let n = old(vault)@.secrets.len() as int;
        assert(final(vault)@.secrets =~= final(vault)@.secrets.take(n));
    }
}

/// Restamping a record changes its time and nothing else.
pub proof fn law_restamping_changes_the_time(vault: &mut Vault, id: i64, now: &str, i: int)
    requires
        old(vault)@.wf(),
        call_ensures(restamp_record, (vault, id, now), ()),
        0 <= i < old(vault)@.secrets.len(),
    ensures
        final(vault)@.secrets.len() == old(vault)@.secrets.len(),
        else_untouched(final(vault)@, old(vault)@),
        old(vault)@.secrets[i].id == id ==> final(vault)@.secrets[i] == (RecordView {
            updated_at: now@,
            ..old(vault)@.secrets[i]
        }),
        old(vault)@.secrets[i].id != id ==> final(vault)@.secrets[i] == old(vault)@.secrets[i],
{
    lemma_found(old(vault)@.secrets, id as int, i);
}

/// What is asked before a deletion names what would go.
pub proof fn law_deletion_is_asked_about(n: usize, title: &str, a: String, b: String)
    requires
        call_ensures(ask_delete_marked, (n,), a),
        call_ensures(ask_delete_single, (title,), b),
    ensures
        a@ == "Are you sure you want to delete the "@ + decimal(n as nat)
            + " marked credentials? This cannot be undone."@,
        b@ == "Are you sure you want to delete '"@ + title@ + "'? This cannot be undone."@,
{
}

/// A lookup starts in an open vault, one at a time, and where there is something to look up; it
/// pauses between two questions that went online.
pub proof fn law_lookups_start_and_pause(
    unlocked: bool,
    running: bool,
    total: usize,
    a: bool,
    online: bool,
    i: usize,
    b: bool,
)
    requires
        call_ensures(lookup_starts, (unlocked, running, total), a),
        i < total,
        call_ensures(lookup_waits, (online, i, total), b),
    ensures
        a <==> unlocked && !running && total > 0,
        b ==> online,
        i + 1 == total ==> !b,
        online && i + 1 < total ==> b,
{
}

/// What the lists of conflicts and duplicates show of a record.
pub proof fn law_lists_name_their_record(
    c: &ConflictGroup,
    s: String,
    group: usize,
    count: usize,
    first: &SecretRecord,
    h: String,
    i: usize,
    selected: bool,
    d: String,
)
    requires
        c.wf(),
        call_ensures(conflict_row, (c,), s),
        group < count,
        call_ensures(duplicate_header, (group, count, first), h),
        i < usize::MAX,
        call_ensures(duplicate_row, (i, selected, first), d),
    ensures
        s@ == "  "@ + c.local_secret.category@ + " > "@ + c.local_secret.title@ + " ("@
            + c.local_secret.username@ + ")"@,
        h@ == " Duplicate Group "@ + decimal((group + 1) as nat) + " of "@ + decimal(count as nat)
            + "  |  Key: "@ + (if first.url@.len() > 0 {
            first.url@
        } else {
            first.title@
        }) + "  |  Username: "@ + first.username@,
        d@ == (if selected {
            "➔ "@
        } else {
            "  "@
        }) + "Entry #"@ + decimal((i + 1) as nat) + " - ["@ + first.category@ + "] (Modified: "@
            + first.updated_at@ + ")"@,
{
}

/// Severities and breaches are shown in words.
pub proof fn law_ratings_are_shown_in_words(s: Severity, t: &'static str, n: Option<u64>, b: String, l: &'static str)
    requires
        call_ensures(severity_word, (s,), t),
        call_ensures(breach_line, (n,), b),
        call_ensures(Severity::label, (&s,), l),
    ensures
        s == Severity::Critical ==> t@ == "CRITICAL"@ && l@ == "Critical"@,
        s == Severity::Weak ==> t@ == "WEAK"@ && l@ == "Weak"@,
        s == Severity::Good ==> t@ == "GOOD"@ && l@ == "Good"@,
        n is None ==> b@ == "Not checked (Press [h] to check online)"@,
        n == Some(0u64) ==> b@ == "✓ Clean (not found in breaches)"@,
        n matches Some(k) ==> (k > 0 ==> b@ == "✗ PWNED (found in "@ + decimal(k as nat) + " breaches)"@),
{
}

/// A lock screen says what it opens and of which profile.
pub proof fn law_lock_screen_names_the_profile(migrates: bool, profile: &Option<String>, s: String)
    requires
        call_ensures(lock_title, (migrates, profile), s),
    ensures
        !migrates && *profile is None ==> s@ == "KeyStash Password Vault"@,
        !migrates ==> (*profile matches Some(p) ==> s@ == "KeyStash Password Vault"@ + ("  [profile: "@
            + p@ + "]"@)),
        migrates ==> begins(
            s@,
            "KeyStash Password Vault (legacy vault -- will migrate to encrypted format)"@,
        ),
{
    if !migrates && *profile is None {
        assert("KeyStash Password Vault"@ + Seq::<char>::empty() =~= "KeyStash Password Vault"@);
    }
    if migrates {
        let p = "KeyStash Password Vault (legacy vault -- will migrate to encrypted format)"@;
        lemma_begins(s@, p, match *profile {
            Some(x) => "  [profile: "@ + x@ + "]"@,
            None => Seq::empty(),
        });
    }
}

/// The progress of a lookup is shown in numbers and as a bar of the given width.
pub proof fn law_progress_is_shown(
    checked: usize,
    total: usize,
    percent: usize,
    t: String,
    width: u16,
    b: String,
)
    requires
        call_ensures(progress_text, (checked, total, percent), t),
        percent <= 100,
        call_ensures(progress_bar, (percent, width), b),
    ensures
        t@ == "  Checked: "@ + decimal(checked as nat) + " / "@ + decimal(total as nat) + "  ("@
            + decimal(percent as nat) + "%)"@,
        percent == 100 ==> b@ == "  ["@ + Seq::new(width as nat, |i: int| '█') + Seq::<char>::empty()
            + "]"@,
        percent == 0 ==> b@ == "  ["@ + Seq::<char>::empty() + Seq::new(width as nat, |i: int| '░')
            + "]"@,
{
    assert(crate::forms::repeated('█', width as nat) =~= Seq::new(width as nat, |i: int| '█'));
    assert(crate::forms::repeated('░', width as nat) =~= Seq::new(width as nat, |i: int| '░'));
    assert(crate::forms::repeated('█', 0) =~= Seq::<char>::empty());
    assert(crate::forms::repeated('░', 0) =~= Seq::<char>::empty());
    let w = width as int;
    assert(w * 100 / 100 == w);
    if percent == 0 {
        assert(w * (percent as int) == 0) by (nonlinear_arith)
            requires
                percent == 0,
        ;
    }
}

/// What git has written is taken without white space at its ends, and a directory can be synced
/// where it is a repository.
pub proof fn law_git_output_is_trimmed(out: &[u8], s: String, dir: &Option<String>, git: bool, b: bool, text: Seq<char>)
    requires
        call_ensures(command_text, (out,), s),
        call_ensures(is_git_configured, (dir, git), b),
    ensures
        out@ == vstd::utf8::encode_utf8(text) ==> s@ == trimmed(text),
        b <==> *dir is Some && git,
{
    if out@ == vstd::utf8::encode_utf8(text) {
        lemma_text_round_trip(text);
    }
}

/// A payload is shown as the text it was made of, and as nothing where it does not open.
pub proof fn law_text_is_shown_as_stored(data: &[u8], key: &[u8; 32], s: String, text: Seq<char>)
    requires
        call_ensures(reveal_text, (data, key), s),
    ensures
        reads(data@, key@, text) ==> s@ == text,
        crate::crypto::opened(data@, key@) is Err ==> s@.len() == 0,
{
    lemma_text_round_trip(text);
}

/// A password is a run where each of its bytes is one above the one before, or each one below.
pub proof fn law_runs_are_sequential(s: &str, r: bool)
    requires
        call_ensures(is_sequential, (s,), r),
    ensures
        r <==> crate::promises::auditing::runs(vstd::utf8::encode_utf8(s@)),
{
}

/// A path below a directory has one separator between them.
pub proof fn law_paths_are_joined_with_one_separator(dir: &str, name: &str, s: String)
    requires
        call_ensures(join_path, (dir, name), s),
    ensures
        dir@.len() == 0 ==> s@ == name@,
        dir@.len() > 0 && dir@.last() == '/' ==> s@ == dir@ + name@,
        dir@.len() > 0 && dir@.last() != '/' ==> s@ == dir@ + seq!['/'] + name@,
{
    if dir@.len() == 0 {
        assert(dir@ + name@ =~= name@);
    }
}

/// The arguments behind a command are those from the third on.
pub proof fn law_arguments_follow_the_command(args: &Vec<String>, rest: Vec<String>, i: int)
    requires
        args@.len() >= 2,
        call_ensures(after_command, (args,), rest),
        0 <= i < rest@.len(),
    ensures
        rest@.len() == args@.len() - 2,
        rest@[i]@ == args@[i + 2]@,
{
    let a = texts(rest@);
    let b = texts(args@.skip(2));
    assert(a[i] == rest@[i]@);
    assert(b[i] == args@.skip(2)[i]@);
}

/// Deleting the last character of a text leaves the others; a mark is there or not; a digit is one
/// of ten; and an interrupted change is left on any of three keys.
pub proof fn law_small_decisions(
    s: &mut String,
    marked: &Vec<i64>,
    id: i64,
    m: bool,
    c: char,
    d: bool,
    code: crate::keys::KeyCode,
    q: bool,
)
    requires
        call_ensures(delete_last, (s,), ()),
        call_ensures(is_marked, (marked, id), m),
        call_ensures(is_digit, (c,), d),
        call_ensures(handle_interrupted_migration_input, (code,), q),
    ensures
        old(s)@.len() > 0 ==> final(s)@ == old(s)@.subrange(0, old(s)@.len() - 1),
        old(s)@.len() == 0 ==> final(s)@.len() == 0,
        m <==> exists|k: int| 0 <= k < marked@.len() && #[trigger] marked@[k] == id,
        d <==> '0' as int <= c as int <= '9' as int,
        q <==> code == crate::keys::KeyCode::Esc || code == crate::keys::KeyCode::Char('q') || code
            == crate::keys::KeyCode::Enter,
{
    if old(s)@.len() > 0 {
        assert(old(s)@.drop_last() =~= old(s)@.subrange(0, old(s)@.len() - 1));
    }
    if exists|k: int| 0 <= k < marked@.len() && #[trigger] marked@[k] == id {
        let k = choose|k: int| 0 <= k < marked@.len() && #[trigger] marked@[k] == id;
        assert(marked@[k] == id);
    }
}

/// A file is classified by its first kilobyte and by the heading of its table.
pub proof fn law_files_are_classified_by_their_start(
    data: &[u8],
    r: Result<ImportFormat, String>,
    head: &str,
    headers: &Option<Vec<String>>,
    c: Result<ImportFormat, String>,
)
    requires
        call_ensures(detect_format, (data,), r),
        data@.len() <= 1024 ==> head@ == crate::crypto::text_of(data@),
        data@.len() > 1024 ==> head@ == crate::crypto::text_of(data@.subrange(0, 1024)),
        match crate::csv_format::table_of(data@) {
            Ok(t) => headers matches Some(h) && texts(h@) == t.0,
            Err(_) => headers is None,
        },
        call_ensures(classify, (head, headers), c),
    ensures
        (r is Ok) == (c is Ok),
        r is Ok ==> r->Ok_0 == c->Ok_0,
        r is Err ==> r->Err_0@ == c->Err_0@,
{
    if data@.len() > 1024 {
        assert(data@.take(1024) =~= data@.subrange(0, 1024));
    }
}

/// As many rows of settings are shown as fit, at least one, and the row of the focus is among
/// them.
pub proof fn law_focused_row_is_shown(height: u16, field: usize, r: (usize, usize))
    requires
        field < 9,
        call_ensures(settings_grid_scroll, (height, field), r),
    ensures
        1 <= r.0 <= 5,
        r.1 <= field / 2 < r.1 + r.0,
        r.1 + r.0 <= 5,
        22 <= height ==> r == (5usize, 0usize),
        10 <= height < 22 ==> r.0 == (height - 7) / 3,
{
    crate::settings::law_focused_setting_is_shown(height as int, field as int);
}

/// The records that are deleted together are those with the given numbers.
pub proof fn law_records_are_deleted_together(vault: &mut Vault, ids: &Vec<i64>, now: &str, s: RecordView)
    requires
        old(vault)@.wf(),
        call_ensures(delete_records, (vault, ids, now), ()),
        old(vault)@.secrets.contains(s),
    ensures
        final(vault)@.secrets.contains(s) <==> !(exists|k: int|
            0 <= k < ids@.len() && #[trigger] ids@[k] == s.id),
{
    crate::promises::screens::lemma_without_many(old(vault)@, ids@, now@, s);
}

/// The title of a help that scrolls says where it is.
pub proof fn law_help_says_where_it_is(scroll: u16, most: u16, total: u16, s: String)
    requires
        call_ensures(help_title, (scroll, most, total), s),
    ensures
        most == 0 ==> s@ == " Help & Keybindings "@,
        most > 0 ==> s@ == " Help & Keybindings  ["@ + decimal((scroll + 1) as nat) + "/"@ + decimal(
            total as nat,
        ) + "] "@,
{
}

} // verus!
