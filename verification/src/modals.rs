//! The dialogs: confirmation, help, file paths, duplicates and sync conflicts.
use vstd::prelude::*;
use vstd::string::*;

use crate::conflicts::{groups, reveal_notes, reveal_text, shown, shown_opt, ConflictGroup, ConflictView};
use crate::crypto::{encrypt, opens_to, sealable, wipe_text};
use crate::db::records::{
    blob, lemma_records_push, records, RecordView, SecretRecord, Vault, VaultView,
};
use crate::db::store::{
    delete_secret, find_id, get_secret_by_id, get_secrets, is_sorting, is_updated, replaced,
    update_secret, update_secret_raw, without_record,
};
use crate::forms::key_opt;
use crate::import::ImportFormat;
use crate::keys::{delete_last, shortened, KeyCode};
use crate::lists::lemma_filter_step;
use crate::render::{less, other_than};
use crate::text::{decimal, decimal_text, trim_text, trimmed};

verus! {

/// What a confirmation is asked for.
#[derive(Debug, Clone, Copy, PartialEq, Eq, Structural)]
pub enum ConfirmAction {
    DeleteMarked,
    DeleteSingle { id: i64 },
}

/// What a key in a confirmation leads to.
#[derive(Debug, Clone, Copy, PartialEq, Eq, Structural)]
pub enum ConfirmOutcome {
    Stay,
    Confirmed,
    Cancelled,
}

/// The vault after the records with the given ids were deleted, one after the other.
pub open spec fn without_records(v: VaultView, ids: Seq<i64>, now: Seq<char>) -> VaultView
    decreases ids.len(),
{
    if ids.len() == 0 {
        v
    } else {
        without_record(without_records(v, ids.drop_last(), now), ids.last() as int, now)
    }
}

/// Whether a key confirms.
pub open spec fn confirms(code: KeyCode) -> bool {
    code == KeyCode::Char('y') || code == KeyCode::Enter
}

/// Whether a key declines.
pub open spec fn declines(code: KeyCode) -> bool {
    code == KeyCode::Char('n') || code == KeyCode::Esc || code == KeyCode::Char('q')
}

/// Deletes the records with the given ids, one after the other.
pub fn delete_records(vault: &mut Vault, ids: &Vec<i64>, now: &str)
    requires
        old(vault)@.wf(),
    ensures
        final(vault)@ == without_records(old(vault)@, ids@, now@),
        final(vault)@.wf(),
{
    let ghost start = vault@;
    let mut i: usize = 0;
    assert(ids@.take(0).len() == 0);
    while i < ids.len()
        invariant
            i <= ids@.len(),
            vault@.wf(),
            vault@ == without_records(start, ids@.take(i as int), now@),
        decreases ids@.len() - i,
    {
        assert(ids@.take(i + 1).drop_last() =~= ids@.take(i as int));
        assert(ids@.take(i + 1).last() == ids@[i as int]);
        delete_secret(vault, ids[i], now);
        i += 1;
    }
    assert(ids@.take(i as int) =~= ids@);
}

/// Handles a key in a confirmation: the records in question are deleted, and their marks go.
pub fn handle_confirmation_input(
    vault: &mut Vault,
    marked: &mut Vec<i64>,
    code: KeyCode,
    action: ConfirmAction,
    now: &str,
) -> (o: ConfirmOutcome)
    requires
        old(vault)@.wf(),
    ensures
        final(vault)@.wf(),
        o == (if confirms(code) {
            ConfirmOutcome::Confirmed
        } else if declines(code) {
            ConfirmOutcome::Cancelled
        } else {
            ConfirmOutcome::Stay
        }),
        !confirms(code) ==> *final(vault) == *old(vault) && final(marked)@ == old(marked)@,
        confirms(code) ==> match action {
            ConfirmAction::DeleteMarked => final(vault)@ == without_records(
                old(vault)@,
                old(marked)@,
                now@,
            ) && final(marked)@.len() == 0,
            ConfirmAction::DeleteSingle { id } => final(vault)@ == without_record(
                old(vault)@,
                id as int,
                now@,
            ) && final(marked)@ == old(marked)@.filter(other_than(id)),
        },
{
    match code {
        KeyCode::Char('y') | KeyCode::Enter => {
            match action {
                ConfirmAction::DeleteMarked => {
                    delete_records(vault, marked, now);
                    marked.clear();
                },
                ConfirmAction::DeleteSingle { id } => {
                    delete_secret(vault, id, now);
                    unmark(marked, id);
                },
            }
            ConfirmOutcome::Confirmed
        },
        KeyCode::Char('n') | KeyCode::Esc | KeyCode::Char('q') => ConfirmOutcome::Cancelled,
        _ => ConfirmOutcome::Stay,
    }
}

fn unmark(marked: &mut Vec<i64>, id: i64)
    ensures
        final(marked)@ == old(marked)@.filter(other_than(id)),
{
    let ghost all = marked@;
    let ghost p = other_than(id);
    let mut kept: Vec<i64> = Vec::new();
    let mut i: usize = 0;
    proof {
        reveal(Seq::filter);
        assert(kept@ =~= all.take(0).filter(p));
    }
    while i < marked.len()
        invariant
            i <= marked@.len(),
            all == marked@,
            p == other_than(id),
            kept@ == all.take(i as int).filter(p),
        decreases marked@.len() - i,
    {
        proof {
            lemma_filter_step(all, i as int, p);
        }
        if marked[i] != id {
            kept.push(marked[i]);
        }
        i += 1;
    }
    assert(all.take(i as int) =~= all);
    *marked = kept;
}

/// Whether a key closes the help.
pub open spec fn closes_help(code: KeyCode) -> bool {
    code == KeyCode::Esc || code == KeyCode::Enter || code == KeyCode::Char('h') || code
        == KeyCode::Char('?') || code == KeyCode::Char('q')
}

/// How far the help is scrolled after a key.
pub open spec fn help_scroll_after(scroll: u16, code: KeyCode) -> u16 {
    if closes_help(code) || code == KeyCode::Home {
        0
    } else if code == KeyCode::Up || code == KeyCode::Char('k') {
        if scroll < 1 {
            0
        } else {
            (scroll - 1) as u16
        }
    } else if code == KeyCode::Down || code == KeyCode::Char('j') {
        if scroll > 65534 {
            65535
        } else {
            (scroll + 1) as u16
        }
    } else if code == KeyCode::PageUp {
        if scroll < 5 {
            0
        } else {
            (scroll - 5) as u16
        }
    } else if code == KeyCode::PageDown {
        if scroll > 65530 {
            65535
        } else {
            (scroll + 5) as u16
        }
    } else {
        scroll
    }
}

/// Handles a key in the help: how far it is scrolled then, and whether it is closed.
pub fn handle_help_input(scroll: u16, code: KeyCode) -> (r: (u16, bool))
    ensures
        r.0 == help_scroll_after(scroll, code),
        r.1 == closes_help(code),
{
    match code {
        KeyCode::Esc
        | KeyCode::Enter
        | KeyCode::Char('h')
        | KeyCode::Char('?')
        | KeyCode::Char('q') => (0, true),
        KeyCode::Home => (0, false),
        KeyCode::Up | KeyCode::Char('k') => (scroll.saturating_sub(1), false),
        KeyCode::Down | KeyCode::Char('j') => (scroll.saturating_add(1), false),
        KeyCode::PageUp => (scroll.saturating_sub(5), false),
        KeyCode::PageDown => (scroll.saturating_add(5), false),
        _ => (scroll, false),
    }
}

/// How far a text of `lines` lines can be scrolled in a box of `height` rows, three of which are
/// its frame and a hint.
pub open spec fn most_scroll(lines: u16, height: u16) -> int {
    less(lines as int, less(height as int, 3))
}

/// How far a text is scrolled, which is no further than it can be, and how far that is.
pub fn visible_scroll(scroll: u16, lines: u16, height: u16) -> (r: (u16, u16))
    ensures
        r.1 == most_scroll(lines, height),
        r.0 == (if scroll < r.1 {
            scroll
        } else {
            r.1
        }),
{
    let inner: u16 = height.saturating_sub(3);
    let most: u16 = lines.saturating_sub(inner);
    (if scroll < most {
        scroll
    } else {
        most
    }, most)
}

/// What a key in a path dialog leads to.
#[derive(Debug)]
pub enum PathOutcome {
    Stay,
    /// Use the path.
    Submit { path: String },
    Close,
}

/// The path after a key.
pub open spec fn path_after(s: Seq<char>, code: KeyCode) -> Seq<char> {
    match code {
        KeyCode::Char(c) => s.push(c),
        KeyCode::Backspace => shortened(s),
        KeyCode::Esc => Seq::empty(),
        _ => s,
    }
}

/// Handles a key in the dialog for the file to import: white space at the ends of the path does
/// not count, and an empty path is not used.
pub fn handle_import_input(input: &mut String, code: KeyCode) -> (o: PathOutcome)
    ensures
        final(input)@ == path_after(old(input)@, code),
        match code {
            KeyCode::Esc => o is Close,
            KeyCode::Enter => if trimmed(old(input)@).len() == 0 {
                o is Stay
            } else {
                o matches PathOutcome::Submit { path } && path@ == trimmed(old(input)@)
            },
            _ => o is Stay,
        },
{
    match code {
        KeyCode::Char(c) => {
            input.push(c);
            PathOutcome::Stay
        },
        KeyCode::Backspace => {
            delete_last(input);
            PathOutcome::Stay
        },
        KeyCode::Esc => {
            input.clear();
            PathOutcome::Close
        },
        KeyCode::Enter => {
            let path = trim_text(input.as_str());
            if path.as_str().is_empty() {
                PathOutcome::Stay
            } else {
                PathOutcome::Submit { path }
            }
        },
        _ => PathOutcome::Stay,
    }
}

/// Handles a key in the dialog for the file to export to.
pub fn handle_export_input(input: &mut String, code: KeyCode) -> (o: PathOutcome)
    ensures
        final(input)@ == path_after(old(input)@, code),
        match code {
            KeyCode::Esc => o is Close,
            KeyCode::Enter => if trimmed(old(input)@).len() == 0 {
                o is Stay
            } else {
                o matches PathOutcome::Submit { path } && path@ == trimmed(old(input)@)
            },
            _ => o is Stay,
        },
{
    handle_import_input(input, code)
}

/// What a key in the dialog for the kind of export leads to.
#[derive(Debug, Clone, Copy, PartialEq, Eq, Structural)]
pub enum ExportChoice {
    Stay,
    /// Export all records.
    All,
    /// Export the marked records.
    Marked,
    Close,
}

/// Handles a key in the dialog for the kind of export; the marked records can be chosen only if
/// there are any.
pub fn handle_export_type_input(code: KeyCode, any_marked: bool) -> (o: ExportChoice)
    ensures
        o == (match code {
            KeyCode::Char(c) => if c == 'a' || c == 'A' {
                ExportChoice::All
            } else if (c == 's' || c == 'S') && any_marked {
                ExportChoice::Marked
            } else if c == 'q' {
                ExportChoice::Close
            } else {
                ExportChoice::Stay
            },
            KeyCode::Esc => ExportChoice::Close,
            _ => ExportChoice::Stay,
        }),
{
    match code {
        KeyCode::Char(c) => if c == 'a' || c == 'A' {
            ExportChoice::All
        } else if (c == 's' || c == 'S') && any_marked {
            ExportChoice::Marked
        } else if c == 'q' {
            ExportChoice::Close
        } else {
            ExportChoice::Stay
        },
        KeyCode::Esc => ExportChoice::Close,
        _ => ExportChoice::Stay,
    }
}

/// What the user is told after an import.
pub open spec fn import_text(count: nat, f: ImportFormat, skipped: nat) -> Seq<char> {
    "Success: Imported "@ + decimal(count) + " items from "@ + crate::import::format_name(f) + "!"@
        + (if skipped > 0 {
        " ("@ + decimal(skipped) + " non-login item(s) skipped)"@
    } else {
        Seq::empty()
    })
}

/// Words what the user is told after an import.
pub fn import_message(count: usize, f: ImportFormat, skipped: usize) -> (s: String)
    ensures
        s@ == import_text(count as nat, f, skipped as nat),
{
    let mut s = "Success: Imported ".to_owned();
    s.append(decimal_text(count as u64).as_str());
    s.append(" items from ");
    s.append(f.name());
    s.append("!");
    if skipped > 0 {
        let mut t = " (".to_owned();
        t.append(decimal_text(skipped as u64).as_str());
        t.append(" non-login item(s) skipped)");
        s.append(t.as_str());
    } else {
        assert(s@ + Seq::<char>::empty() =~= s@);
    }
    s
}

/// The share of a lookup that is done, in percent.
pub fn progress_percent(checked: usize, total: usize) -> (p: usize)
    requires
        checked <= total,
    ensures
        p == (if total > 0 {
            checked as int * 100 / (total as int)
        } else {
            0
        }),
{
    if total > 0 {
        proof {
            let c = checked as int;
            let t = total as int;
            assert(c * 100 / t <= 100) by (nonlinear_arith)
                requires
                    0 <= c <= t,
                    0 < t,
            ;
            assert(0 <= c * 100 / t) by (nonlinear_arith)
                requires
                    0 <= c,
                    0 < t,
            ;
        }
        ((checked as u128 * 100) / total as u128) as usize
    } else {
        0
    }
}

/// Whether two records are entries for the same login: the same user name, and the same title
/// or the same address.
pub open spec fn same_login(a: RecordView, b: RecordView) -> bool {
    a.username == b.username && (a.title == b.title || (a.url.len() > 0 && a.url == b.url))
}

/// Whether some record among the first `n` is an entry for the same login as `r`.
pub open spec fn has_twin(s: Seq<RecordView>, r: RecordView, n: int) -> bool {
    exists|k: int| 0 <= k < n && same_login(#[trigger] s[k], r)
}

/// The entries for the same login as `r`.
pub open spec fn twins(s: Seq<RecordView>, r: RecordView) -> Seq<RecordView> {
    s.filter(|x: RecordView| same_login(r, x))
}

/// The groups of entries for the same login that begin among the first `n` records.
pub open spec fn twin_groups(s: Seq<RecordView>, n: int) -> Seq<Seq<RecordView>>
    decreases n,
{
    if n <= 0 {
        Seq::empty()
    } else if !has_twin(s, s[n - 1], n - 1) && twins(s, s[n - 1]).len() > 1 {
        twin_groups(s, n - 1).push(twins(s, s[n - 1]))
    } else {
        twin_groups(s, n - 1)
    }
}

/// The views of a list of groups.
pub open spec fn group_views(v: Seq<Vec<SecretRecord>>) -> Seq<Seq<RecordView>> {
    Seq::new(v.len(), |i: int| records(v[i]@))
}

fn is_same_login(a: &SecretRecord, b: &SecretRecord) -> (r: bool)
    ensures
        r == same_login(a@, b@),
{
    a.username == b.username && (a.title == b.title || (!a.url.as_str().is_empty() && a.url
        == b.url))
}

fn find_twins(all: &Vec<SecretRecord>, r: &SecretRecord) -> (out: Vec<SecretRecord>)
    ensures
        records(out@) == twins(records(all@), r@),
{
    let mut out: Vec<SecretRecord> = Vec::new();
    let ghost s = records(all@);
    let ghost p = |x: RecordView| same_login(r@, x);
    let mut i: usize = 0;
    proof {
        reveal(Seq::filter);
        assert(records(out@) =~= s.take(0).filter(p));
    }
    while i < all.len()
        invariant
            i <= all@.len(),
            s == records(all@),
            p == (|x: RecordView| same_login(r@, x)),
            records(out@) == s.take(i as int).filter(p),
        decreases all@.len() - i,
    {
        proof {
            lemma_filter_step(s, i as int, p);
        }
        assert(s[i as int] == all@[i as int]@);
        if is_same_login(r, &all[i]) {
            let copy = all[i].clone();
            proof {
                lemma_records_push(out@, copy);
            }
            out.push(copy);
        }
        i += 1;
    }
    assert(s.take(i as int) =~= s);
    out
}

fn is_twin_before(all: &Vec<SecretRecord>, n: usize) -> (b: bool)
    requires
        n < all@.len(),
    ensures
        b == has_twin(records(all@), records(all@)[n as int], n as int),
{
    let ghost s = records(all@);
    let mut i: usize = 0;
    while i < n
        invariant
            i <= n < all@.len(),
            s == records(all@),
            forall|k: int| 0 <= k < i ==> !same_login(#[trigger] s[k], s[n as int]),
        decreases n - i,
    {
        assert(s[i as int] == all@[i as int]@);
        assert(s[n as int] == all@[n as int]@);
        if is_same_login(&all[i], &all[n]) {
            return true;
        }
        i += 1;
    }
    false
}

/// The groups of entries for the same login.
pub fn find_duplicate_groups(all: &Vec<SecretRecord>) -> (out: Vec<Vec<SecretRecord>>)
    ensures
        group_views(out@) == twin_groups(records(all@), all@.len() as int),
        forall|i: int| 0 <= i < out@.len() ==> (#[trigger] out@[i])@.len() > 1,
{
    let mut out: Vec<Vec<SecretRecord>> = Vec::new();
    let ghost s = records(all@);
    let mut i: usize = 0;
    assert(group_views(out@) =~= twin_groups(s, 0));
    while i < all.len()
        invariant
            i <= all@.len(),
            s == records(all@),
            group_views(out@) == twin_groups(s, i as int),
            forall|k: int| 0 <= k < out@.len() ==> (#[trigger] out@[k])@.len() > 1,
        decreases all@.len() - i,
    {
        assert(s[i as int] == all@[i as int]@);
        if !is_twin_before(all, i) {
            let g = find_twins(all, &all[i]);
            assert(g@.len() == records(g@).len());
            if g.len() > 1 {
                let ghost before = group_views(out@);
                out.push(g);
                assert(group_views(out@) =~= before.push(records(g@)));
            }
        }
        i += 1;
    }
    out
}

/// The screen on which duplicates are resolved.
#[derive(Debug)]
pub struct DuplicateScreen {
    pub groups: Vec<Vec<SecretRecord>>,
    pub group: usize,
    pub item: usize,
}

impl DuplicateScreen {
    /// The selection is within the groups, none of which is empty.
    pub open spec fn wf(self) -> bool {
        &&& forall|i: int| 0 <= i < self.groups@.len() ==> (#[trigger] self.groups@[i])@.len() > 1
        &&& self.groups@.len() > 0 ==> self.group < self.groups@.len() && self.item
            < self.groups@[self.group as int]@.len()
    }
}

/// What a key on the duplicates screen leads to.
#[derive(Debug, Clone, Copy, PartialEq, Eq, Structural)]
pub enum DuplicateOutcome {
    Stay,
    /// A group was resolved: the vault has changed.
    Resolved,
    /// A group was resolved, and none is left.
    ResolvedLast,
    Close,
}

/// The ids of a group other than the given one.
pub open spec fn other_ids(g: Seq<RecordView>, keep: int) -> Seq<i64>
    decreases g.len(),
{
    if g.len() == 0 {
        Seq::empty()
    } else if g.last().id != keep {
        other_ids(g.drop_last(), keep).push(g.last().id as i64)
    } else {
        other_ids(g.drop_last(), keep)
    }
}

/// The vault with a record changed at `now`, and nothing else of it: so that no older copy on
/// another device wins over it.
pub open spec fn restamped(v: VaultView, id: int, now: Seq<char>) -> VaultView {
    match find_id(v.secrets, id) {
        Some(r) => VaultView {
            secrets: replaced(v.secrets, id, RecordView { updated_at: now, ..r }),
            ..v
        },
        None => v,
    }
}

/// Gives a record a new change time.
pub fn restamp_record(vault: &mut Vault, id: i64, now: &str)
    requires
        old(vault)@.wf(),
    ensures
        final(vault)@ == restamped(old(vault)@, id as int, now@),
        final(vault)@.wf(),
{
    let ghost v = vault@;
    match get_secret_by_id(vault, id) {
        Some(r) => {
            update_secret_raw(
                vault,
                id,
                r.title.as_str(),
                r.category.as_str(),
                r.username.as_str(),
                r.url.as_str(),
                r.encrypted_password.as_slice(),
                &r.encrypted_notes,
                now,
            );
            assert(vault@.secrets =~= restamped(v, id as int, now@).secrets);
        },
        None => {},
    }
}

fn ids_besides(g: &Vec<SecretRecord>, keep: i64) -> (ids: Vec<i64>)
    ensures
        ids@ == other_ids(records(g@), keep as int),
{
    let mut ids: Vec<i64> = Vec::new();
    let ghost s = records(g@);
    let mut i: usize = 0;
    assert(s.take(0).len() == 0);
    while i < g.len()
        invariant
            i <= g@.len(),
            s == records(g@),
            ids@ == other_ids(s.take(i as int), keep as int),
        decreases g@.len() - i,
    {
        assert(s.take(i + 1).drop_last() =~= s.take(i as int));
        assert(s.take(i + 1).last() == g@[i as int]@);
        if g[i].id != keep {
            ids.push(g[i].id);
        }
        i += 1;
    }
    assert(s.take(i as int) =~= s);
    ids
}

/// The notes of a group in one text: those of the record that is kept, then those of the first
/// `n` others that have any, set off and introduced.
pub open spec fn joined_notes(g: Seq<RecordView>, keep: int, key: Seq<u8>, n: int) -> Seq<char>
    decreases n,
{
    if n <= 0 {
        shown_opt(g[keep].notes, key)
    } else {
        let before = joined_notes(g, keep, key, n - 1);
        let note = shown_opt(g[n - 1].notes, key);
        if n - 1 == keep || note.len() == 0 {
            before
        } else {
            (if before.len() > 0 {
                before + "\n---\n"@
            } else {
                before
            }) + ("Merged from duplicate: "@ + note)
        }
    }
}

fn join_notes(g: &Vec<SecretRecord>, keep: usize, key: &[u8; 32]) -> (s: String)
    requires
        keep < g@.len(),
    ensures
        s@ == joined_notes(records(g@), keep as int, key@, g@.len() as int),
{
    let ghost v = records(g@);
    assert(v[keep as int] == g@[keep as int]@);
    let mut s = reveal_notes(&g[keep].encrypted_notes, key);
    let mut i: usize = 0;
    while i < g.len()
        invariant
            i <= g@.len(),
            v == records(g@),
            s@ == joined_notes(v, keep as int, key@, i as int),
        decreases g@.len() - i,
    {
        assert(v[i as int] == g@[i as int]@);
        if i != keep {
            let mut note = reveal_notes(&g[i].encrypted_notes, key);
            if !note.as_str().is_empty() {
                if !s.as_str().is_empty() {
                    s.append("\n---\n");
                }
                let mut t = "Merged from duplicate: ".to_owned();
                t.append(note.as_str());
                s.append(t.as_str());
                wipe_text(&mut t);
            }
            wipe_text(&mut note);
        }
        i += 1;
    }
    s
}

/// A text, or nothing where it is empty.
pub open spec fn nonempty(s: Seq<char>) -> Option<Seq<char>> {
    if s.len() == 0 {
        None
    } else {
        Some(s)
    }
}

/// Whether `m` is the vault after the kept record got the notes of its whole group; it is
/// unchanged without a key, or where the notes are too large.
pub open spec fn notes_joined(
    m: VaultView,
    v: VaultView,
    g: Seq<RecordView>,
    keep: int,
    key: Option<Seq<u8>>,
    now: Seq<char>,
    cap: nat,
) -> bool {
    match key {
        None => m == v,
        Some(k) => {
            let notes = nonempty(joined_notes(g, keep, k, g.len() as int));
            let pw = shown(g[keep].password, k);
            ||| is_updated(
                m,
                v,
                g[keep].id,
                g[keep].title,
                g[keep].category,
                g[keep].username,
                g[keep].url,
                pw,
                notes,
                k,
                now,
                cap,
            )
            ||| m == v && !crate::db::store::storable(pw, notes)
        },
    }
}

/// The vault after all records of a group but one were deleted, and that one got a new change
/// time.
pub open spec fn kept_one(v: VaultView, g: Seq<RecordView>, keep: int, now: Seq<char>) -> VaultView {
    restamped(without_records(v, other_ids(g, g[keep].id), now), g[keep].id, now)
}

/// Keeps one record of a group and deletes the others.
pub fn keep_one(vault: &mut Vault, g: &Vec<SecretRecord>, keep: usize, now: &str)
    requires
        old(vault)@.wf(),
        keep < g@.len(),
    ensures
        final(vault)@ == kept_one(old(vault)@, records(g@), keep as int, now@),
        final(vault)@.wf(),
{
    let id: i64 = g[keep].id;
    assert(records(g@)[keep as int] == g@[keep as int]@);
    let ids = ids_besides(g, id);
    delete_records(vault, &ids, now);
    restamp_record(vault, id, now);
}

/// Gives the kept record the notes of its whole group.
pub fn merge_notes(
    vault: &mut Vault,
    g: &Vec<SecretRecord>,
    keep: usize,
    key: &Option<[u8; 32]>,
    now: &str,
    cap: usize,
)
    requires
        old(vault)@.wf(),
        keep < g@.len(),
    ensures
        notes_joined(
            final(vault)@,
            old(vault)@,
            records(g@),
            keep as int,
            key_opt(*key),
            now@,
            cap as nat,
        ),
        final(vault)@.wf(),
{
    assert(records(g@)[keep as int] == g@[keep as int]@);
    assert(records(g@).len() == g@.len());
    match key {
        None => {},
        Some(k) => {
            let r = &g[keep];
            let mut notes = join_notes(g, keep, k);
            let mut pw = reveal_text(r.encrypted_password.as_slice(), k);
            let opt: Option<&str> = if notes.as_str().is_empty() {
                None
            } else {
                Some(notes.as_str())
            };
            assert(crate::db::store::notes_text(opt) == nonempty(notes@));
            let _ = update_secret(
                vault,
                r.id,
                r.title.as_str(),
                r.category.as_str(),
                r.username.as_str(),
                r.url.as_str(),
                pw.as_str(),
                opt,
                k,
                now,
                cap,
            );
            wipe_text(&mut notes);
            wipe_text(&mut pw);
        },
    }
}

/// Whether the screen shows the duplicates in a vault, and of them the given group or else the
/// last one.
pub open spec fn shows_duplicates(s: DuplicateScreen, v: VaultView, group: int) -> bool {
    &&& exists|sorted: Seq<RecordView>| #[trigger]
        is_sorting(sorted, v.secrets) && group_views(s.groups@) == twin_groups(
            sorted,
            sorted.len() as int,
        )
    &&& s.groups@.len() > 0 ==> s.item == 0 && s.group == (if group < s.groups@.len() {
        group
    } else {
        s.groups@.len() - 1
    })
}

impl DuplicateScreen {
    /// Looks for duplicates anew; the selected group stays in range.
    fn refresh(&mut self, vault: &Vault) -> (left: bool)
        ensures
            final(self).wf(),
            left == (final(self).groups@.len() > 0),
            shows_duplicates(*final(self), vault@, old(self).group as int),
    {
        let all = get_secrets(vault);
        assert(is_sorting(records(all@), vault@.secrets));
        assert(records(all@).len() == all@.len());
        self.groups = find_duplicate_groups(&all);
        if self.groups.len() == 0 {
            return false;
        }
        if self.group >= self.groups.len() {
            self.group = self.groups.len() - 1;
        }
        self.item = 0;
        true
    }
}

/// Whether a key resolves the selected group.
pub open spec fn resolves(code: KeyCode) -> bool {
    code == KeyCode::Enter || code == KeyCode::Char('m')
}

/// Where a key moves the selection on the duplicates screen: group and item.
pub open spec fn duplicate_move(s: DuplicateScreen, code: KeyCode) -> (int, int) {
    let g = s.group as int;
    let i = s.item as int;
    if code == KeyCode::Up || code == KeyCode::Char('k') {
        (g, less(i, 1))
    } else if code == KeyCode::Down || code == KeyCode::Char('j') {
        (g, if i + 1 < s.groups@[g]@.len() {
            i + 1
        } else {
            i
        })
    } else if (code == KeyCode::Right || code == KeyCode::Char('n')) && g + 1 < s.groups@.len() {
        (g + 1, 0)
    } else if (code == KeyCode::Left || code == KeyCode::Char('p')) && g > 0 {
        (g - 1, 0)
    } else {
        (g, i)
    }
}

/// Handles a key on the duplicates screen. Resolving a group keeps the selected record and
/// deletes the others; `m` first adds their notes to its own.
pub fn handle_deduplicate_input(
    s: &mut DuplicateScreen,
    vault: &mut Vault,
    key: &Option<[u8; 32]>,
    code: KeyCode,
    now: &str,
    cap: usize,
) -> (o: DuplicateOutcome)
    requires
        old(s).wf(),
        old(vault)@.wf(),
    ensures
        final(s).wf(),
        final(vault)@.wf(),
        old(s).groups@.len() == 0 ==> o == DuplicateOutcome::Close && *final(vault) == *old(vault),
        old(s).groups@.len() > 0 && !resolves(code) ==> {
            &&& *final(vault) == *old(vault)
            &&& final(s).groups@ == old(s).groups@
            &&& (final(s).group as int, final(s).item as int) == duplicate_move(*old(s), code)
            &&& o == (if code == KeyCode::Esc || code == KeyCode::Char('q') {
                DuplicateOutcome::Close
            } else {
                DuplicateOutcome::Stay
            })
        },
        old(s).groups@.len() > 0 && code == KeyCode::Enter ==> final(vault)@ == kept_one(
            old(vault)@,
            records(old(s).groups@[old(s).group as int]@),
            old(s).item as int,
            now@,
        ),
        old(s).groups@.len() > 0 && code == KeyCode::Char('m') ==> exists|m: VaultView| #[trigger]
            notes_joined(
                m,
                old(vault)@,
                records(old(s).groups@[old(s).group as int]@),
                old(s).item as int,
                key_opt(*key),
                now@,
                cap as nat,
            ) && final(vault)@ == kept_one(
                m,
                records(old(s).groups@[old(s).group as int]@),
                old(s).item as int,
                now@,
            ),
        old(s).groups@.len() > 0 && resolves(code) ==> shows_duplicates(
            *final(s),
            final(vault)@,
            old(s).group as int,
        ) && o == (if final(s).groups@.len() > 0 {
            DuplicateOutcome::Resolved
        } else {
            DuplicateOutcome::ResolvedLast
        }),
{
    if s.groups.len() == 0 {
        return DuplicateOutcome::Close;
    }
    let count: usize = s.groups.len();
    let items: usize = s.groups[s.group].len();
    match code {
        KeyCode::Esc | KeyCode::Char('q') => DuplicateOutcome::Close,
        KeyCode::Up | KeyCode::Char('k') => {
            if s.item > 0 {
                s.item = s.item - 1;
            }
            DuplicateOutcome::Stay
        },
        KeyCode::Down | KeyCode::Char('j') => {
            if s.item < items - 1 {
                s.item = s.item + 1;
            }
            DuplicateOutcome::Stay
        },
        KeyCode::Right | KeyCode::Char('n') => {
            if s.group < count - 1 {
                s.group = s.group + 1;
                s.item = 0;
                assert(s.groups@[s.group as int]@.len() > 1);
            }
            DuplicateOutcome::Stay
        },
        KeyCode::Left | KeyCode::Char('p') => {
            if s.group > 0 {
                s.group = s.group - 1;
                s.item = 0;
                assert(s.groups@[s.group as int]@.len() > 1);
            }
            DuplicateOutcome::Stay
        },
        KeyCode::Enter => {
            keep_one(vault, &s.groups[s.group], s.item, now);
            if s.refresh(vault) {
                DuplicateOutcome::Resolved
            } else {
                DuplicateOutcome::ResolvedLast
            }
        },
        KeyCode::Char('m') => {
            merge_notes(vault, &s.groups[s.group], s.item, key, now, cap);
            let ghost m = vault@;
            keep_one(vault, &s.groups[s.group], s.item, now);
            assert(notes_joined(
                m,
                old(vault)@,
                records(old(s).groups@[old(s).group as int]@),
                old(s).item as int,
                key_opt(*key),
                now@,
                cap as nat,
            ));
            if s.refresh(vault) {
                DuplicateOutcome::Resolved
            } else {
                DuplicateOutcome::ResolvedLast
            }
        },
        _ => DuplicateOutcome::Stay,
    }
}

/// The screen on which sync conflicts are resolved.
#[derive(Debug)]
pub struct ConflictScreen {
    pub conflicts: Vec<ConflictGroup>,
    pub selected: usize,
}

impl ConflictScreen {
    /// The selection is within the conflicts.
    pub open spec fn wf(self) -> bool {
        self.conflicts@.len() > 0 ==> self.selected < self.conflicts@.len()
    }
}

/// What a key on the conflicts screen leads to.
#[derive(Debug, Clone, Copy, PartialEq, Eq, Structural)]
pub enum ConflictOutcome {
    Stay,
    /// A conflict was resolved; others are left.
    Resolved,
    /// The last conflict was resolved: sync again.
    ResolvedAll,
    /// The conflicts were put off.
    Postponed,
    Close,
}

/// How a conflict is resolved.
#[derive(Debug, Clone, Copy, PartialEq, Eq, Structural)]
pub enum Choice {
    KeepLocal,
    KeepRemote,
    /// Keep the local version with the notes of both.
    MergeNotes,
}

/// The choice that a key makes.
pub open spec fn choice_of(code: KeyCode) -> Option<Choice> {
    if code == KeyCode::Char('l') || code == KeyCode::Left {
        Some(Choice::KeepLocal)
    } else if code == KeyCode::Char('r') || code == KeyCode::Right {
        Some(Choice::KeepRemote)
    } else if code == KeyCode::Char('m') {
        Some(Choice::MergeNotes)
    } else {
        None
    }
}

/// The notes of both versions: one of them where the other is empty.
pub open spec fn both_notes(local: Seq<char>, remote: Seq<char>) -> Seq<char> {
    if local.len() == 0 {
        remote
    } else if remote.len() == 0 {
        local
    } else {
        local + "\n---\n"@ + remote
    }
}

/// Whether stored notes read as the given text; empty notes are not stored, nor are some that
/// encryption does not take.
pub open spec fn stored_as(stored: Option<Seq<u8>>, text: Seq<char>, key: Seq<u8>) -> bool {
    let bytes = vstd::utf8::encode_utf8(text);
    if text.len() == 0 {
        stored is None
    } else {
        match stored {
            Some(d) => opens_to(d, key, bytes),
            None => !sealable(bytes),
        }
    }
}

/// The vault with the local record holding what `r` does, changed at `now`.
pub open spec fn settled_with(v: VaultView, local: RecordView, r: RecordView, now: Seq<char>) -> VaultView {
    VaultView {
        secrets: replaced(v.secrets, local.id, RecordView { updated_at: now, ..r }),
        ..v
    }
}

/// Whether `new` is the vault with the local version of a record, holding the notes of both.
pub open spec fn notes_merged(
    new: VaultView,
    v: VaultView,
    c: ConflictView,
    key: Seq<u8>,
    now: Seq<char>,
) -> bool {
    exists|notes: Option<Seq<u8>>| #[trigger]
        stored_as(
            notes,
            both_notes(shown_opt(c.local.notes, key), shown_opt(c.remote.notes, key)),
            key,
        ) && new == settled_with(v, c.local, RecordView { notes, ..c.local }, now)
}

/// Whether `new` is the vault after a conflict was resolved. What is kept is changed at `now`,
/// so that it is newer than either version.
pub open spec fn resolved_as(
    new: VaultView,
    v: VaultView,
    c: ConflictView,
    choice: Choice,
    key: Option<Seq<u8>>,
    now: Seq<char>,
) -> bool {
    match choice {
        Choice::KeepLocal => new == settled_with(v, c.local, c.local, now),
        Choice::KeepRemote => new == settled_with(v, c.local, c.remote, now),
        Choice::MergeNotes => match key {
            None => new == v,
            Some(k) => notes_merged(new, v, c, k, now),
        },
    }
}

fn write_version(vault: &mut Vault, id: i64, r: &SecretRecord, notes: &Option<Vec<u8>>, now: &str)
    requires
        old(vault)@.wf(),
    ensures
        final(vault)@ == (VaultView {
            secrets: replaced(
                old(vault)@.secrets,
                id as int,
                RecordView { updated_at: now@, notes: blob(*notes), ..r@ },
            ),
            ..old(vault)@
        }),
        final(vault)@.wf(),
{
    let ghost v = vault@;
    update_secret_raw(
        vault,
        id,
        r.title.as_str(),
        r.category.as_str(),
        r.username.as_str(),
        r.url.as_str(),
        r.encrypted_password.as_slice(),
        notes,
        now,
    );
    assert(vault@.secrets =~= replaced(
        v.secrets,
        id as int,
        RecordView { updated_at: now@, notes: blob(*notes), ..r@ },
    ));
}

/// Resolves a conflict.
pub fn resolve_conflict(
    vault: &mut Vault,
    c: &ConflictGroup,
    choice: Choice,
    key: &Option<[u8; 32]>,
    now: &str,
)
    requires
        old(vault)@.wf(),
    ensures
        resolved_as(final(vault)@, old(vault)@, c@, choice, key_opt(*key), now@),
        final(vault)@.wf(),
{
    let ghost v = vault@;
    let id: i64 = c.local_secret.id;
    match choice {
        Choice::KeepLocal => {
            write_version(vault, id, &c.local_secret, &c.local_secret.encrypted_notes, now);
            assert(vault@ == settled_with(v, c@.local, c@.local, now@));
        },
        Choice::KeepRemote => {
            write_version(vault, id, &c.remote_secret, &c.remote_secret.encrypted_notes, now);
            assert(vault@ == settled_with(v, c@.local, c@.remote, now@));
        },
        Choice::MergeNotes => match key {
            None => {},
            Some(k) => {
                let mut a = reveal_notes(&c.local_secret.encrypted_notes, k);
                let mut b = reveal_notes(&c.remote_secret.encrypted_notes, k);
                let mut text = if a.as_str().is_empty() {
                    b.clone()
                } else if b.as_str().is_empty() {
                    a.clone()
                } else {
                    let mut t = a.clone();
                    t.append("\n---\n");
                    t.append(b.as_str());
                    t
                };
                let notes = if text.as_str().is_empty() {
                    None
                } else {
                    match encrypt(text.as_str().as_bytes(), k) {
                        Ok(d) => Some(d),
                        Err(_) => None,
                    }
                };
                assert(stored_as(
                    blob(notes),
                    both_notes(shown_opt(c@.local.notes, k@), shown_opt(c@.remote.notes, k@)),
                    k@,
                ));
                wipe_text(&mut a);
                wipe_text(&mut b);
                wipe_text(&mut text);
                write_version(vault, id, &c.local_secret, &notes, now);
                assert(vault@ == settled_with(
                    v,
                    c@.local,
                    RecordView { notes: blob(notes), ..c@.local },
                    now@,
                ));
                assert(notes_merged(vault@, v, c@, k@, now@));
            },
        },
    }
}

fn choose_by(code: KeyCode) -> (c: Option<Choice>)
    ensures
        c == choice_of(code),
{
    match code {
        KeyCode::Char('l') | KeyCode::Left => Some(Choice::KeepLocal),
        KeyCode::Char('r') | KeyCode::Right => Some(Choice::KeepRemote),
        KeyCode::Char('m') => Some(Choice::MergeNotes),
        _ => None,
    }
}

/// Handles a key on the conflicts screen.
pub fn handle_sync_conflict_input(
    s: &mut ConflictScreen,
    vault: &mut Vault,
    key: &Option<[u8; 32]>,
    code: KeyCode,
    now: &str,
) -> (o: ConflictOutcome)
    requires
        old(s).wf(),
        old(vault)@.wf(),
    ensures
        final(s).wf(),
        final(vault)@.wf(),
        old(s).conflicts@.len() == 0 ==> o == ConflictOutcome::Close && *final(vault) == *old(vault),
        old(s).conflicts@.len() > 0 && choice_of(code) is Some ==> {
            &&& resolved_as(
                final(vault)@,
                old(vault)@,
                old(s).conflicts@[old(s).selected as int]@,
                choice_of(code)->0,
                key_opt(*key),
                now@,
            )
            &&& final(s).conflicts@ == old(s).conflicts@.remove(old(s).selected as int)
            &&& final(s).conflicts@.len() > 0 ==> final(s).selected == (if old(s).selected
                < final(s).conflicts@.len() {
                old(s).selected as int
            } else {
                final(s).conflicts@.len() - 1
            })
            &&& o == (if old(s).conflicts@.len() == 1 {
                ConflictOutcome::ResolvedAll
            } else {
                ConflictOutcome::Resolved
            })
        },
        old(s).conflicts@.len() > 0 && choice_of(code) is None ==> {
            &&& *final(vault) == *old(vault)
            &&& o == (if code == KeyCode::Esc || code == KeyCode::Char('q') {
                ConflictOutcome::Postponed
            } else {
                ConflictOutcome::Stay
            })
            &&& o == ConflictOutcome::Postponed ==> final(s).conflicts@.len() == 0
            &&& o == ConflictOutcome::Stay ==> final(s).conflicts@ == old(s).conflicts@
                && final(s).selected as int == (if code == KeyCode::Up {
                less(old(s).selected as int, 1)
            } else if code == KeyCode::Down && old(s).selected + 1 < old(s).conflicts@.len() {
                old(s).selected + 1
            } else {
                old(s).selected as int
            })
        },
{
    let count: usize = s.conflicts.len();
    if count == 0 {
        return ConflictOutcome::Close;
    }
    match choose_by(code) {
        Some(choice) => {
            let c = s.conflicts.remove(s.selected);
            resolve_conflict(vault, &c, choice, key, now);
            let left: usize = s.conflicts.len();
            if left == 0 {
                ConflictOutcome::ResolvedAll
            } else {
                if s.selected >= left {
                    s.selected = left - 1;
                }
                ConflictOutcome::Resolved
            }
        },
        None => match code {
            KeyCode::Up => {
                if s.selected > 0 {
                    s.selected = s.selected - 1;
                }
                ConflictOutcome::Stay
            },
            KeyCode::Down => {
                if s.selected < count - 1 {
                    s.selected = s.selected + 1;
                }
                ConflictOutcome::Stay
            },
            KeyCode::Esc | KeyCode::Char('q') => {
                s.conflicts.clear();
                ConflictOutcome::Postponed
            },
            _ => ConflictOutcome::Stay,
        },
    }
}

} // verus!
