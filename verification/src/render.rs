//! The dashboard, and the screens before it.
use vstd::prelude::*;
use vstd::string::*;
use vstd::utf8::encode_utf8;

use crate::crypto::{fingerprint_of, hibp_cache_fingerprint, wipe_text};
use crate::db::records::{
    checks, lemma_records_push, records, HibpCheck, HibpView, RecordView, SecretRecord,
};
use crate::db::store::{cached, cached_count};
use crate::db::tags::{split_tags, tags_of};
use crate::forms::{read_password, readable_password};
use crate::keys::{delete_last, shortened, KeyCode};
use crate::lists::{lemma_filter_members, lemma_filter_step};
use crate::text::{decimal, decimal_text, lower, string_of, texts};

verus! {

/// The screen that a master password is entered on.
#[derive(Debug)]
pub struct LockForm {
    pub password: String,
    pub error: String,
}

/// What a key on the lock or set-up screen leads to.
#[derive(Debug, Clone, Copy, PartialEq, Eq, Structural)]
pub enum EntryOutcome {
    Stay,
    /// Use what was entered.
    Submit,
    Quit,
}

/// Handles a key on the lock screen.
pub fn handle_lock_input(f: &mut LockForm, code: KeyCode) -> (o: EntryOutcome)
    ensures
        final(f).password@ == (match code {
            KeyCode::Char(c) => old(f).password@.push(c),
            KeyCode::Backspace => shortened(old(f).password@),
            _ => old(f).password@,
        }),
        final(f).error@ == (if code == KeyCode::Enter {
            Seq::empty()
        } else {
            old(f).error@
        }),
        o == (match code {
            KeyCode::Enter => EntryOutcome::Submit,
            KeyCode::Esc => EntryOutcome::Quit,
            _ => EntryOutcome::Stay,
        }),
{
    match code {
        KeyCode::Char(c) => {
            f.password.push(c);
            EntryOutcome::Stay
        },
        KeyCode::Backspace => {
            delete_last(&mut f.password);
            EntryOutcome::Stay
        },
        KeyCode::Enter => {
            f.error.clear();
            EntryOutcome::Submit
        },
        KeyCode::Esc => EntryOutcome::Quit,
        _ => EntryOutcome::Stay,
    }
}

/// Takes note of an attempt to unlock: the password is wiped either way, and the error shown if
/// there is one. Returns whether the vault is open.
pub fn perform_unlock(f: &mut LockForm, outcome: &Result<(), String>) -> (open: bool)
    ensures
        open == (*outcome is Ok),
        final(f).password@.len() == 0,
        final(f).error@ == (match *outcome {
            Ok(_) => old(f).error@,
            Err(e) => e@,
        }),
{
    wipe_text(&mut f.password);
    match outcome {
        Ok(_) => true,
        Err(e) => {
            f.error = e.clone();
            false
        },
    }
}

/// The screen that a first master password is chosen on.
#[derive(Debug)]
pub struct SetupForm {
    pub password: String,
    pub confirm: String,
    /// Whether the focus is on the confirmation.
    pub on_confirm: bool,
    pub error: String,
}

/// What the set-up screen holds.
pub struct SetupView {
    pub password: Seq<char>,
    pub confirm: Seq<char>,
    pub on_confirm: bool,
    pub error: Seq<char>,
}

impl View for SetupForm {
    type V = SetupView;

    open spec fn view(&self) -> SetupView {
        SetupView {
            password: self.password@,
            confirm: self.confirm@,
            on_confirm: self.on_confirm,
            error: self.error@,
        }
    }
}

/// What keeps the entries from being used, if anything does.
pub open spec fn setup_error(f: SetupView) -> Option<Seq<char>> {
    if f.password.len() == 0 {
        Some("Password cannot be empty!"@)
    } else if f.password != f.confirm {
        Some("Passwords do not match!"@)
    } else {
        None
    }
}

/// The set-up screen after a key.
pub open spec fn setup_after(f: SetupView, code: KeyCode) -> SetupView {
    match code {
        KeyCode::Tab | KeyCode::BackTab => SetupView { on_confirm: !f.on_confirm, ..f },
        KeyCode::Char(c) => if f.on_confirm {
            SetupView { confirm: f.confirm.push(c), ..f }
        } else {
            SetupView { password: f.password.push(c), ..f }
        },
        KeyCode::Backspace => if f.on_confirm {
            SetupView { confirm: shortened(f.confirm), ..f }
        } else {
            SetupView { password: shortened(f.password), ..f }
        },
        KeyCode::Enter => SetupView {
            error: match setup_error(f) {
                Some(e) => e,
                None => Seq::empty(),
            },
            ..f
        },
        _ => f,
    }
}

/// Handles a key on the set-up screen.
pub fn handle_setup_input(f: &mut SetupForm, code: KeyCode) -> (o: EntryOutcome)
    ensures
        final(f)@ == setup_after(old(f)@, code),
        o == (match code {
            KeyCode::Enter => if setup_error(old(f)@) is None {
                EntryOutcome::Submit
            } else {
                EntryOutcome::Stay
            },
            KeyCode::Esc => EntryOutcome::Quit,
            _ => EntryOutcome::Stay,
        }),
{
    match code {
        KeyCode::Tab | KeyCode::BackTab => {
            f.on_confirm = !f.on_confirm;
            EntryOutcome::Stay
        },
        KeyCode::Char(c) => {
            if f.on_confirm {
                f.confirm.push(c);
            } else {
                f.password.push(c);
            }
            EntryOutcome::Stay
        },
        KeyCode::Backspace => {
            if f.on_confirm {
                delete_last(&mut f.confirm);
            } else {
                delete_last(&mut f.password);
            }
            EntryOutcome::Stay
        },
        KeyCode::Enter => {
            if f.password.as_str().is_empty() {
                f.error = "Password cannot be empty!".to_owned();
                EntryOutcome::Stay
            } else if f.password != f.confirm {
                f.error = "Passwords do not match!".to_owned();
                EntryOutcome::Stay
            } else {
                f.error.clear();
                EntryOutcome::Submit
            }
        },
        KeyCode::Esc => EntryOutcome::Quit,
        _ => EntryOutcome::Stay,
    }
}

/// Takes note of an attempt to create a vault: on success the entries are wiped, otherwise the
/// error is shown. Returns whether the vault is open.
pub fn perform_setup(f: &mut SetupForm, outcome: &Result<(), String>) -> (open: bool)
    ensures
        open == (*outcome is Ok),
        final(f)@ == (match *outcome {
            Ok(_) => SetupView {
                password: Seq::empty(),
                confirm: Seq::empty(),
                error: Seq::empty(),
                ..old(f)@
            },
            Err(e) => SetupView { error: e@, ..old(f)@ },
        }),
{
    match outcome {
        Ok(_) => {
            wipe_text(&mut f.password);
            wipe_text(&mut f.confirm);
            f.error.clear();
            true
        },
        Err(e) => {
            f.error = e.clone();
            false
        },
    }
}

/// Whether a key leaves the screen that tells of an interruption.
pub fn handle_interrupted_migration_input(code: KeyCode) -> (b: bool)
    ensures
        b == (code == KeyCode::Esc || code == KeyCode::Char('q') || code == KeyCode::Enter),
{
    code == KeyCode::Esc || code == KeyCode::Char('q') || code == KeyCode::Enter
}

/// The parts of the dashboard that can have the focus.
#[derive(Debug, Clone, Copy, PartialEq, Eq, Structural)]
pub enum ActiveBlock {
    Categories,
    Secrets,
    Details,
}

/// The part after another one, in a circle.
pub open spec fn next_block(b: ActiveBlock) -> ActiveBlock {
    match b {
        ActiveBlock::Categories => ActiveBlock::Secrets,
        ActiveBlock::Secrets => ActiveBlock::Details,
        ActiveBlock::Details => ActiveBlock::Categories,
    }
}

/// The part before another one, in a circle.
pub open spec fn previous_block(b: ActiveBlock) -> ActiveBlock {
    match b {
        ActiveBlock::Categories => ActiveBlock::Details,
        ActiveBlock::Secrets => ActiveBlock::Categories,
        ActiveBlock::Details => ActiveBlock::Secrets,
    }
}

/// The dashboard.
#[derive(Debug)]
pub struct Dashboard {
    pub searching: bool,
    pub search_query: String,
    pub categories: Vec<String>,
    pub selected_category: usize,
    /// The records that are shown.
    pub shown: Vec<SecretRecord>,
    pub selected: usize,
    /// The ids of the marked records, each once.
    pub marked: Vec<i64>,
    pub active: ActiveBlock,
    pub reveal_password: bool,
}

/// What the dashboard holds.
pub struct DashView {
    pub searching: bool,
    pub search_query: Seq<char>,
    pub categories: Seq<Seq<char>>,
    pub selected_category: int,
    pub shown: Seq<RecordView>,
    pub selected: int,
    pub marked: Seq<i64>,
    pub active: ActiveBlock,
    pub reveal_password: bool,
}

impl View for Dashboard {
    type V = DashView;

    open spec fn view(&self) -> DashView {
        DashView {
            searching: self.searching,
            search_query: self.search_query@,
            categories: texts(self.categories@),
            selected_category: self.selected_category as int,
            shown: records(self.shown@),
            selected: self.selected as int,
            marked: self.marked@,
            active: self.active,
            reveal_password: self.reveal_password,
        }
    }
}

/// What a key on the dashboard leads to; `index` is the place of a shown record.
#[derive(Debug, Clone, Copy, PartialEq, Eq, Structural)]
pub enum DashAction {
    Stay,
    Quit,
    /// The query or the chosen tag has changed.
    Filter,
    AddForm,
    EditForm { index: usize },
    ConfirmMarked,
    ConfirmSingle { index: usize },
    CopyUsername { index: usize },
    CopyUrl { index: usize },
    CopyPassword { index: usize },
    ChangePassword,
    Import,
    Export,
    Generator,
    Settings,
    Sync,
    SyncDisabled,
    SyncUnconfigured,
    Deduplicate,
    Help,
    /// Look up the marked or the selected records among breaches.
    CheckSome,
    CheckAll,
}

/// Whether an id is not the given one.
pub open spec fn other_than(id: i64) -> spec_fn(i64) -> bool {
    |x: i64| x != id
}

/// The marked ids after one was marked or unmarked.
pub open spec fn toggled(marked: Seq<i64>, id: i64) -> Seq<i64> {
    if marked.contains(id) {
        marked.filter(other_than(id))
    } else {
        marked.push(id)
    }
}

/// A number less some, but not below 0.
pub open spec fn less(n: int, k: int) -> int {
    if n < k {
        0
    } else {
        n - k
    }
}

/// A place more by some, but not beyond the last of `len`.
pub open spec fn further(n: int, k: int, len: int) -> int {
    let last = if len == 0 {
        0
    } else {
        len - 1
    };
    if n + k > last {
        last
    } else {
        n + k
    }
}

/// Whether a record is selected.
pub open spec fn on_record(d: DashView) -> bool {
    d.selected < d.shown.len()
}

/// What a letter does on the dashboard.
pub open spec fn letter_action(d: DashView, c: char, no_sync: bool, configured: bool) -> DashAction {
    let i = d.selected as usize;
    if c == 'q' {
        DashAction::Quit
    } else if c == 'a' {
        DashAction::AddForm
    } else if c == 'e' {
        if on_record(d) {
            DashAction::EditForm { index: i }
        } else {
            DashAction::Stay
        }
    } else if c == 'd' {
        if d.marked.len() > 0 {
            DashAction::ConfirmMarked
        } else if on_record(d) {
            DashAction::ConfirmSingle { index: i }
        } else {
            DashAction::Stay
        }
    } else if c == 'c' {
        if on_record(d) {
            DashAction::CopyUsername { index: i }
        } else {
            DashAction::Stay
        }
    } else if c == 'm' {
        DashAction::ChangePassword
    } else if c == 'i' {
        DashAction::Import
    } else if c == 'x' {
        DashAction::Export
    } else if c == 'g' {
        DashAction::Generator
    } else if c == ',' {
        DashAction::Settings
    } else if c == 's' {
        if no_sync {
            DashAction::SyncDisabled
        } else if !configured {
            DashAction::SyncUnconfigured
        } else {
            DashAction::Sync
        }
    } else if c == 'D' {
        DashAction::Deduplicate
    } else if c == 'u' {
        if on_record(d) {
            DashAction::CopyUrl { index: i }
        } else {
            DashAction::Stay
        }
    } else if c == 'p' {
        if on_record(d) {
            DashAction::CopyPassword { index: i }
        } else {
            DashAction::Stay
        }
    } else if c == '?' {
        DashAction::Help
    } else if c == 'h' {
        DashAction::CheckSome
    } else if c == 'H' {
        DashAction::CheckAll
    } else {
        DashAction::Stay
    }
}

/// The dashboard after a letter.
pub open spec fn after_letter(d: DashView, c: char) -> DashView {
    if c == '/' {
        DashView { searching: true, ..d }
    } else if c == ' ' && on_record(d) {
        DashView { marked: toggled(d.marked, d.shown[d.selected].id as i64), ..d }
    } else if c == 'v' {
        DashView { reveal_password: !d.reveal_password, ..d }
    } else {
        d
    }
}

/// The dashboard after a key that moves through a list, and whether another tag was chosen.
pub open spec fn after_move(d: DashView, code: KeyCode) -> (DashView, bool) {
    match (code, d.active) {
        (KeyCode::Up, ActiveBlock::Categories) => if d.selected_category > 0 {
            (DashView { selected_category: d.selected_category - 1, ..d }, true)
        } else {
            (d, false)
        },
        (KeyCode::Up, ActiveBlock::Secrets) => (
            DashView { selected: less(d.selected, 1), ..d },
            false,
        ),
        (KeyCode::Down, ActiveBlock::Categories) => if d.selected_category + 1
            < d.categories.len() {
            (DashView { selected_category: d.selected_category + 1, ..d }, true)
        } else {
            (d, false)
        },
        (KeyCode::Down, ActiveBlock::Secrets) => if d.selected + 1 < d.shown.len() {
            (DashView { selected: d.selected + 1, ..d }, false)
        } else {
            (d, false)
        },
        (KeyCode::PageUp, ActiveBlock::Categories) => (
            DashView { selected_category: less(d.selected_category, 5), ..d },
            true,
        ),
        (KeyCode::PageUp, ActiveBlock::Secrets) => (
            DashView { selected: less(d.selected, 10), ..d },
            false,
        ),
        (KeyCode::PageDown, ActiveBlock::Categories) => (
            DashView {
                selected_category: further(d.selected_category, 5, d.categories.len() as int),
                ..d
            },
            true,
        ),
        (KeyCode::PageDown, ActiveBlock::Secrets) => (
            DashView { selected: further(d.selected, 10, d.shown.len() as int), ..d },
            false,
        ),
        _ => (d, false),
    }
}

/// The dashboard after a key, and what the key leads to. While a search is typed, characters go
/// into the query.
pub open spec fn dash_after(d: DashView, code: KeyCode, no_sync: bool, configured: bool) -> (
    DashView,
    DashAction,
) {
    if d.searching {
        match code {
            KeyCode::Char(c) => (
                DashView { search_query: d.search_query.push(c), ..d },
                DashAction::Filter,
            ),
            KeyCode::Backspace => (
                DashView { search_query: shortened(d.search_query), ..d },
                DashAction::Filter,
            ),
            KeyCode::Esc | KeyCode::Enter => (DashView { searching: false, ..d }, DashAction::Stay),
            _ => (d, DashAction::Stay),
        }
    } else {
        match code {
            KeyCode::Esc => (d, DashAction::Quit),
            KeyCode::Char(c) => (after_letter(d, c), letter_action(d, c, no_sync, configured)),
            KeyCode::Tab => (DashView { active: next_block(d.active), ..d }, DashAction::Stay),
            KeyCode::BackTab => (
                DashView { active: previous_block(d.active), ..d },
                DashAction::Stay,
            ),
            _ => (
                after_move(d, code).0,
                if after_move(d, code).1 {
                    DashAction::Filter
                } else {
                    DashAction::Stay
                },
            ),
        }
    }
}

/// Marks an id, or removes its mark.
pub fn toggle_mark(marked: &mut Vec<i64>, id: i64)
    ensures
        final(marked)@ == toggled(old(marked)@, id),
{
    let ghost all = marked@;
    let ghost p = other_than(id);
    let mut found: bool = false;
    let mut kept: Vec<i64> = Vec::new();
    let mut i: usize = 0;
    proof {
        reveal(Seq::filter);
        assert(kept@ =~= all.take(0).filter(p));
    }
    while i < marked.len()
        invariant
            i <= marked@.len(),
            all == marked@,
            p == other_than(id),
            kept@ == all.take(i as int).filter(p),
            found == exists|k: int| 0 <= k < i && #[trigger] all[k] == id,
        decreases marked@.len() - i,
    {
        proof {
            lemma_filter_step(all, i as int, p);
        }
        if marked[i] == id {
            found = true;
        } else {
            kept.push(marked[i]);
        }
        i += 1;
    }
    assert(all.take(i as int) =~= all);
    if found {
        assert(all.contains(id));
        *marked = kept;
    } else {
        assert(!all.contains(id));
        marked.push(id);
    }
}

fn letter(d: &Dashboard, c: char, no_sync: bool, configured: bool) -> (a: DashAction)
    ensures
        a == letter_action(d@, c, no_sync, configured),
{
    let here = d.selected < d.shown.len();
    assert(here == on_record(d@));
    let index: usize = d.selected;
    if c == 'q' {
        DashAction::Quit
    } else if c == 'a' {
        DashAction::AddForm
    } else if c == 'e' && here {
        DashAction::EditForm { index }
    } else if c == 'd' && d.marked.len() > 0 {
        DashAction::ConfirmMarked
    } else if c == 'd' && here {
        DashAction::ConfirmSingle { index }
    } else if c == 'c' && here {
        DashAction::CopyUsername { index }
    } else if c == 'm' {
        DashAction::ChangePassword
    } else if c == 'i' {
        DashAction::Import
    } else if c == 'x' {
        DashAction::Export
    } else if c == 'g' {
        DashAction::Generator
    } else if c == ',' {
        DashAction::Settings
    } else if c == 's' {
        if no_sync {
            DashAction::SyncDisabled
        } else if !configured {
            DashAction::SyncUnconfigured
        } else {
            DashAction::Sync
        }
    } else if c == 'D' {
        DashAction::Deduplicate
    } else if c == 'u' && here {
        DashAction::CopyUrl { index }
    } else if c == 'p' && here {
        DashAction::CopyPassword { index }
    } else if c == '?' {
        DashAction::Help
    } else if c == 'h' {
        DashAction::CheckSome
    } else if c == 'H' {
        DashAction::CheckAll
    } else {
        DashAction::Stay
    }
}

fn minus(n: usize, k: usize) -> (r: usize)
    ensures
        r == less(n as int, k as int),
{
    if n < k {
        0
    } else {
        n - k
    }
}

fn plus(n: usize, k: usize, len: usize) -> (r: usize)
    ensures
        r == further(n as int, k as int, len as int),
{
    let last: usize = if len == 0 {
        0
    } else {
        len - 1
    };
    if k > last || n > last - k {
        last
    } else {
        n + k
    }
}

fn move_selection(d: &mut Dashboard, code: KeyCode) -> (chosen: bool)
    ensures
        final(d)@ == after_move(old(d)@, code).0,
        chosen == after_move(old(d)@, code).1,
{
    assert(d@.categories.len() == d.categories@.len());
    let tags: usize = d.categories.len();
    let count: usize = d.shown.len();
    match (code, d.active) {
        (KeyCode::Up, ActiveBlock::Categories) => if d.selected_category > 0 {
            d.selected_category = d.selected_category - 1;
            true
        } else {
            false
        },
        (KeyCode::Up, ActiveBlock::Secrets) => {
            d.selected = minus(d.selected, 1);
            false
        },
        (KeyCode::Down, ActiveBlock::Categories) => if tags > 0 && d.selected_category < tags - 1 {
            d.selected_category = d.selected_category + 1;
            true
        } else {
            false
        },
        (KeyCode::Down, ActiveBlock::Secrets) => {
            if count > 0 && d.selected < count - 1 {
                d.selected = d.selected + 1;
            }
            false
        },
        (KeyCode::PageUp, ActiveBlock::Categories) => {
            d.selected_category = minus(d.selected_category, 5);
            true
        },
        (KeyCode::PageUp, ActiveBlock::Secrets) => {
            d.selected = minus(d.selected, 10);
            false
        },
        (KeyCode::PageDown, ActiveBlock::Categories) => {
            d.selected_category = plus(d.selected_category, 5, tags);
            true
        },
        (KeyCode::PageDown, ActiveBlock::Secrets) => {
            d.selected = plus(d.selected, 10, count);
            false
        },
        _ => false,
    }
}

/// Handles a key on the dashboard.
pub fn handle_dashboard_input(d: &mut Dashboard, code: KeyCode, no_sync: bool, configured: bool) -> (a:
    DashAction)
    ensures
        (final(d)@, a) == dash_after(old(d)@, code, no_sync, configured),
{
    if d.searching {
        match code {
            KeyCode::Char(c) => {
                d.search_query.push(c);
                return DashAction::Filter;
            },
            KeyCode::Backspace => {
                delete_last(&mut d.search_query);
                return DashAction::Filter;
            },
            KeyCode::Esc | KeyCode::Enter => {
                d.searching = false;
                return DashAction::Stay;
            },
            _ => {
                return DashAction::Stay;
            },
        }
    }
    match code {
        KeyCode::Esc => DashAction::Quit,
        KeyCode::Char(c) => {
            let a = letter(d, c, no_sync, configured);
            if c == '/' {
                d.searching = true;
            } else if c == ' ' {
                if d.selected < d.shown.len() {
                    let id: i64 = d.shown[d.selected].id;
                    assert(d@.shown[d.selected as int].id == id);
                    toggle_mark(&mut d.marked, id);
                }
            } else if c == 'v' {
                d.reveal_password = !d.reveal_password;
            }
            a
        },
        KeyCode::Tab => {
            d.active =
            match d.active {
                ActiveBlock::Categories => ActiveBlock::Secrets,
                ActiveBlock::Secrets => ActiveBlock::Details,
                ActiveBlock::Details => ActiveBlock::Categories,
            };
            DashAction::Stay
        },
        KeyCode::BackTab => {
            d.active =
            match d.active {
                ActiveBlock::Categories => ActiveBlock::Details,
                ActiveBlock::Secrets => ActiveBlock::Categories,
                ActiveBlock::Details => ActiveBlock::Secrets,
            };
            DashAction::Stay
        },
        _ => if move_selection(d, code) {
            DashAction::Filter
        } else {
            DashAction::Stay
        },
    }
}

/// Whether a place is within its list, or 0 in an empty one.
pub open spec fn within_list(i: int, len: int) -> bool {
    0 <= i && (i < len || (i == 0 && len == 0))
}

/// No key moves the selection out of its list.
pub proof fn law_selection_stays_in_its_list(
    d: DashView,
    code: KeyCode,
    no_sync: bool,
    configured: bool,
)
    requires
        within_list(d.selected, d.shown.len() as int),
        within_list(d.selected_category, d.categories.len() as int),
    ensures
        within_list(
            dash_after(d, code, no_sync, configured).0.selected,
            d.shown.len() as int,
        ),
        within_list(
            dash_after(d, code, no_sync, configured).0.selected_category,
            d.categories.len() as int,
        ),
{
}

/// Marking a record twice, or unmarking it twice, leaves the same records marked.
pub proof fn law_marking_twice_cancels(marked: Seq<i64>, id: i64)
    ensures
        forall|x: i64| #[trigger]
            toggled(toggled(marked, id), id).contains(x) == marked.contains(x),
{
    let p = other_than(id);
    let once = toggled(marked, id);
    let twice = toggled(once, id);
    assert forall|x: i64| #[trigger] twice.contains(x) == marked.contains(x) by {
        if marked.contains(id) {
            lemma_filter_members(marked, p);
            assert(!p(id));
            assert(!once.contains(id));
            lemma_push_members(once, id, x);
        } else {
            lemma_push_members(marked, id, x);
            lemma_push_members(marked, id, id);
            lemma_filter_members(once, p);
        }
    }
}

proof fn lemma_push_members(s: Seq<i64>, a: i64, x: i64)
    ensures
        s.push(a).contains(x) == (s.contains(x) || x == a),
{
    let t = s.push(a);
    assert(t[s.len() as int] == a);
    if s.contains(x) {
        let k = choose|k: int| 0 <= k < s.len() && s[k] == x;
        assert(t[k] == x);
    }
    if t.contains(x) {
        let k = choose|k: int| 0 <= k < t.len() && t[k] == x;
        if k < s.len() {
            assert(s[k] == x);
        }
    }
}

/// The question before marked records are deleted.
pub open spec fn delete_marked_text(n: nat) -> Seq<char> {
    "Are you sure you want to delete the "@ + decimal(n)
        + " marked credentials? This cannot be undone."@
}

/// The question before a record is deleted.
pub open spec fn delete_single_text(title: Seq<char>) -> Seq<char> {
    "Are you sure you want to delete '"@ + title + "'? This cannot be undone."@
}

/// Words the question before marked records are deleted.
pub fn ask_delete_marked(n: usize) -> (s: String)
    ensures
        s@ == delete_marked_text(n as nat),
{
    let mut s = "Are you sure you want to delete the ".to_owned();
    s.append(decimal_text(n as u64).as_str());
    s.append(" marked credentials? This cannot be undone.");
    s
}

/// Words the question before a record is deleted.
pub fn ask_delete_single(title: &str) -> (s: String)
    ensures
        s@ == delete_single_text(title@),
{
    let mut s = "Are you sure you want to delete '".to_owned();
    s.append(title);
    s.append("'? This cannot be undone.");
    s
}

/// Which records are looked up among breaches: the marked ones, or else the selected one.
pub open spec fn ids_to_check(d: DashView) -> Seq<i64> {
    if d.marked.len() > 0 {
        d.marked
    } else if on_record(d) {
        seq![d.shown[d.selected].id as i64]
    } else {
        Seq::empty()
    }
}

/// Which records are looked up among breaches; no mark is lost over it.
pub fn records_to_check(d: &Dashboard) -> (ids: Vec<i64>)
    ensures
        ids@ == ids_to_check(d@),
{
    let mut ids: Vec<i64> = Vec::new();
    if d.marked.len() > 0 {
        ids.extend_from_slice(d.marked.as_slice());
        assert(ids@ =~= d.marked@);
    } else if d.selected < d.shown.len() {
        assert(d@.shown[d.selected as int] == d.shown@[d.selected as int]@);
        ids.push(d.shown[d.selected].id);
        assert(ids@ =~= ids_to_check(d@));
    } else {
        assert(ids@ =~= ids_to_check(d@));
    }
    ids
}

/// What is to be done for one record of a breach lookup.
#[derive(Debug)]
pub enum LookupStep {
    /// Its password cannot be read: nothing.
    Skip,
    /// The answer is known: from this session, or a breach from before.
    Known,
    /// Ask about the password, and cache the answer under the lookup key.
    Ask { password: String, fingerprint: String },
}

/// Whether no question is needed: the password was asked about in this session, or is known to
/// be breached.
pub open spec fn is_known(f: Seq<char>, asked: Seq<Seq<char>>, cache: Seq<HibpView>) -> bool {
    asked.contains(f) || (cached(cache, f) matches Some(Some(n)) && n > 0)
}

fn was_asked(asked: &Vec<String>, f: &String) -> (b: bool)
    ensures
        b == texts(asked@).contains(f@),
{
    let mut i: usize = 0;
    while i < asked.len()
        invariant
            i <= asked@.len(),
            forall|k: int| 0 <= k < i ==> #[trigger] texts(asked@)[k] != f@,
        decreases asked@.len() - i,
    {
        assert(texts(asked@)[i as int] == asked@[i as int]@);
        if asked[i] == *f {
            return true;
        }
        i += 1;
    }
    false
}

/// What is to be done for one record of a breach lookup. `asked` are the lookup keys that got an
/// answer in this session.
pub fn plan_lookup(r: &SecretRecord, key: &[u8; 32], asked: &Vec<String>, cache: &Vec<HibpCheck>) -> (s:
    LookupStep)
    ensures
        match readable_password(r@, key@) {
            None => s is Skip,
            Some(pw) => {
                let f = fingerprint_of(encode_utf8(pw), key@);
                if is_known(f, texts(asked@), checks(cache@)) {
                    s is Known
                } else {
                    s matches LookupStep::Ask { password, fingerprint } && password@ == pw
                        && fingerprint@ == f
                }
            },
        },
{
    match read_password(r, key) {
        None => LookupStep::Skip,
        Some(pw) => {
            let mut password = pw;
            let fingerprint = hibp_cache_fingerprint(password.as_str().as_bytes(), key);
            let breached = match cached_count(cache.as_slice(), &fingerprint) {
                Some(Some(n)) => n > 0,
                _ => false,
            };
            if was_asked(asked, &fingerprint) || breached {
                wipe_text(&mut password);
                LookupStep::Known
            } else {
                LookupStep::Ask { password, fingerprint }
            }
        },
    }
}

/// Whether a breach lookup starts: with a key, with something to look up, and only one at a time.
pub fn lookup_starts(unlocked: bool, running: bool, total: usize) -> (b: bool)
    ensures
        b == (unlocked && !running && total > 0),
{
    unlocked && !running && total > 0
}

/// Whether to wait before the next question: after one, unless it was the last.
pub fn lookup_waits(asked_online: bool, i: usize, total: usize) -> (b: bool)
    requires
        i < total,
    ensures
        b == (asked_online && total > 1 && i + 1 < total),
{
    asked_online && total > 1 && i + 1 < total
}

/// Whether a record carries a tag.
pub open spec fn has_tag(r: RecordView, tag: Seq<char>) -> bool {
    tags_of(r.category).contains(tag)
}

fn carries_tag(r: &SecretRecord, tag: &String) -> (b: bool)
    ensures
        b == has_tag(r@, tag@),
{
    let tags = split_tags(r.category.as_str());
    let ghost all = tags_of(r@.category);
    let mut i: usize = 0;
    while i < tags.len()
        invariant
            i <= tags@.len(),
            all == crate::text::rows(tags@),
            all == tags_of(r@.category),
            forall|k: int| 0 <= k < i ==> #[trigger] all[k] != tag@,
        decreases tags@.len() - i,
    {
        assert(all[i as int] == tags@[i as int]@);
        let t = string_of(tags[i].as_slice());
        if t == *tag {
            return true;
        }
        i += 1;
    }
    false
}

/// The records that are shown under a tag, or under all, and a query.
pub fn apply_filter(all: &Vec<SecretRecord>, tag: &Option<String>, query: &str) -> (out: Vec<
    SecretRecord,
>)
    ensures
        records(out@) == records(all@).filter(
            |r: RecordView| matches_tag(r, crate::db::records::text_opt(*tag)),
        ).filter(|r: RecordView| crate::cli::matches_query(r, lower(query@))),
{
    let mut tagged: Vec<SecretRecord> = Vec::new();
    let ghost s = records(all@);
    let ghost t = crate::db::records::text_opt(*tag);
    let ghost p = |r: RecordView| matches_tag(r, t);
    let mut i: usize = 0;
    proof {
        reveal(Seq::filter);
        assert(records(tagged@) =~= s.take(0).filter(p));
    }
    while i < all.len()
        invariant
            i <= all@.len(),
            s == records(all@),
            t == crate::db::records::text_opt(*tag),
            p == (|r: RecordView| matches_tag(r, t)),
            records(tagged@) == s.take(i as int).filter(p),
        decreases all@.len() - i,
    {
        proof {
            lemma_filter_step(s, i as int, p);
        }
        assert(s[i as int] == all@[i as int]@);
        let fits = match tag {
            Some(x) => carries_tag(&all[i], x),
            None => true,
        };
        if fits {
            let copy = all[i].clone();
            proof {
                lemma_records_push(tagged@, copy);
            }
            tagged.push(copy);
        }
        i += 1;
    }
    assert(s.take(i as int) =~= s);
    crate::cli::search_records(&tagged, query)
}

/// Whether a record is shown under a tag, or under all.
pub open spec fn matches_tag(r: RecordView, tag: Option<Seq<char>>) -> bool {
    match tag {
        Some(t) => has_tag(r, t),
        None => true,
    }
}

/// The tags of the first `n` records, each where it first occurs.
pub open spec fn all_tags(s: Seq<RecordView>, n: int) -> Seq<Seq<char>>
    decreases n,
{
    if n <= 0 {
        Seq::empty()
    } else {
        with_new(all_tags(s, n - 1), tags_of(s[n - 1].category))
    }
}

/// A list with what is new in another one at its end.
pub open spec fn with_new(a: Seq<Seq<char>>, b: Seq<Seq<char>>) -> Seq<Seq<char>>
    decreases b.len(),
{
    if b.len() == 0 {
        a
    } else {
        let before = with_new(a, b.drop_last());
        if before.contains(b.last()) {
            before
        } else {
            before.push(b.last())
        }
    }
}

/// The tags of all records, each once.
pub fn list_tags(all: &Vec<SecretRecord>) -> (out: Vec<String>)
    ensures
        texts(out@) == all_tags(records(all@), all@.len() as int),
{
    let mut out: Vec<String> = Vec::new();
    let ghost s = records(all@);
    let mut i: usize = 0;
    assert(texts(out@) =~= all_tags(s, 0));
    while i < all.len()
        invariant
            i <= all@.len(),
            s == records(all@),
            texts(out@) == all_tags(s, i as int),
        decreases all@.len() - i,
    {
        assert(s[i as int] == all@[i as int]@);
        let tags = split_tags(all[i].category.as_str());
        let ghost t = crate::text::rows(tags@);
        let ghost start = texts(out@);
        let mut j: usize = 0;
        assert(texts(out@) =~= with_new(start, t.take(0)));
        while j < tags.len()
            invariant
                j <= tags@.len(),
                t == crate::text::rows(tags@),
                texts(out@) == with_new(start, t.take(j as int)),
            decreases tags@.len() - j,
        {
            assert(t.take(j + 1).drop_last() =~= t.take(j as int));
            assert(t.take(j + 1).last() == tags@[j as int]@);
            let tag = string_of(tags[j].as_slice());
            if !was_asked(&out, &tag) {
                let ghost before = texts(out@);
                out.push(tag);
                assert(texts(out@) =~= before.push(tag@));
            }
            j += 1;
        }
        assert(t.take(j as int) =~= t);
        i += 1;
    }
    out
}

} // verus!
