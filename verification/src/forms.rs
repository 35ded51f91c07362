//! The screens that text is typed into: a credential, a new master password, a generated
//! password.
use vstd::prelude::*;
use vstd::string::*;
use vstd::utf8::{decode_utf8, encode_utf8, valid_utf8};

use crate::crypto::{decrypt, fingerprint_of, hibp_cache_fingerprint, opened, utf8_text, wipe_text};
use crate::db::records::{checks, records, HibpCheck, RecordView, SecretRecord, Vault, VaultView};
use crate::db::store::{
    add_secret, cached, cached_count, is_added, is_updated, may_collide, notes_text, storable,
    update_secret,
};
use crate::db::tags::{normalize_tags, normalized};
use crate::generator::{
    generate_passphrase, generate_password, hyphenated, made_to, picks, selected, GeneratorOptions,
    MAX_LENGTH, MAX_WORDS, MIN_LENGTH, MIN_WORDS,
};
use crate::keys::{delete_last, shortened, KeyCode, KeyModifiers};
use crate::strength::{check_strength, score_of, severity_name, severity_of, Severity};
use crate::text::{decimal, decimal_text, texts, trim_text, trimmed};

verus! {

/// The fields of a credential's form.
#[derive(Debug, Clone, Copy, PartialEq, Eq, Structural)]
pub enum FormField {
    Title,
    Category,
    Username,
    Url,
    Password,
    Notes,
}

/// The field after another one, in a circle.
pub open spec fn next_field(f: FormField) -> FormField {
    match f {
        FormField::Title => FormField::Category,
        FormField::Category => FormField::Username,
        FormField::Username => FormField::Url,
        FormField::Url => FormField::Password,
        FormField::Password => FormField::Notes,
        FormField::Notes => FormField::Title,
    }
}

/// The field before another one, in a circle.
pub open spec fn previous_field(f: FormField) -> FormField {
    match f {
        FormField::Title => FormField::Notes,
        FormField::Category => FormField::Title,
        FormField::Username => FormField::Category,
        FormField::Url => FormField::Username,
        FormField::Password => FormField::Url,
        FormField::Notes => FormField::Password,
    }
}

/// Going forth and back through the fields leads nowhere else.
pub proof fn law_form_tabs_cancel(f: FormField)
    ensures
        previous_field(next_field(f)) == f,
        next_field(previous_field(f)) == f,
{
}

/// A credential being added or edited.
#[derive(Debug)]
pub struct SecretForm {
    pub title: String,
    pub category: String,
    pub username: String,
    pub url: String,
    pub password: String,
    pub notes: String,
    pub active: FormField,
    /// The record being edited; `None` adds a new one.
    pub edit_id: Option<i64>,
}

/// What a credential's form holds.
pub struct FormView {
    pub title: Seq<char>,
    pub category: Seq<char>,
    pub username: Seq<char>,
    pub url: Seq<char>,
    pub password: Seq<char>,
    pub notes: Seq<char>,
    pub active: FormField,
    pub edit_id: Option<i64>,
}

impl View for SecretForm {
    type V = FormView;

    open spec fn view(&self) -> FormView {
        FormView {
            title: self.title@,
            category: self.category@,
            username: self.username@,
            url: self.url@,
            password: self.password@,
            notes: self.notes@,
            active: self.active,
            edit_id: self.edit_id,
        }
    }
}

impl FormView {
    /// The text in the focused field.
    pub open spec fn focused(self) -> Seq<char> {
        match self.active {
            FormField::Title => self.title,
            FormField::Category => self.category,
            FormField::Username => self.username,
            FormField::Url => self.url,
            FormField::Password => self.password,
            FormField::Notes => self.notes,
        }
    }

    /// The form with another text in the focused field.
    pub open spec fn with_focused(self, t: Seq<char>) -> FormView {
        match self.active {
            FormField::Title => FormView { title: t, ..self },
            FormField::Category => FormView { category: t, ..self },
            FormField::Username => FormView { username: t, ..self },
            FormField::Url => FormView { url: t, ..self },
            FormField::Password => FormView { password: t, ..self },
            FormField::Notes => FormView { notes: t, ..self },
        }
    }

    /// The form without its secrets.
    pub open spec fn without_secrets(self) -> FormView {
        FormView { password: Seq::empty(), notes: Seq::empty(), ..self }
    }

    /// Whether something that a credential needs is missing.
    pub open spec fn incomplete(self) -> bool {
        trimmed(self.title).len() == 0 || normalized(self.category).len() == 0 || trimmed(
            self.password,
        ).len() == 0
    }

    /// The notes that are stored.
    pub open spec fn stored_notes(self) -> Option<Seq<char>> {
        if self.notes.len() == 0 {
            None
        } else {
            Some(self.notes)
        }
    }
}

/// An empty form for a new credential.
pub open spec fn empty_form() -> FormView {
    FormView {
        title: Seq::empty(),
        category: Seq::empty(),
        username: Seq::empty(),
        url: Seq::empty(),
        password: Seq::empty(),
        notes: Seq::empty(),
        active: FormField::Title,
        edit_id: None,
    }
}

/// Opens the form for a new credential.
pub fn open_add_form() -> (f: SecretForm)
    ensures
        f@ == empty_form(),
{
    SecretForm {
        title: String::new(),
        category: String::new(),
        username: String::new(),
        url: String::new(),
        password: String::new(),
        notes: String::new(),
        active: FormField::Title,
        edit_id: None,
    }
}

/// The form for editing a record; what does not open is left empty.
pub open spec fn edit_form(r: RecordView, key: Option<Seq<u8>>) -> FormView {
    FormView {
        title: r.title,
        category: r.category,
        username: r.username,
        url: r.url,
        password: match key {
            Some(k) => crate::conflicts::shown(r.password, k),
            None => Seq::empty(),
        },
        notes: match key {
            Some(k) => crate::conflicts::shown_opt(r.notes, k),
            None => Seq::empty(),
        },
        active: FormField::Title,
        edit_id: Some(r.id as i64),
    }
}

/// The bytes of an optional key.
pub open spec fn key_opt(k: Option<[u8; 32]>) -> Option<Seq<u8>> {
    match k {
        Some(a) => Some(a@),
        None => None,
    }
}

/// Opens the form for editing a record.
pub fn open_edit_form(r: &SecretRecord, key: &Option<[u8; 32]>) -> (f: SecretForm)
    ensures
        f@ == edit_form(r@, key_opt(*key)),
{
    let (password, notes) = match key {
        Some(k) => (
            crate::conflicts::reveal_text(r.encrypted_password.as_slice(), k),
            crate::conflicts::reveal_notes(&r.encrypted_notes, k),
        ),
        None => (String::new(), String::new()),
    };
    SecretForm {
        title: r.title.clone(),
        category: r.category.clone(),
        username: r.username.clone(),
        url: r.url.clone(),
        password,
        notes,
        active: FormField::Title,
        edit_id: Some(r.id),
    }
}

impl SecretForm {
    fn push_char(&mut self, c: char)
        ensures
            final(self)@ == old(self)@.with_focused(old(self)@.focused().push(c)),
    {
        match self.active {
            FormField::Title => self.title.push(c),
            FormField::Category => self.category.push(c),
            FormField::Username => self.username.push(c),
            FormField::Url => self.url.push(c),
            FormField::Password => self.password.push(c),
            FormField::Notes => self.notes.push(c),
        }
    }

    fn pop_char(&mut self)
        ensures
            final(self)@ == old(self)@.with_focused(shortened(old(self)@.focused())),
    {
        match self.active {
            FormField::Title => delete_last(&mut self.title),
            FormField::Category => delete_last(&mut self.category),
            FormField::Username => delete_last(&mut self.username),
            FormField::Url => delete_last(&mut self.url),
            FormField::Password => delete_last(&mut self.password),
            FormField::Notes => delete_last(&mut self.notes),
        }
    }

    fn wipe(&mut self)
        ensures
            final(self)@ == old(self)@.without_secrets(),
    {
        wipe_text(&mut self.password);
        wipe_text(&mut self.notes);
    }
}

/// What a key in a credential's form leads to.
#[derive(Debug)]
pub enum FormOutcome {
    Stay,
    /// The credential was stored.
    Saved,
    /// Back to the dashboard.
    Cancelled,
    Failed { error: String },
}

/// Whether a key asks for a generated password.
pub open spec fn asks_password(code: KeyCode, m: KeyModifiers) -> bool {
    m.control && (code == KeyCode::Char('g') || code == KeyCode::Char('G'))
}

/// The form after a key that neither generates a password nor saves the credential.
pub open spec fn form_after(f: FormView, code: KeyCode, m: KeyModifiers) -> FormView {
    match code {
        KeyCode::Tab => FormView { active: next_field(f.active), ..f },
        KeyCode::BackTab => FormView { active: previous_field(f.active), ..f },
        KeyCode::Char(c) => if m.control || m.alt {
            f
        } else {
            f.with_focused(f.focused().push(c))
        },
        KeyCode::Backspace => f.with_focused(shortened(f.focused())),
        KeyCode::Esc => f.without_secrets(),
        _ => f,
    }
}

/// Whether `new` is the vault after the form was saved.
pub open spec fn form_saved(
    new: VaultView,
    v: VaultView,
    f: FormView,
    key: Seq<u8>,
    now: Seq<char>,
    cap: nat,
) -> bool {
    match f.edit_id {
        Some(id) => is_updated(
            new,
            v,
            id as int,
            f.title,
            normalized(f.category),
            f.username,
            f.url,
            f.password,
            f.stored_notes(),
            key,
            now,
            cap,
        ),
        None => is_added(
            new,
            v,
            f.title,
            normalized(f.category),
            f.username,
            f.url,
            f.password,
            f.stored_notes(),
            key,
            now,
        ),
    }
}

/// Whether a complete form cannot be saved for the given reason.
pub open spec fn form_fails(v: VaultView, f: FormView, error: Seq<char>) -> bool {
    if !storable(f.password, f.stored_notes()) {
        error == "aead::Error"@
    } else if f.edit_id is Some {
        false
    } else if v.next_id == i64::MAX {
        error == "database or disk is full"@
    } else {
        error == "UNIQUE constraint failed: secrets.sync_uuid"@ && may_collide(v.secrets)
    }
}

/// Whether an attempt to save a form comes to the given outcome. A missing title, tag or password
/// is an error, and without a key nothing happens.
pub open spec fn entered(
    o: FormOutcome,
    f: FormView,
    new_f: FormView,
    v: VaultView,
    new_v: VaultView,
    key: Option<Seq<u8>>,
    now: Seq<char>,
    cap: nat,
) -> bool {
    match o {
        FormOutcome::Stay => !f.incomplete() && key is None && new_f == f && new_v == v,
        FormOutcome::Failed { error } => new_f == f && new_v == v && (if f.incomplete() {
            error@ == "Title, at least one Tag, and Password are required!"@
        } else {
            key is Some && form_fails(v, f, error@)
        }),
        FormOutcome::Saved => !f.incomplete() && storable(f.password, f.stored_notes())
            && new_f == f.without_secrets() && (key matches Some(k) && form_saved(
            new_v,
            v,
            f,
            k,
            now,
            cap,
        )),
        FormOutcome::Cancelled => false,
    }
}

fn next_of(f: FormField) -> (r: FormField)
    ensures
        r == next_field(f),
{
    match f {
        FormField::Title => FormField::Category,
        FormField::Category => FormField::Username,
        FormField::Username => FormField::Url,
        FormField::Url => FormField::Password,
        FormField::Password => FormField::Notes,
        FormField::Notes => FormField::Title,
    }
}

fn previous_of(f: FormField) -> (r: FormField)
    ensures
        r == previous_field(f),
{
    match f {
        FormField::Title => FormField::Notes,
        FormField::Category => FormField::Title,
        FormField::Username => FormField::Category,
        FormField::Url => FormField::Username,
        FormField::Password => FormField::Url,
        FormField::Notes => FormField::Password,
    }
}

/// Stores the credential in a form: a missing title, tag or password is an error, and without a
/// key nothing happens. On success the secrets in the form are wiped.
pub fn save_form(
    form: &mut SecretForm,
    vault: &mut Vault,
    key: &Option<[u8; 32]>,
    now: &str,
    cap: usize,
) -> (o: FormOutcome)
    requires
        old(vault)@.wf(),
    ensures
        final(vault)@.wf(),
        entered(
            o,
            old(form)@,
            final(form)@,
            old(vault)@,
            final(vault)@,
            key_opt(*key),
            now@,
            cap as nat,
        ),
        !(o is Saved) ==> *final(vault) == *old(vault),
{
    let tags = normalize_tags(form.category.as_str());
    if trim_text(form.title.as_str()).as_str().is_empty() || tags.as_str().is_empty() || trim_text(
        form.password.as_str(),
    ).as_str().is_empty() {
        return FormOutcome::Failed {
            error: "Title, at least one Tag, and Password are required!".to_owned(),
        };
    }
    let k = match key {
        None => {
            return FormOutcome::Stay;
        },
        Some(k) => k,
    };
    let notes: Option<&str> = if form.notes.as_str().is_empty() {
        None
    } else {
        Some(form.notes.as_str())
    };
    assert(notes_text(notes) == form@.stored_notes());
    let r = match form.edit_id {
        Some(id) => update_secret(
            vault,
            id,
            form.title.as_str(),
            tags.as_str(),
            form.username.as_str(),
            form.url.as_str(),
            form.password.as_str(),
            notes,
            k,
            now,
            cap,
        ),
        None => add_secret(
            vault,
            form.title.as_str(),
            tags.as_str(),
            form.username.as_str(),
            form.url.as_str(),
            form.password.as_str(),
            notes,
            k,
            now,
        ),
    };
    match r {
        Ok(_) => {
            form.wipe();
            FormOutcome::Saved
        },
        Err(error) => FormOutcome::Failed { error },
    }
}

/// Handles a key in a credential's form. `options` are those of the password generator.
pub fn handle_form_input(
    form: &mut SecretForm,
    vault: &mut Vault,
    key: &Option<[u8; 32]>,
    code: KeyCode,
    modifiers: KeyModifiers,
    options: &GeneratorOptions,
    now: &str,
    cap: usize,
) -> (o: FormOutcome)
    requires
        old(vault)@.wf(),
    ensures
        final(vault)@.wf(),
        asks_password(code, modifiers) ==> o is Stay && *final(vault) == *old(vault) && final(form)@
            == (FormView { password: final(form)@.password, ..old(form)@ }) && (if selected(
            *options,
        ).len() > 0 {
            made_to(final(form)@.password, *options)
        } else {
            final(form)@.password == old(form)@.password
        }),
        !asks_password(code, modifiers) && code != KeyCode::Enter ==> *final(vault) == *old(vault)
            && final(form)@ == form_after(old(form)@, code, modifiers) && (if code == KeyCode::Esc {
            o is Cancelled
        } else {
            o is Stay
        }),
        !asks_password(code, modifiers) && code == KeyCode::Enter ==> entered(
            o,
            old(form)@,
            final(form)@,
            old(vault)@,
            final(vault)@,
            key_opt(*key),
            now@,
            cap as nat,
        ) && (!(o is Saved) ==> *final(vault) == *old(vault)),
{
    if modifiers.control && (code == KeyCode::Char('g') || code == KeyCode::Char('G')) {
        match generate_password(options) {
            Ok(pw) => {
                wipe_text(&mut form.password);
                form.password = pw;
            },
            Err(_) => {},
        }
        return FormOutcome::Stay;
    }
    match code {
        KeyCode::Tab => {
            form.active = next_of(form.active);
            FormOutcome::Stay
        },
        KeyCode::BackTab => {
            form.active = previous_of(form.active);
            FormOutcome::Stay
        },
        KeyCode::Char(c) => {
            if !modifiers.control && !modifiers.alt {
                form.push_char(c);
            }
            FormOutcome::Stay
        },
        KeyCode::Backspace => {
            form.pop_char();
            FormOutcome::Stay
        },
        KeyCode::Enter => save_form(form, vault, key, now, cap),
        KeyCode::Esc => {
            form.wipe();
            FormOutcome::Cancelled
        },
        _ => FormOutcome::Stay,
    }
}

/// The screen for changing the master password.
#[derive(Debug)]
pub struct ChangePasswordForm {
    pub current: String,
    pub new: String,
    pub confirm: String,
    /// The focused field: 0 is the current password, 1 the new one, 2 its confirmation.
    pub field: u8,
    pub error: String,
}

/// What the screen for changing the master password holds.
pub struct ChangeView {
    pub current: Seq<char>,
    pub new: Seq<char>,
    pub confirm: Seq<char>,
    pub field: u8,
    pub error: Seq<char>,
}

impl View for ChangePasswordForm {
    type V = ChangeView;

    open spec fn view(&self) -> ChangeView {
        ChangeView {
            current: self.current@,
            new: self.new@,
            confirm: self.confirm@,
            field: self.field,
            error: self.error@,
        }
    }
}

/// The screen with nothing in it.
pub open spec fn empty_change() -> ChangeView {
    ChangeView {
        current: Seq::empty(),
        new: Seq::empty(),
        confirm: Seq::empty(),
        field: 0,
        error: Seq::empty(),
    }
}

/// Opens the screen for changing the master password.
pub fn open_change_password() -> (f: ChangePasswordForm)
    ensures
        f@ == empty_change(),
{
    ChangePasswordForm {
        current: String::new(),
        new: String::new(),
        confirm: String::new(),
        field: 0,
        error: String::new(),
    }
}

/// What keeps the entries from being used, if anything does.
pub open spec fn change_error(f: ChangeView, unlocked: bool) -> Option<Seq<char>> {
    if f.current.len() == 0 || f.new.len() == 0 || f.confirm.len() == 0 {
        Some("All fields are required!"@)
    } else if f.new != f.confirm {
        Some("New passwords do not match!"@)
    } else if !unlocked {
        Some("Vault is locked!"@)
    } else {
        None
    }
}

/// The screen after a key.
pub open spec fn change_after(f: ChangeView, code: KeyCode, unlocked: bool) -> ChangeView {
    match code {
        KeyCode::Tab => ChangeView { field: ((f.field + 1) % 3) as u8, ..f },
        KeyCode::BackTab => ChangeView {
            field: if f.field == 0 {
                2
            } else {
                (f.field - 1) as u8
            },
            ..f
        },
        KeyCode::Char(c) => if f.field == 0 {
            ChangeView { current: f.current.push(c), ..f }
        } else if f.field == 1 {
            ChangeView { new: f.new.push(c), ..f }
        } else {
            ChangeView { confirm: f.confirm.push(c), ..f }
        },
        KeyCode::Backspace => if f.field == 0 {
            ChangeView { current: shortened(f.current), ..f }
        } else if f.field == 1 {
            ChangeView { new: shortened(f.new), ..f }
        } else {
            ChangeView { confirm: shortened(f.confirm), ..f }
        },
        KeyCode::Enter => ChangeView {
            error: match change_error(f, unlocked) {
                Some(e) => e,
                None => Seq::empty(),
            },
            ..f
        },
        KeyCode::Esc => ChangeView {
            current: Seq::empty(),
            new: Seq::empty(),
            confirm: Seq::empty(),
            error: Seq::empty(),
            ..f
        },
        _ => f,
    }
}

/// What a key on the screen for changing the master password leads to.
#[derive(Debug, Clone, Copy, PartialEq, Eq, Structural)]
pub enum ChangeOutcome {
    Stay,
    /// Change the master password.
    Change,
    /// Back to the dashboard.
    Close,
}

impl ChangePasswordForm {
    fn wipe(&mut self)
        ensures
            final(self)@ == (ChangeView {
                current: Seq::empty(),
                new: Seq::empty(),
                confirm: Seq::empty(),
                error: Seq::empty(),
                ..old(self)@
            }),
    {
        wipe_text(&mut self.current);
        wipe_text(&mut self.new);
        wipe_text(&mut self.confirm);
        self.error.clear();
    }
}

/// Handles a key on the screen for changing the master password.
pub fn handle_change_password_input(f: &mut ChangePasswordForm, code: KeyCode, unlocked: bool) -> (o:
    ChangeOutcome)
    requires
        old(f).field < 3,
    ensures
        final(f)@ == change_after(old(f)@, code, unlocked),
        final(f).field < 3,
        o == (match code {
            KeyCode::Enter => if change_error(old(f)@, unlocked) is None {
                ChangeOutcome::Change
            } else {
                ChangeOutcome::Stay
            },
            KeyCode::Esc => ChangeOutcome::Close,
            _ => ChangeOutcome::Stay,
        }),
{
    match code {
        KeyCode::Tab => {
            f.field = (f.field + 1) % 3;
            ChangeOutcome::Stay
        },
        KeyCode::BackTab => {
            f.field =
            if f.field == 0 {
                2
            } else {
                f.field - 1
            };
            ChangeOutcome::Stay
        },
        KeyCode::Char(c) => {
            if f.field == 0 {
                f.current.push(c);
            } else if f.field == 1 {
                f.new.push(c);
            } else {
                f.confirm.push(c);
            }
            ChangeOutcome::Stay
        },
        KeyCode::Backspace => {
            if f.field == 0 {
                delete_last(&mut f.current);
            } else if f.field == 1 {
                delete_last(&mut f.new);
            } else {
                delete_last(&mut f.confirm);
            }
            ChangeOutcome::Stay
        },
        KeyCode::Enter => {
            if f.current.as_str().is_empty() || f.new.as_str().is_empty()
                || f.confirm.as_str().is_empty() {
                f.error = "All fields are required!".to_owned();
                ChangeOutcome::Stay
            } else if f.new != f.confirm {
                f.error = "New passwords do not match!".to_owned();
                ChangeOutcome::Stay
            } else if !unlocked {
                f.error = "Vault is locked!".to_owned();
                ChangeOutcome::Stay
            } else {
                f.error.clear();
                ChangeOutcome::Change
            }
        },
        KeyCode::Esc => {
            f.wipe();
            ChangeOutcome::Close
        },
        _ => ChangeOutcome::Stay,
    }
}

/// What came of changing the master password.
#[derive(Debug)]
pub enum ChangeResult {
    Locked,
    WrongCurrent,
    Failed { error: String },
    /// The vault was changed but does not open again.
    NotReopened { error: String },
    Changed,
}

/// What the user is told of a change that failed.
pub open spec fn change_text(r: ChangeResult) -> Seq<char> {
    match r {
        ChangeResult::Locked => "Vault is locked!"@,
        ChangeResult::WrongCurrent => "Incorrect current password!"@,
        ChangeResult::Failed { error } => error@,
        ChangeResult::NotReopened { error } => "Password changed but failed to reopen the vault: "@
            + error@,
        ChangeResult::Changed => Seq::empty(),
    }
}

/// Takes note of what came of changing the master password: the entries are wiped on success,
/// otherwise the error is shown. Returns whether the screen is to be left.
pub fn perform_change_password(f: &mut ChangePasswordForm, r: &ChangeResult) -> (done: bool)
    ensures
        done == (*r is Changed),
        final(f)@.error == change_text(*r),
        done ==> final(f)@ == (ChangeView { field: old(f)@.field, ..empty_change() }),
        !done ==> final(f)@ == (ChangeView { error: change_text(*r), ..old(f)@ }),
{
    match r {
        ChangeResult::Changed => {
            f.wipe();
            true
        },
        ChangeResult::Locked => {
            f.error = "Vault is locked!".to_owned();
            false
        },
        ChangeResult::WrongCurrent => {
            f.error = "Incorrect current password!".to_owned();
            false
        },
        ChangeResult::Failed { error } => {
            f.error = error.clone();
            false
        },
        ChangeResult::NotReopened { error } => {
            let mut e = "Password changed but failed to reopen the vault: ".to_owned();
            e.append(error.as_str());
            f.error = e;
            false
        },
    }
}

/// `n` copies of a character.
pub open spec fn repeated(c: char, n: nat) -> Seq<char> {
    Seq::new(n, |i: int| c)
}

/// Appends `n` copies of a character.
pub fn push_repeated(s: &mut String, c: char, n: usize)
    ensures
        final(s)@ == old(s)@ + repeated(c, n as nat),
{
    let ghost before = s@;
    let mut i: usize = 0;
    assert(s@ =~= before + repeated(c, 0));
    while i < n
        invariant
            i <= n,
            s@ == before + repeated(c, i as nat),
        decreases n - i,
    {
        s.push(c);
        i += 1;
        assert(s@ =~= before + repeated(c, i as nat));
    }
}

/// A bar of ten cells, `filled` of which are full.
pub open spec fn bar_text(filled: nat) -> Seq<char> {
    " ["@ + repeated('█', filled) + repeated('░', (10 - filled) as nat) + "]"@
}

/// The bar, label and severity that are shown for a password; none is rated where it is empty.
pub fn get_strength_bar(password: &str) -> (r: (String, String, Option<Severity>))
    ensures
        password@.len() == 0 ==> r.0@ == bar_text(0) && r.1@ == " Empty"@ && r.2 is None,
        password@.len() > 0 ==> r.0@ == bar_text((2 * score_of(password@)) as nat) && r.1@ == " "@
            + severity_name(severity_of(password@)) && r.2 == Some(severity_of(password@)),
{
    if password.is_empty() {
        let mut bar = " [".to_owned();
        push_repeated(&mut bar, '█', 0);
        push_repeated(&mut bar, '░', 10);
        bar.append("]");
        return (bar, " Empty".to_owned(), None);
    }
    let (severity, _issues, score) = check_strength(password);
    proof {
        crate::strength::law_score_agrees_with_severity(password@);
    }
    let filled: usize = 2 * score as usize;
    let mut bar = " [".to_owned();
    push_repeated(&mut bar, '█', filled);
    push_repeated(&mut bar, '░', 10 - filled);
    bar.append("]");
    let mut label = " ".to_owned();
    label.append(severity.label());
    (bar, label, Some(severity))
}

/// The text of a record's password, if it opens and is text.
pub open spec fn readable_password(s: RecordView, key: Seq<u8>) -> Option<Seq<char>> {
    match opened(s.password, key) {
        Ok(p) => if valid_utf8(p) {
            Some(decode_utf8(p))
        } else {
            None
        },
        Err(_) => None,
    }
}

/// The lookup key of a record's password, if it opens and is text.
pub open spec fn record_fingerprint(s: RecordView, key: Seq<u8>) -> Option<Seq<char>> {
    match readable_password(s, key) {
        Some(t) => Some(fingerprint_of(encode_utf8(t), key)),
        None => None,
    }
}

/// Whether a record, other than the one being edited, has a password with this lookup key.
pub open spec fn shares(s: RecordView, f: Seq<char>, key: Seq<u8>, except: Option<i64>) -> bool {
    (except matches Some(id) ==> s.id != id) && record_fingerprint(s, key) == Some(f)
}

/// How many records, other than the one being edited, have a password with this lookup key.
pub open spec fn sharing(s: Seq<RecordView>, f: Seq<char>, key: Seq<u8>, except: Option<i64>) -> nat
    decreases s.len(),
{
    if s.len() == 0 {
        0
    } else {
        sharing(s.drop_last(), f, key, except) + (if shares(s.last(), f, key, except) {
            1nat
        } else {
            0nat
        })
    }
}

/// The text of a record's password, if it opens and is text.
pub fn read_password(s: &SecretRecord, key: &[u8; 32]) -> (r: Option<String>)
    ensures
        crate::db::records::text_opt(r) == readable_password(s@, key@),
{
    match decrypt(s.encrypted_password.as_slice(), key) {
        Ok(p) => utf8_text(p),
        Err(_) => None,
    }
}

/// The lookup keys of the records other than the one being edited.
pub fn reuse_fingerprints(all: &Vec<SecretRecord>, key: &[u8; 32], except: Option<i64>) -> (v: Vec<
    String,
>)
    ensures
        forall|f: Seq<char>| #[trigger]
            crate::audit::occurrences(texts(v@), f, v@.len() as int) == sharing(
                records(all@),
                f,
                key@,
                except,
            ),
{
    let mut v: Vec<String> = Vec::new();
    let ghost s = records(all@);
    let mut i: usize = 0;
    assert(s.take(0).len() == 0);
    while i < all.len()
        invariant
            i <= all@.len(),
            s == records(all@),
            v@.len() <= i,
            forall|f: Seq<char>| #[trigger]
                crate::audit::occurrences(texts(v@), f, v@.len() as int) == sharing(
                    s.take(i as int),
                    f,
                    key@,
                    except,
                ),
        decreases all@.len() - i,
    {
        assert(s.take(i + 1).drop_last() =~= s.take(i as int));
        assert(s.take(i + 1).last() == all@[i as int]@);
        let other = match except {
            Some(id) => all[i].id != id,
            None => true,
        };
        let ghost before = v@;
        if other {
            if let Some(mut pw) = read_password(&all[i], key) {
                let f = hibp_cache_fingerprint(pw.as_str().as_bytes(), key);
                wipe_text(&mut pw);
                v.push(f);
            }
        }
        assert forall|f: Seq<char>| #[trigger]
            crate::audit::occurrences(texts(v@), f, v@.len() as int) == sharing(
                s.take(i + 1),
                f,
                key@,
                except,
            ) by {
            lemma_occurrences_prefix(texts(v@), texts(before), f, before.len() as int);
        }
        i += 1;
    }
    assert(s.take(i as int) =~= s);
    v
}

proof fn lemma_occurrences_prefix(a: Seq<Seq<char>>, b: Seq<Seq<char>>, f: Seq<char>, n: int)
    requires
        0 <= n <= a.len(),
        n <= b.len(),
        forall|k: int| 0 <= k < n ==> a[k] == b[k],
    ensures
        crate::audit::occurrences(a, f, n) == crate::audit::occurrences(b, f, n),
    decreases n,
{
    if n > 0 {
        lemma_occurrences_prefix(a, b, f, n - 1);
    }
}

fn count_text(v: &Vec<String>, f: &String) -> (c: usize)
    ensures
        c == crate::audit::occurrences(texts(v@), f@, v@.len() as int),
{
    let mut c: usize = 0;
    let mut i: usize = 0;
    while i < v.len()
        invariant
            i <= v@.len(),
            c == crate::audit::occurrences(texts(v@), f@, i as int),
            c <= i,
        decreases v@.len() - i,
    {
        assert(texts(v@)[i as int] == v@[i as int]@);
        if v[i] == *f {
            c += 1;
        }
        i += 1;
    }
    c
}

/// What is said of a password that is being typed: how many other entries use it and how often
/// it is known to be breached, or that neither is known.
pub open spec fn warning_text(password: Seq<char>, reused: nat, breached: nat) -> Seq<char> {
    let a = if reused > 0 {
        "⚠ Reused in "@ + decimal(reused) + " other entry(ies)"@
    } else {
        Seq::empty()
    };
    let b = if breached > 0 {
        "⚠ Breached ("@ + decimal(breached) + " times in HIBP database)"@
    } else {
        Seq::empty()
    };
    if reused > 0 && breached > 0 {
        a + " | "@ + b
    } else if reused > 0 {
        a
    } else if breached > 0 {
        b
    } else if password.len() == 0 {
        "None"@
    } else {
        "✓ Unique & not known pwned (in local cache)"@
    }
}

/// The cached breach count of a lookup key; 0 where there is none.
pub open spec fn known_breaches(cache: Seq<crate::db::records::HibpView>, f: Seq<char>) -> nat {
    match cached(cache, f) {
        Some(Some(n)) => n as nat,
        _ => 0,
    }
}

/// How many of the fingerprints are that of the password; none without a password or a key.
pub open spec fn times_reused(fingerprints: Seq<Seq<char>>, password: Seq<char>, key: Option<
    Seq<u8>,
>) -> nat {
    match key {
        Some(k) => if password.len() == 0 {
            0
        } else {
            crate::audit::occurrences(
                fingerprints,
                fingerprint_of(encode_utf8(password), k),
                fingerprints.len() as int,
            )
        },
        None => 0,
    }
}

/// How often the password is known to be breached; not at all without a password or a key.
pub open spec fn times_breached(
    cache: Seq<crate::db::records::HibpView>,
    password: Seq<char>,
    key: Option<Seq<u8>>,
) -> nat {
    match key {
        Some(k) => if password.len() == 0 {
            0
        } else {
            known_breaches(cache, fingerprint_of(encode_utf8(password), k))
        },
        None => 0,
    }
}

/// What is said of the password that is being typed. `fingerprints` are those of the other
/// entries, taken once when the form opened.
pub fn audit_warning(
    password: &str,
    fingerprints: &Vec<String>,
    cache: &Vec<HibpCheck>,
    key: &Option<[u8; 32]>,
) -> (s: String)
    ensures
        s@ == warning_text(
            password@,
            times_reused(texts(fingerprints@), password@, key_opt(*key)),
            times_breached(checks(cache@), password@, key_opt(*key)),
        ),
{
    assert(texts(fingerprints@).len() == fingerprints@.len());
    let (reused, breached): (u64, u64) = match key {
        Some(k) => if password.is_empty() {
            (0, 0)
        } else {
            let f = hibp_cache_fingerprint(password.as_bytes(), k);
            let n: u64 = match cached_count(cache.as_slice(), &f) {
                Some(Some(n)) => n,
                _ => 0,
            };
            (count_text(fingerprints, &f) as u64, n)
        },
        None => (0, 0),
    };
    let mut a = "⚠ Reused in ".to_owned();
    a.append(decimal_text(reused).as_str());
    a.append(" other entry(ies)");
    let mut b = "⚠ Breached (".to_owned();
    b.append(decimal_text(breached).as_str());
    b.append(" times in HIBP database)");
    if reused > 0 && breached > 0 {
        a.append(" | ");
        a.append(b.as_str());
        a
    } else if reused > 0 {
        a
    } else if breached > 0 {
        b
    } else if password.is_empty() {
        "None".to_owned()
    } else {
        "✓ Unique & not known pwned (in local cache)".to_owned()
    }
}

/// The password generator's dialog.
#[derive(Debug)]
pub struct GeneratorDialog {
    pub options: GeneratorOptions,
    /// Whether passphrases are generated.
    pub passphrase_mode: bool,
    pub words: usize,
    pub password: String,
}

/// The options with lower-case letters switched on if nothing is switched on.
pub open spec fn usable(o: GeneratorOptions) -> GeneratorOptions {
    if selected(o).len() == 0 {
        GeneratorOptions { use_lowercase: true, ..o }
    } else {
        o
    }
}

/// Whether the dialog shows something generated by its options.
pub open spec fn shows_fresh(d: GeneratorDialog, list: Seq<Seq<char>>) -> bool {
    if d.passphrase_mode {
        exists|draws: Seq<usize>|
            picks(draws, list.len(), d.words as int) && d.password@ == #[trigger] hyphenated(
                list,
                draws,
            )
    } else {
        made_to(d.password@, d.options)
    }
}

/// Generates a new password or passphrase in the dialog. Where no character set is switched on,
/// lower-case letters are: an error message is no password.
pub fn regenerate_in_place(d: &mut GeneratorDialog, list: &Vec<String>)
    requires
        old(d).passphrase_mode ==> list@.len() > 0,
    ensures
        shows_fresh(*final(d), texts(list@)),
        final(d).passphrase_mode == old(d).passphrase_mode,
        final(d).words == old(d).words,
        final(d).options == (if old(d).passphrase_mode {
            old(d).options
        } else {
            usable(old(d).options)
        }),
{
    assert(texts(list@).len() == list@.len());
    wipe_text(&mut d.password);
    if d.passphrase_mode {
        d.password = generate_passphrase(list, d.words);
        return;
    }
    proof {
        lemma_selected(d.options);
        lemma_selected(usable(d.options));
    }
    if !d.options.use_lowercase && !d.options.use_uppercase && !d.options.use_numbers
        && !d.options.use_symbols {
        d.options.use_lowercase = true;
    }
    match generate_password(&d.options) {
        Ok(p) => {
            d.password = p;
        },
        Err(_) => {},
    }
}

/// Opens the dialog on the given options. A password is generated, whatever was generated last;
/// where no character set is switched on, none is shown.
pub fn open_generator(d: &mut GeneratorDialog, options: GeneratorOptions)
    ensures
        final(d).options == options,
        final(d).passphrase_mode == old(d).passphrase_mode,
        final(d).words == old(d).words,
        if selected(options).len() > 0 {
            made_to(final(d).password@, options)
        } else {
            final(d).password@.len() == 0
        },
{
    d.options = options;
    wipe_text(&mut d.password);
    match generate_password(&options) {
        Ok(p) => {
            d.password = p;
        },
        Err(_) => {},
    }
}

proof fn lemma_selected(o: GeneratorOptions)
    ensures
        selected(o).len() == 0 <==> !o.use_lowercase && !o.use_uppercase && !o.use_numbers
            && !o.use_symbols,
        selected(usable(o)).len() > 0,
{
}

/// What a key in the generator's dialog leads to.
#[derive(Debug, Clone, Copy, PartialEq, Eq, Structural)]
pub enum GeneratorOutcome {
    Stay,
    /// The options were changed: save them.
    Save,
    /// Copy what is shown.
    Copy,
    Close,
}

/// The options after a key, and whether they are to be saved.
pub open spec fn options_after(d: GeneratorDialog, key: KeyCode) -> (GeneratorOptions, bool) {
    let o = d.options;
    match key {
        KeyCode::Char(c) => if c == '1' {
            (GeneratorOptions { use_uppercase: !o.use_uppercase, ..o }, true)
        } else if c == '2' {
            (GeneratorOptions { use_numbers: !o.use_numbers, ..o }, true)
        } else if c == '3' {
            (GeneratorOptions { use_symbols: !o.use_symbols, ..o }, true)
        } else {
            (o, false)
        },
        KeyCode::Left => if !d.passphrase_mode && o.length > MIN_LENGTH {
            (GeneratorOptions { length: (o.length - 1) as usize, ..o }, true)
        } else {
            (o, false)
        },
        KeyCode::Right => if !d.passphrase_mode && o.length < MAX_LENGTH {
            (GeneratorOptions { length: (o.length + 1) as usize, ..o }, true)
        } else {
            (o, false)
        },
        _ => (o, false),
    }
}

/// The number of words after a key.
pub open spec fn words_after(d: GeneratorDialog, key: KeyCode) -> usize {
    match key {
        KeyCode::Left => if d.passphrase_mode && d.words > MIN_WORDS {
            (d.words - 1) as usize
        } else {
            d.words
        },
        KeyCode::Right => if d.passphrase_mode && d.words < MAX_WORDS {
            (d.words + 1) as usize
        } else {
            d.words
        },
        _ => d.words,
    }
}

/// Whether a key makes the dialog generate anew.
pub open spec fn regenerates(d: GeneratorDialog, key: KeyCode) -> bool {
    ||| options_after(d, key).1
    ||| words_after(d, key) != d.words
    ||| key == KeyCode::Char('w') || key == KeyCode::Char('r') || key == KeyCode::Enter
}

/// Handles a key in the generator's dialog. `list` are the words of passphrases. The options to
/// save are those before a fallback to lower-case letters.
pub fn handle_generator_input(d: &mut GeneratorDialog, key: KeyCode, list: &Vec<String>) -> (r: (
    GeneratorOutcome,
    GeneratorOptions,
))
    requires
        old(d).passphrase_mode || key == KeyCode::Char('w') ==> list@.len() > 0,
    ensures
        r.0 == (if key == KeyCode::Esc || key == KeyCode::Char('q') {
            GeneratorOutcome::Close
        } else if key == KeyCode::Char('c') {
            GeneratorOutcome::Copy
        } else if options_after(*old(d), key).1 {
            GeneratorOutcome::Save
        } else {
            GeneratorOutcome::Stay
        }),
        r.1 == options_after(*old(d), key).0,
        final(d).words == words_after(*old(d), key),
        final(d).passphrase_mode == (old(d).passphrase_mode != (key == KeyCode::Char('w'))),
        regenerates(*old(d), key) ==> shows_fresh(*final(d), texts(list@)) && final(d).options == (
        if final(d).passphrase_mode {
            r.1
        } else {
            usable(r.1)
        }),
        !regenerates(*old(d), key) ==> final(d).options == old(d).options && final(d).password@ == (
        if key == KeyCode::Esc || key == KeyCode::Char('q') {
            Seq::empty()
        } else {
            old(d).password@
        }),
{
    match key {
        KeyCode::Esc | KeyCode::Char('q') => {
            wipe_text(&mut d.password);
            (GeneratorOutcome::Close, d.options)
        },
        KeyCode::Char('1') => {
            d.options.use_uppercase = !d.options.use_uppercase;
            let o = d.options;
            regenerate_in_place(d, list);
            (GeneratorOutcome::Save, o)
        },
        KeyCode::Char('2') => {
            d.options.use_numbers = !d.options.use_numbers;
            let o = d.options;
            regenerate_in_place(d, list);
            (GeneratorOutcome::Save, o)
        },
        KeyCode::Char('3') => {
            d.options.use_symbols = !d.options.use_symbols;
            let o = d.options;
            regenerate_in_place(d, list);
            (GeneratorOutcome::Save, o)
        },
        KeyCode::Char('w') => {
            d.passphrase_mode = !d.passphrase_mode;
            let o = d.options;
            regenerate_in_place(d, list);
            (GeneratorOutcome::Stay, o)
        },
        KeyCode::Left => {
            if d.passphrase_mode {
                if d.words > MIN_WORDS {
                    d.words = d.words - 1;
                    regenerate_in_place(d, list);
                }
                (GeneratorOutcome::Stay, d.options)
            } else if d.options.length > MIN_LENGTH {
                d.options.length = d.options.length - 1;
                let o = d.options;
                regenerate_in_place(d, list);
                (GeneratorOutcome::Save, o)
            } else {
                (GeneratorOutcome::Stay, d.options)
            }
        },
        KeyCode::Right => {
            if d.passphrase_mode {
                if d.words < MAX_WORDS {
                    d.words = d.words + 1;
                    regenerate_in_place(d, list);
                }
                (GeneratorOutcome::Stay, d.options)
            } else if d.options.length < MAX_LENGTH {
                d.options.length = d.options.length + 1;
                let o = d.options;
                regenerate_in_place(d, list);
                (GeneratorOutcome::Save, o)
            } else {
                (GeneratorOutcome::Stay, d.options)
            }
        },
        KeyCode::Char('r') | KeyCode::Enter => {
            let o = d.options;
            regenerate_in_place(d, list);
            (GeneratorOutcome::Stay, o)
        },
        KeyCode::Char('c') => (GeneratorOutcome::Copy, d.options),
        _ => (GeneratorOutcome::Stay, d.options),
    }
}

/// The password generator never shows an error in place of a password: whatever is switched off,
/// what it generates from is not empty.
pub proof fn law_generator_always_has_characters(o: GeneratorOptions)
    ensures
        selected(usable(o)).len() > 0,
{
    lemma_selected(o);
}

} // verus!
