//! The settings screen.
use vstd::prelude::*;
use vstd::string::*;

use crate::config::{clamp_clipboard, clamp_idle, sane_clipboard, sane_idle, AppConfig};
use crate::generator::{bounded, clamp, GeneratorOptions, MAX_LENGTH, MIN_LENGTH};
use crate::keys::{delete_last, is_digit, shortened, KeyCode};
use crate::strength::ascii_digit;
use crate::text::{chars_of, decimal, decimal_text, parse_unsigned, unsigned_value};

verus! {

/// The number of settings. They are laid out two to a row; the last row holds one.
pub const SETTINGS_FIELD_COUNT: usize = 9;

/// The number of rows that the settings take.
pub const SETTINGS_GRID_ROWS: usize = 5;

/// Where a key moves the focus: up and down within a column, from its end to its other end; left
/// and right within a row; the tabulator through all settings in turn.
pub open spec fn step_of(field: int, key: KeyCode) -> int {
    match key {
        KeyCode::Up => if field >= 2 {
            field - 2
        } else if field % 2 == 0 {
            8
        } else {
            7
        },
        KeyCode::Down => if field + 2 < 9 {
            field + 2
        } else {
            field % 2
        },
        KeyCode::Left | KeyCode::Right => if field == 8 {
            8
        } else if field % 2 == 0 {
            field + 1
        } else {
            field - 1
        },
        KeyCode::Tab => (field + 1) % 9,
        KeyCode::BackTab => (field + 8) % 9,
        _ => field,
    }
}

/// Where a key moves the focus.
pub fn settings_field_step(field: usize, key: KeyCode) -> (r: usize)
    requires
        field < SETTINGS_FIELD_COUNT,
    ensures
        r == step_of(field as int, key),
        r < SETTINGS_FIELD_COUNT,
{
    match key {
        KeyCode::Up => if field >= 2 {
            field - 2
        } else if field % 2 == 0 {
            8
        } else {
            7
        },
        KeyCode::Down => if field + 2 < 9 {
            field + 2
        } else {
            field % 2
        },
        KeyCode::Left | KeyCode::Right => if field == 8 {
            8
        } else if field % 2 == 0 {
            field + 1
        } else {
            field - 1
        },
        KeyCode::Tab => (field + 1) % 9,
        KeyCode::BackTab => (field + 8) % 9,
        _ => field,
    }
}

/// Opposite keys undo each other, and none leads out of the settings.
pub proof fn law_opposite_steps_cancel(field: int)
    requires
        0 <= field < 9,
    ensures
        step_of(step_of(field, KeyCode::Up), KeyCode::Down) == field,
        step_of(step_of(field, KeyCode::Down), KeyCode::Up) == field,
        step_of(step_of(field, KeyCode::Tab), KeyCode::BackTab) == field,
        step_of(step_of(field, KeyCode::BackTab), KeyCode::Tab) == field,
        step_of(step_of(field, KeyCode::Left), KeyCode::Right) == field,
        forall|k: KeyCode| 0 <= #[trigger] step_of(field, k) < 9,
{
}

/// The field after a number of steps with one key.
pub open spec fn steps(field: int, key: KeyCode, n: nat) -> int
    decreases n,
{
    if n == 0 {
        field
    } else {
        step_of(steps(field, key, (n - 1) as nat), key)
    }
}

/// The tabulator leads from the first setting to every other one.
pub proof fn law_tab_reaches_every_setting(field: nat)
    requires
        field < 9,
    ensures
        steps(0, KeyCode::Tab, field) == field,
    decreases field,
{
    if field > 0 {
        law_tab_reaches_every_setting((field - 1) as nat);
    }
}

/// How many rows of settings fit in a box of the given height: at least one.
pub open spec fn fitting_rows(height: int) -> int {
    bounded((height - 7) / 3, 1, SETTINGS_GRID_ROWS as int)
}

/// The first row that is shown, so that the focused one is among those that fit.
pub open spec fn first_row(height: int, field: int) -> int {
    let rows = fitting_rows(height);
    let row = field / 2;
    bounded(row - (rows - 1), 0, SETTINGS_GRID_ROWS as int - rows)
}

/// How many rows of settings fit in a box of the given height, and which one is the first shown.
pub fn settings_grid_scroll(area_height: u16, active_settings_field: usize) -> (r: (usize, usize))
    ensures
        r.0 == fitting_rows(area_height as int),
        r.1 == first_row(area_height as int, active_settings_field as int),
{
    let h: usize = area_height as usize;
    let usable: usize = if h >= 7 {
        h - 7
    } else {
        0
    };
    let rows: usize = clamp(usable / 3, 1, SETTINGS_GRID_ROWS);
    let row: usize = active_settings_field / 2;
    let lead: usize = rows - 1;
    let top: usize = if row > lead {
        row - lead
    } else {
        0
    };
    let most: usize = SETTINGS_GRID_ROWS - rows;
    let first: usize = if top > most {
        most
    } else {
        top
    };
    (rows, first)
}

/// The focused setting is always among the rows shown, and they are all there.
pub proof fn law_focused_setting_is_shown(height: int, field: int)
    requires
        0 <= height,
        0 <= field < 9,
    ensures
        first_row(height, field) <= field / 2 < first_row(height, field) + fitting_rows(height),
        0 <= first_row(height, field),
        first_row(height, field) + fitting_rows(height) <= SETTINGS_GRID_ROWS,
        1 <= fitting_rows(height),
{
}

/// The settings screen: what is typed, and where the focus is.
#[derive(Debug)]
pub struct SettingsForm {
    pub idle_timeout: String,
    pub clipboard_clear: String,
    pub auto_sync: bool,
    pub gen_length: String,
    pub gen_lowercase: bool,
    pub gen_uppercase: bool,
    pub gen_numbers: bool,
    pub gen_symbols: bool,
    pub history_retention: String,
    pub active: usize,
    /// Whether the focused setting was edited since it got the focus.
    pub touched: bool,
}

/// What the settings screen holds.
pub struct SettingsView {
    pub idle_timeout: Seq<char>,
    pub clipboard_clear: Seq<char>,
    pub auto_sync: bool,
    pub gen_length: Seq<char>,
    pub gen_lowercase: bool,
    pub gen_uppercase: bool,
    pub gen_numbers: bool,
    pub gen_symbols: bool,
    pub history_retention: Seq<char>,
    pub active: int,
    pub touched: bool,
}

impl View for SettingsForm {
    type V = SettingsView;

    open spec fn view(&self) -> SettingsView {
        SettingsView {
            idle_timeout: self.idle_timeout@,
            clipboard_clear: self.clipboard_clear@,
            auto_sync: self.auto_sync,
            gen_length: self.gen_length@,
            gen_lowercase: self.gen_lowercase,
            gen_uppercase: self.gen_uppercase,
            gen_numbers: self.gen_numbers,
            gen_symbols: self.gen_symbols,
            history_retention: self.history_retention@,
            active: self.active as int,
            touched: self.touched,
        }
    }
}

/// The screen as it opens on the given settings.
pub open spec fn opened_on(c: AppConfig) -> SettingsView {
    SettingsView {
        idle_timeout: decimal(c.idle_timeout_seconds as nat),
        clipboard_clear: decimal(c.clipboard_clear_seconds as nat),
        auto_sync: c.auto_sync,
        gen_length: decimal(c.generator.length as nat),
        gen_lowercase: c.generator.use_lowercase,
        gen_uppercase: c.generator.use_uppercase,
        gen_numbers: c.generator.use_numbers,
        gen_symbols: c.generator.use_symbols,
        history_retention: decimal(c.history_retention as nat),
        active: 0,
        touched: false,
    }
}

/// Opens the settings screen on the given settings.
pub fn open_settings(c: &AppConfig) -> (f: SettingsForm)
    ensures
        f@ == opened_on(*c),
{
    SettingsForm {
        idle_timeout: decimal_text(c.idle_timeout_seconds),
        clipboard_clear: decimal_text(c.clipboard_clear_seconds),
        auto_sync: c.auto_sync,
        gen_length: decimal_text(c.generator.length as u64),
        gen_lowercase: c.generator.use_lowercase,
        gen_uppercase: c.generator.use_uppercase,
        gen_numbers: c.generator.use_numbers,
        gen_symbols: c.generator.use_symbols,
        history_retention: decimal_text(c.history_retention),
        active: 0,
        touched: false,
    }
}

/// What a digit makes of a number: the first one after the focus came replaces it.
pub open spec fn typed(s: Seq<char>, touched: bool, c: char) -> Seq<char> {
    if touched {
        s.push(c)
    } else {
        seq![c]
    }
}

/// What a deletion makes of a number: all of it goes if it was not edited yet.
pub open spec fn erased(s: Seq<char>, touched: bool) -> Seq<char> {
    if touched {
        shortened(s)
    } else {
        Seq::empty()
    }
}

/// The screen after a character was typed: digits go into numbers, a space flips switches.
pub open spec fn after_char(v: SettingsView, c: char) -> SettingsView {
    if v.active == 0 && ascii_digit(c) {
        SettingsView { idle_timeout: typed(v.idle_timeout, v.touched, c), touched: true, ..v }
    } else if v.active == 1 && ascii_digit(c) {
        SettingsView { clipboard_clear: typed(v.clipboard_clear, v.touched, c), touched: true, ..v }
    } else if v.active == 3 && ascii_digit(c) {
        SettingsView { gen_length: typed(v.gen_length, v.touched, c), touched: true, ..v }
    } else if v.active == 8 && ascii_digit(c) {
        SettingsView {
            history_retention: typed(v.history_retention, v.touched, c),
            touched: true,
            ..v
        }
    } else if c == ' ' {
        SettingsView {
            auto_sync: v.auto_sync != (v.active == 2),
            gen_lowercase: v.gen_lowercase != (v.active == 4),
            gen_uppercase: v.gen_uppercase != (v.active == 5),
            gen_numbers: v.gen_numbers != (v.active == 6),
            gen_symbols: v.gen_symbols != (v.active == 7),
            ..v
        }
    } else {
        v
    }
}

/// The screen after a deletion.
pub open spec fn after_backspace(v: SettingsView) -> SettingsView {
    SettingsView {
        idle_timeout: if v.active == 0 {
            erased(v.idle_timeout, v.touched)
        } else {
            v.idle_timeout
        },
        clipboard_clear: if v.active == 1 {
            erased(v.clipboard_clear, v.touched)
        } else {
            v.clipboard_clear
        },
        gen_length: if v.active == 3 {
            erased(v.gen_length, v.touched)
        } else {
            v.gen_length
        },
        history_retention: if v.active == 8 {
            erased(v.history_retention, v.touched)
        } else {
            v.history_retention
        },
        touched: true,
        ..v
    }
}

/// Whether a key moves the focus.
pub open spec fn moves(key: KeyCode) -> bool {
    key == KeyCode::Up || key == KeyCode::Down || key == KeyCode::Left || key == KeyCode::Right
        || key == KeyCode::Tab || key == KeyCode::BackTab
}

/// The screen after a key.
pub open spec fn settings_after(v: SettingsView, key: KeyCode) -> SettingsView {
    if moves(key) {
        SettingsView { active: step_of(v.active, key), touched: false, ..v }
    } else {
        match key {
            KeyCode::Char(c) => after_char(v, c),
            KeyCode::Backspace => after_backspace(v),
            _ => v,
        }
    }
}

/// The number in a field, or the given one if it is none.
pub open spec fn number_or(s: Seq<char>, max: nat, other: nat) -> nat {
    match unsigned_value(s, max) {
        Some(n) => n,
        None => other,
    }
}

/// How many snapshots are kept: all, or at least ten, which resolving conflicts relies on.
pub open spec fn sane_retention(n: u64) -> u64 {
    if n == 0 {
        0
    } else if n < 10 {
        10
    } else {
        n
    }
}

/// The settings that the screen stands for, each number brought into range.
pub open spec fn config_of(v: SettingsView) -> AppConfig {
    AppConfig {
        idle_timeout_seconds: sane_idle(number_or(v.idle_timeout, u64::MAX as nat, 300) as u64),
        clipboard_clear_seconds: sane_clipboard(
            number_or(v.clipboard_clear, u64::MAX as nat, 5) as u64,
        ),
        auto_sync: v.auto_sync,
        history_retention: sane_retention(
            number_or(v.history_retention, u64::MAX as nat, 0) as u64,
        ),
        generator: GeneratorOptions {
            length: bounded(
                number_or(v.gen_length, usize::MAX as nat, 20) as int,
                MIN_LENGTH as int,
                MAX_LENGTH as int,
            ) as usize,
            use_lowercase: v.gen_lowercase,
            use_uppercase: v.gen_uppercase,
            use_numbers: v.gen_numbers,
            use_symbols: v.gen_symbols,
        },
    }
}

/// What a key on the settings screen leads to.
#[derive(Debug, Clone, Copy, PartialEq, Eq, Structural)]
pub enum SettingsOutcome {
    Stay,
    /// Back to the dashboard without saving.
    Close,
    /// Save these settings and go back.
    Save { config: AppConfig },
}

fn type_digit(s: &mut String, touched: bool, c: char)
    ensures
        final(s)@ == typed(old(s)@, touched, c),
{
    if !touched {
        s.clear();
    }
    s.push(c);
    assert(!touched ==> s@ =~= seq![c]);
}

fn erase(s: &mut String, touched: bool)
    ensures
        final(s)@ == erased(old(s)@, touched),
{
    if touched {
        delete_last(s);
    } else {
        s.clear();
    }
}

fn number_in(s: &String, max: u64, other: u64) -> (n: u64)
    requires
        other <= max,
    ensures
        n == number_or(s@, max as nat, other as nat),
        n <= max,
{
    let v = chars_of(s.as_str());
    match parse_unsigned(v.as_slice(), max) {
        Some(n) => n,
        None => other,
    }
}

impl SettingsForm {
    fn type_char(&mut self, c: char)
        ensures
            final(self)@ == after_char(old(self)@, c),
    {
        let digit = is_digit(c);
        if self.active == 0 && digit {
            type_digit(&mut self.idle_timeout, self.touched, c);
            self.touched = true;
        } else if self.active == 1 && digit {
            type_digit(&mut self.clipboard_clear, self.touched, c);
            self.touched = true;
        } else if self.active == 3 && digit {
            type_digit(&mut self.gen_length, self.touched, c);
            self.touched = true;
        } else if self.active == 8 && digit {
            type_digit(&mut self.history_retention, self.touched, c);
            self.touched = true;
        } else if c == ' ' {
            if self.active == 2 {
                self.auto_sync = !self.auto_sync;
            } else if self.active == 4 {
                self.gen_lowercase = !self.gen_lowercase;
            } else if self.active == 5 {
                self.gen_uppercase = !self.gen_uppercase;
            } else if self.active == 6 {
                self.gen_numbers = !self.gen_numbers;
            } else if self.active == 7 {
                self.gen_symbols = !self.gen_symbols;
            }
        }
    }

    fn backspace(&mut self)
        ensures
            final(self)@ == after_backspace(old(self)@),
    {
        if self.active == 0 {
            erase(&mut self.idle_timeout, self.touched);
        } else if self.active == 1 {
            erase(&mut self.clipboard_clear, self.touched);
        } else if self.active == 3 {
            erase(&mut self.gen_length, self.touched);
        } else if self.active == 8 {
            erase(&mut self.history_retention, self.touched);
        }
        self.touched = true;
    }

    /// The settings that the screen stands for.
    pub fn to_config(&self) -> (c: AppConfig)
        ensures
            c == config_of(self@),
    {
        let length: u64 = number_in(&self.gen_length, usize::MAX as u64, 20);
        let kept: u64 = number_in(&self.history_retention, u64::MAX, 0);
        AppConfig {
            idle_timeout_seconds: clamp_idle(number_in(&self.idle_timeout, u64::MAX, 300)),
            clipboard_clear_seconds: clamp_clipboard(
                number_in(&self.clipboard_clear, u64::MAX, 5),
            ),
            auto_sync: self.auto_sync,
            history_retention: if kept == 0 {
                0
            } else if kept < 10 {
                10
            } else {
                kept
            },
            generator: GeneratorOptions {
                length: clamp(length as usize, MIN_LENGTH, MAX_LENGTH),
                use_lowercase: self.gen_lowercase,
                use_uppercase: self.gen_uppercase,
                use_numbers: self.gen_numbers,
                use_symbols: self.gen_symbols,
            },
        }
    }
}

/// Handles a key on the settings screen.
pub fn handle_settings_input(f: &mut SettingsForm, key: KeyCode) -> (o: SettingsOutcome)
    requires
        old(f).active < SETTINGS_FIELD_COUNT,
    ensures
        final(f)@ == settings_after(old(f)@, key),
        final(f).active < SETTINGS_FIELD_COUNT,
        o == (match key {
            KeyCode::Esc => SettingsOutcome::Close,
            KeyCode::Enter => SettingsOutcome::Save { config: config_of(old(f)@) },
            _ => SettingsOutcome::Stay,
        }),
{
    match key {
        KeyCode::Esc => SettingsOutcome::Close,
        KeyCode::Up
        | KeyCode::Down
        | KeyCode::Left
        | KeyCode::Right
        | KeyCode::Tab
        | KeyCode::BackTab => {
            f.active = settings_field_step(f.active, key);
            f.touched = false;
            SettingsOutcome::Stay
        },
        KeyCode::Char(c) => {
            f.type_char(c);
            SettingsOutcome::Stay
        },
        KeyCode::Backspace => {
            f.backspace();
            SettingsOutcome::Stay
        },
        KeyCode::Enter => SettingsOutcome::Save { config: f.to_config() },
        _ => SettingsOutcome::Stay,
    }
}

/// Whatever is typed, the settings that are saved are in range, as those that are loaded are.
pub proof fn law_saved_settings_are_in_range(v: SettingsView)
    ensures
        crate::config::sane(config_of(v)) == config_of(v),
        MIN_LENGTH <= config_of(v).generator.length <= MAX_LENGTH,
        config_of(v).history_retention == 0 || config_of(v).history_retention >= 10,
{
}

} // verus!
