//! The settings screen and the settings themselves.
use keystash::config::{warn_and_quarantine, AppConfig, ConfigAction, ConfigFile};
use keystash::keys::KeyCode;
use keystash::settings::{
    handle_settings_input, open_settings, settings_field_step, settings_grid_scroll,
    SettingsOutcome, SETTINGS_FIELD_COUNT, SETTINGS_GRID_ROWS,
};

#[test]
fn all_grid_rows_fit_on_a_generously_sized_terminal() {
    let (rows_that_fit, scroll_offset) = settings_grid_scroll(40, 0);
    assert_eq!(rows_that_fit, SETTINGS_GRID_ROWS);
    assert_eq!(scroll_offset, 0);
}

#[test]
fn a_standard_80x24_terminal_shows_at_least_one_full_row() {
    let (rows_that_fit, _) = settings_grid_scroll(21, 0);
    assert!(rows_that_fit >= 1, "must always show at least one full row");
}

#[test]
fn scroll_never_leaves_less_than_a_full_row_visible() {
    for height in 0..=60u16 {
        for active_field in 0..SETTINGS_FIELD_COUNT {
            let (rows_that_fit, scroll_offset) = settings_grid_scroll(height, active_field);
            assert!(rows_that_fit >= 1, "height={height}: rows_that_fit must never be 0");

            let active_row = active_field / 2;
            assert!(
                active_row >= scroll_offset && active_row < scroll_offset + rows_that_fit,
                "height={height} active_field={active_field}: active row {active_row} not visible"
            );
            assert!(
                scroll_offset + rows_that_fit <= SETTINGS_GRID_ROWS,
                "height={height} active_field={active_field}: runs past the last row"
            );
        }
    }
}

#[test]
fn tabbing_through_every_field_on_a_tiny_terminal_eventually_shows_each_one() {
    let tiny_height = 10;
    let (rows_that_fit, _) = settings_grid_scroll(tiny_height, 0);
    assert_eq!(rows_that_fit, 1);

    let mut rows_seen = std::collections::HashSet::new();
    for active_field in 0..SETTINGS_FIELD_COUNT {
        let (fit, offset) = settings_grid_scroll(tiny_height, active_field);
        for r in offset..offset + fit {
            rows_seen.insert(r);
        }
    }
    assert_eq!(rows_seen, (0..SETTINGS_GRID_ROWS).collect());
}

#[test]
fn settings_field_step_matches_the_grid_layout() {
    let cases = [
        (1usize, KeyCode::Down, 3usize),
        (3, KeyCode::Down, 5),
        (6, KeyCode::Down, 8),
        (8, KeyCode::Down, 0),
        (7, KeyCode::Down, 1),
        (3, KeyCode::Up, 1),
        (8, KeyCode::Up, 6),
        (0, KeyCode::Up, 8),
        (1, KeyCode::Up, 7),
        (2, KeyCode::Left, 3),
        (1, KeyCode::Left, 0),
        (7, KeyCode::Right, 6),
        (8, KeyCode::Left, 8),
        (8, KeyCode::Right, 8),
        (8, KeyCode::Tab, 0),
        (0, KeyCode::BackTab, 8),
        (3, KeyCode::Tab, 4),
        (4, KeyCode::BackTab, 3),
    ];
    for (field, key, expected) in cases {
        let actual = settings_field_step(field, key);
        assert_eq!(actual, expected, "field {field} + {key:?}");
    }
}

#[test]
fn settings_field_step_never_leaves_the_valid_range() {
    for field in 0..SETTINGS_FIELD_COUNT {
        for key in [
            KeyCode::Up,
            KeyCode::Down,
            KeyCode::Left,
            KeyCode::Right,
            KeyCode::Tab,
            KeyCode::BackTab,
        ] {
            assert!(settings_field_step(field, key) < SETTINGS_FIELD_COUNT);
        }
    }
}

#[test]
fn opposite_steps_cancel() {
    for field in 0..SETTINGS_FIELD_COUNT {
        for (a, b) in [(KeyCode::Up, KeyCode::Down), (KeyCode::Tab, KeyCode::BackTab)] {
            assert_eq!(settings_field_step(settings_field_step(field, a), b), field);
            assert_eq!(settings_field_step(settings_field_step(field, b), a), field);
        }
    }
}

#[test]
fn settings_numeric_field_replaces_stale_value_on_first_keystroke() {
    let mut form = open_settings(&AppConfig::default());
    form.clipboard_clear = "10".to_string();
    form.active = 1;
    form.touched = false;

    handle_settings_input(&mut form, KeyCode::Char('5'));
    assert_eq!(form.clipboard_clear, "5");
    handle_settings_input(&mut form, KeyCode::Char('2'));
    assert_eq!(form.clipboard_clear, "52");

    handle_settings_input(&mut form, KeyCode::Tab);
    handle_settings_input(&mut form, KeyCode::BackTab);
    assert!(!form.touched);
    handle_settings_input(&mut form, KeyCode::Char('9'));
    assert_eq!(form.clipboard_clear, "9");

    form.clipboard_clear = "300".to_string();
    form.touched = false;
    handle_settings_input(&mut form, KeyCode::Backspace);
    assert_eq!(form.clipboard_clear, "");
}

#[test]
fn saved_settings_are_brought_into_range() {
    let mut form = open_settings(&AppConfig::default());
    assert_eq!(form.idle_timeout, "300");
    assert_eq!(form.clipboard_clear, "5");
    form.idle_timeout = "0".to_string();
    form.clipboard_clear = "99999".to_string();
    form.gen_length = "1".to_string();
    form.history_retention = "3".to_string();
    form.active = 2;
    assert_eq!(handle_settings_input(&mut form, KeyCode::Char(' ')), SettingsOutcome::Stay);
    match handle_settings_input(&mut form, KeyCode::Enter) {
        SettingsOutcome::Save { config } => {
            assert_eq!(config.idle_timeout_seconds, 10);
            assert_eq!(config.clipboard_clear_seconds, 3600);
            assert_eq!(config.generator.length, 4);
            assert_eq!(config.history_retention, 10);
            assert!(!config.auto_sync);
        }
        other => panic!("{:?}", other),
    }
    form.idle_timeout = String::new();
    form.clipboard_clear = "x".to_string();
    form.gen_length = String::new();
    form.history_retention = "0".to_string();
    match handle_settings_input(&mut form, KeyCode::Enter) {
        SettingsOutcome::Save { config } => {
            assert_eq!(config.idle_timeout_seconds, 300);
            assert_eq!(config.clipboard_clear_seconds, 5);
            assert_eq!(config.generator.length, 20);
            assert_eq!(config.history_retention, 0);
        }
        other => panic!("{:?}", other),
    }
    assert_eq!(handle_settings_input(&mut form, KeyCode::Esc), SettingsOutcome::Close);
}

#[test]
fn loaded_settings_are_brought_into_range() {
    let mut config = AppConfig::default();
    assert_eq!(config.clipboard_clear_seconds, 5);
    config.idle_timeout_seconds = 0;
    config.clipboard_clear_seconds = 0;
    let (loaded, action) = AppConfig::load(ConfigFile::Parsed { config });
    assert_eq!(loaded.idle_timeout_seconds, 10);
    assert_eq!(loaded.clipboard_clear_seconds, 1);
    assert_eq!(action, ConfigAction::Keep);
    assert_eq!(AppConfig::load(ConfigFile::Missing), (AppConfig::default(), ConfigAction::WriteDefaults));
    assert_eq!(AppConfig::load(ConfigFile::Broken), (AppConfig::default(), ConfigAction::Quarantine));
}

#[test]
fn broken_settings_are_reported() {
    assert_eq!(
        warn_and_quarantine("/c/config.json", "bad", &Some("/c/config.json.bad".to_string())),
        "Warning: \"/c/config.json\" could not be read (bad) -- moved aside to \
         \"/c/config.json.bad\" and reset to defaults."
    );
    assert_eq!(
        warn_and_quarantine("/c/config.json", "bad", &None),
        "Warning: \"/c/config.json\" could not be read (bad) -- resetting to defaults."
    );
}
