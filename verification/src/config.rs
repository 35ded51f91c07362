//! The settings of the program.
use vstd::prelude::*;
use vstd::string::*;

use crate::generator::GeneratorOptions;
use crate::text::{debug_text, quoted};

verus! {

/// The settings of the program.
#[derive(Debug, Clone, Copy, PartialEq, Eq, Structural)]
pub struct AppConfig {
    /// Seconds without a key press before the vault locks.
    pub idle_timeout_seconds: u64,
    /// Seconds before a copied secret is cleared from the clipboard.
    pub clipboard_clear_seconds: u64,
    pub auto_sync: bool,
    /// How many snapshots of the repository's history to keep; 0 keeps all.
    pub history_retention: u64,
    pub generator: GeneratorOptions,
}

/// The settings of a new installation.
pub open spec fn default_config() -> AppConfig {
    AppConfig {
        idle_timeout_seconds: 300,
        clipboard_clear_seconds: 5,
        auto_sync: true,
        history_retention: 0,
        generator: crate::generator::default_options(),
    }
}

impl Default for AppConfig {
    fn default() -> (c: AppConfig)
        ensures
            c == default_config(),
    {
        AppConfig {
            idle_timeout_seconds: 300,
            clipboard_clear_seconds: 5,
            auto_sync: true,
            history_retention: 0,
            generator: GeneratorOptions::default(),
        }
    }
}

/// An idle timeout that does not lock the vault at once.
pub open spec fn sane_idle(n: u64) -> u64 {
    if n < 10 {
        10
    } else {
        n
    }
}

/// A clipboard delay between a second and an hour.
pub open spec fn sane_clipboard(n: u64) -> u64 {
    if n < 1 {
        1
    } else if n > 3600 {
        3600
    } else {
        n
    }
}

/// The settings with their times brought into range.
pub open spec fn sane(c: AppConfig) -> AppConfig {
    AppConfig {
        idle_timeout_seconds: sane_idle(c.idle_timeout_seconds),
        clipboard_clear_seconds: sane_clipboard(c.clipboard_clear_seconds),
        ..c
    }
}

/// Brings an idle timeout into range.
pub fn clamp_idle(n: u64) -> (r: u64)
    ensures
        r == sane_idle(n),
{
    if n < 10 {
        10
    } else {
        n
    }
}

/// Brings a clipboard delay into range.
pub fn clamp_clipboard(n: u64) -> (r: u64)
    ensures
        r == sane_clipboard(n),
{
    if n < 1 {
        1
    } else if n > 3600 {
        3600
    } else {
        n
    }
}

/// What came of reading the settings file.
#[derive(Debug, Clone, Copy, PartialEq, Eq, Structural)]
pub enum ConfigFile {
    Missing,
    /// It cannot be read, or does not hold settings.
    Broken,
    Parsed { config: AppConfig },
}

/// What is to be done with the settings file.
#[derive(Debug, Clone, Copy, PartialEq, Eq, Structural)]
pub enum ConfigAction {
    Keep,
    /// Write the defaults.
    WriteDefaults,
    /// Move the broken file aside, say so, and write the defaults.
    Quarantine,
}

impl AppConfig {
    /// The settings to use, and what is to be done with the file: settings that were read are
    /// brought into range, otherwise the defaults are used; a broken file is never overwritten.
    pub fn load(file: ConfigFile) -> (r: (AppConfig, ConfigAction))
        ensures
            r.0 == (match file {
                ConfigFile::Parsed { config } => sane(config),
                _ => default_config(),
            }),
            r.1 == (match file {
                ConfigFile::Parsed { config } => ConfigAction::Keep,
                ConfigFile::Missing => ConfigAction::WriteDefaults,
                ConfigFile::Broken => ConfigAction::Quarantine,
            }),
    {
        match file {
            ConfigFile::Parsed { config } => {
                let mut c = config;
                c.idle_timeout_seconds = clamp_idle(c.idle_timeout_seconds);
                c.clipboard_clear_seconds = clamp_clipboard(c.clipboard_clear_seconds);
                (c, ConfigAction::Keep)
            },
            ConfigFile::Missing => (AppConfig::default(), ConfigAction::WriteDefaults),
            ConfigFile::Broken => (AppConfig::default(), ConfigAction::Quarantine),
        }
    }
}

/// What the user is told of a broken settings file: where it was moved, if it could be.
pub open spec fn quarantine_text(path: Seq<char>, reason: Seq<char>, moved_to: Option<Seq<char>>) -> Seq<
    char,
> {
    "Warning: "@ + quoted(path) + " could not be read ("@ + reason + ") -- "@ + (match moved_to {
        Some(bad) => "moved aside to "@ + quoted(bad) + " and reset to defaults."@,
        None => "resetting to defaults."@,
    })
}

/// Words what the user is told of a broken settings file.
pub fn warn_and_quarantine(path: &str, reason: &str, moved_to: &Option<String>) -> (s: String)
    ensures
        s@ == quarantine_text(path@, reason@, crate::db::records::text_opt(*moved_to)),
{
    let mut s = "Warning: ".to_owned();
    s.append(debug_text(path).as_str());
    s.append(" could not be read (");
    s.append(reason);
    s.append(") -- ");
    let ghost head = s@;
    match moved_to {
        Some(bad) => {
            let mut t = "moved aside to ".to_owned();
            t.append(debug_text(bad.as_str()).as_str());
            t.append(" and reset to defaults.");
            s.append(t.as_str());
        },
        None => {
            s.append("resetting to defaults.");
        },
    }
    s
}

/// Loading settings that were saved after loading gives them back: they are in range already.
pub proof fn law_loaded_settings_are_in_range(c: AppConfig)
    ensures
        sane(sane(c)) == sane(c),
        sane(c).idle_timeout_seconds >= 10,
        1 <= sane(c).clipboard_clear_seconds <= 3600,
        sane(default_config()) == default_config(),
{
}

} // verus!
