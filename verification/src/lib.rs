//! The core of a terminal password vault: encrypted records, device sync, import and export,
//! password generation and auditing, and the screens that drive them.
pub mod audit;
pub mod breach;
pub mod cli;
pub mod config;
pub mod conflicts;
pub mod crypto;
pub mod csv_format;
pub mod db;
pub mod forms;
pub mod generator;
pub mod history;
pub mod import;
pub mod keys;
pub mod legacy_merge;
pub mod lists;
pub mod merge;
pub mod modals;
pub mod panels;
pub mod promises;
pub mod render;
pub mod settings;
pub mod sha1;
pub mod strength;
pub mod sync;
pub mod sync_setup;
pub mod text;
