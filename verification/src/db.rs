//! The vault: its records, its on-disk layout and the operations on it.
pub mod identity;
pub mod layout;
pub mod records;
pub mod rekey;
pub mod schema;
pub mod store;
pub mod swap;
pub mod tags;
pub mod unlock;
pub mod version;

pub use self::identity::new_uuid;
pub use self::layout::{
    detect_vault_state, interrupted_migration_message, interrupted_rotation_message, is_first_run,
    VaultFiles, VaultState,
};
pub use self::records::{HibpCheck, HistoryEntry, SecretRecord, Tombstone, Vault};
pub use self::rekey::{change_master_password, migrate_legacy_vault};
pub use self::schema::ensure_schema;
pub use self::store::{
    add_secret, delete_secret, get_all_hibp_checks, get_password_history, get_secret_by_id,
    get_secrets, prune_old_tombstones, prune_orphaned_history, save_hibp_check, update_secret,
    update_secret_raw, PASSWORD_HISTORY_CAP, TOMBSTONE_AGE_DAYS,
};
pub use self::tags::normalize_tags;
pub use self::unlock::{create_vault, open_vault};
pub use self::version::{version_satisfies, MIN_COMPATIBLE_APP_VERSION};
