//! Records, their storage and the life of a vault.
use keystash::crypto;
use keystash::db::layout::{salt_sidecar_path, HeadRead};
use keystash::db::rekey::{convert_vault, LegacyVault};
use keystash::db::schema::SchemaFacts;
use keystash::db::version::parse_version;
use keystash::db::unlock::{
    create_vault_with_salt, new_vault, seal_token, unlock_keys, StoredVault, VaultKeys,
};
use keystash::db::{
    add_secret, change_master_password, create_vault, delete_secret, detect_vault_state,
    ensure_schema, get_all_hibp_checks, get_password_history, get_secret_by_id, get_secrets,
    interrupted_migration_message, interrupted_rotation_message, is_first_run,
    migrate_legacy_vault, new_uuid, normalize_tags, open_vault, prune_old_tombstones,
    prune_orphaned_history, save_hibp_check, update_secret, update_secret_raw, version_satisfies,
    SecretRecord, Tombstone, Vault, VaultFiles, VaultState, MIN_COMPATIBLE_APP_VERSION,
};

const VERSION: &str = "0.3.6";
const NOW: &str = "2026-02-01 10:00:00.000";
const LATER: &str = "2026-02-01 10:00:01.000";
const MAGIC: [u8; 16] = *b"SQLite format 3\0";

fn no_files() -> VaultFiles {
    VaultFiles {
        exists: false,
        head: None,
        migrating: false,
        pre_sqlcipher_backup: false,
        rekeying: false,
        pre_rekey_backup: false,
    }
}

fn current_schema() -> SchemaFacts {
    SchemaFacts {
        has_url: true,
        has_sync_uuid: true,
        has_tombstone_uuid: true,
        tombstones_keyed_on_triple: false,
    }
}

fn stored(vault: &Vault) -> Option<StoredVault> {
    Some(StoredVault { vault: vault.clone(), schema: current_schema() })
}

fn keys_for(salt: [u8; 16], password: &str) -> VaultKeys {
    unlock_keys(&None, &HeadRead::Head { bytes: salt }, password).unwrap()
}

fn test_vault(key: &[u8; 32]) -> Vault {
    new_vault(seal_token(key).unwrap())
}

#[test]
fn create_then_open_round_trip_and_wrong_password_rejected() {
    assert_eq!(detect_vault_state(&no_files()), VaultState::New);

    let (mut vault, keys) = create_vault(&no_files(), "correct horse battery staple").unwrap();
    let key = keys.master_key;
    add_secret(
        &mut vault, "GitHub", "Dev", "tobias", "https://github.com", "S3cretPW!",
        Some("hello notes"), &key, NOW,
    )
    .unwrap();

    let mut files = no_files();
    files.exists = true;
    files.head = Some(keys.salt);
    assert_eq!(detect_vault_state(&files), VaultState::Ready);

    let keys2 = keys_for(keys.salt, "correct horse battery staple");
    let reopened = open_vault(stored(&vault), &keys2.master_key, VERSION).unwrap();
    let secrets = get_secrets(&reopened);
    assert_eq!(secrets.len(), 1);
    let decrypted = crypto::decrypt(&secrets[0].encrypted_password, &keys2.master_key).unwrap();
    assert_eq!(decrypted, b"S3cretPW!");
    let notes =
        crypto::decrypt(secrets[0].encrypted_notes.as_ref().unwrap(), &keys2.master_key).unwrap();
    assert_eq!(notes, b"hello notes");

    let wrong = keys_for(keys.salt, "totally wrong password");
    let refused = open_vault(stored(&vault), &wrong.master_key, VERSION);
    assert_eq!(refused.unwrap_err(), "Incorrect master password.");
    assert!(open_vault(None, &wrong.master_key, VERSION).is_err());
}

#[test]
fn change_master_password_rekeys_and_rotates_field_encryption() {
    let (mut vault, old_keys) = create_vault(&no_files(), "old-password-123").unwrap();
    add_secret(&mut vault, "Site", "Cat", "user", "", "hunter2", None, &old_keys.master_key, NOW)
        .unwrap();
    let uuid = vault.secrets[0].sync_uuid.clone();

    let (rotated, new_keys) =
        change_master_password(&vault, &old_keys.master_key, "new-password-456", LATER).unwrap();
    assert_ne!(new_keys.salt, old_keys.salt);
    assert_ne!(new_keys.salt, MAGIC);

    let again = keys_for(new_keys.salt, "new-password-456");
    assert_eq!(again.master_key, new_keys.master_key);
    let reopened = open_vault(stored(&rotated), &again.master_key, VERSION).unwrap();
    let secrets = get_secrets(&reopened);
    assert_eq!(secrets.len(), 1);
    assert_eq!(secrets[0].sync_uuid, uuid);
    assert_eq!(secrets[0].updated_at, LATER);
    assert_eq!(
        crypto::decrypt(&secrets[0].encrypted_password, &new_keys.master_key).unwrap(),
        b"hunter2"
    );

    let old = keys_for(new_keys.salt, "old-password-123");
    assert!(open_vault(stored(&rotated), &old.master_key, VERSION).is_err());
}

#[test]
fn change_master_password_invalidates_hibp_cache() {
    let (mut vault, old_keys) = create_vault(&no_files(), "old-password-123").unwrap();
    add_secret(&mut vault, "Site", "Cat", "user", "", "hunter2", None, &old_keys.master_key, NOW)
        .unwrap();
    let old_fingerprint = crypto::hibp_cache_fingerprint(b"hunter2", &old_keys.master_key);
    save_hibp_check(&mut vault, &old_fingerprint, Some(3));
    assert_eq!(get_all_hibp_checks(&vault).len(), 1);

    let (rotated, new_keys) =
        change_master_password(&vault, &old_keys.master_key, "new-password-456", LATER).unwrap();
    let reopened = open_vault(stored(&rotated), &new_keys.master_key, VERSION).unwrap();
    assert!(get_all_hibp_checks(&reopened).is_empty());

    let new_fingerprint = crypto::hibp_cache_fingerprint(b"hunter2", &new_keys.master_key);
    assert_ne!(old_fingerprint, new_fingerprint);
}

#[test]
fn conversion_numbers_the_records_in_title_order() {
    let key = [5u8; 32];
    let mut vault = test_vault(&key);
    for title in ["gone", "zebra", "ant"] {
        add_secret(&mut vault, title, "Cat", "user", "", title, None, &key, NOW).unwrap();
    }
    let id = vault.secrets[1].id;
    update_secret(&mut vault, id, "zebra", "Cat", "user", "", "new", None, &key, LATER, 10)
        .unwrap();
    delete_secret(&mut vault, 1, LATER);
    save_hibp_check(&mut vault, "f", Some(4));
    assert_eq!(vault.history.len(), 1);

    let converted = convert_vault(&vault);
    let found: Vec<(i64, &str)> =
        converted.secrets.iter().map(|s| (s.id, s.title.as_str())).collect();
    assert_eq!(found, vec![(1, "ant"), (2, "zebra")]);
    assert_eq!(converted.secrets[0].encrypted_password, vault.secrets[1].encrypted_password);
    assert_eq!(converted.tombstones.len(), 1);
    assert!(converted.history.is_empty());
    assert_eq!(get_all_hibp_checks(&converted).len(), 1);
    assert!(open_vault(stored(&converted), &key, VERSION).is_ok());
}

#[test]
fn rotation_starts_without_past_passwords() {
    let key = [5u8; 32];
    let mut vault = test_vault(&key);
    add_secret(&mut vault, "Site", "Cat", "user", "", "v1", None, &key, NOW).unwrap();
    update_secret(&mut vault, 1, "Site", "Cat", "user", "", "v2", None, &key, LATER, 10).unwrap();
    assert_eq!(vault.history.len(), 1);
    let (rotated, keys) = change_master_password(&vault, &key, "new-password-456", LATER).unwrap();
    assert!(rotated.history.is_empty());
    let password = crypto::decrypt(&rotated.secrets[0].encrypted_password, &keys.master_key);
    assert_eq!(password.unwrap(), b"v2");
}

#[test]
fn sibling_files_stand_beside_the_vault() {
    let cases = [
        ("/a/vault.db", "/a/vault.salt"),
        ("/a/vault.db/", "/a/vault.salt"),
        ("/a/vault.db//", "/a/vault.salt"),
        ("/a/vault.db/.", "/a/vault.salt"),
        ("/a/..", "/a/../vault.salt"),
        ("./vault.db", "./vault.salt"),
        ("vault.db", "vault.salt"),
        ("a//vault.db", "a/vault.salt"),
        ("/vault.db", "/vault.salt"),
        ("/", "/vault.salt"),
        ("..", "../vault.salt"),
        ("", "vault.salt"),
    ];
    for (path, sibling) in cases {
        assert_eq!(salt_sidecar_path(path), sibling, "beside {path:?}");
        let std_path = std::path::Path::new(path).with_file_name("vault.salt");
        assert_eq!(salt_sidecar_path(path), std_path.to_str().unwrap());
    }
}

#[test]
fn a_key_that_opens_no_token_is_refused() {
    let key = [5u8; 32];
    let mut vault = test_vault(&key);
    add_secret(&mut vault, "Site", "Cat", "user", "", "v1", None, &key, NOW).unwrap();
    assert!(open_vault(stored(&vault), &key, VERSION).is_ok());
    let refused = open_vault(stored(&vault), &[6u8; 32], VERSION);
    assert_eq!(refused.unwrap_err(), "Incorrect master password.");
    vault.verification = Some(vec![1, 2, 3]);
    let refused = open_vault(stored(&vault), &key, VERSION);
    assert_eq!(refused.unwrap_err(), "Incorrect master password.");
}

#[test]
fn rotation_fails_where_a_field_does_not_open() {
    let key = [1u8; 32];
    let mut vault = test_vault(&key);
    add_secret(&mut vault, "Site", "Cat", "user", "", "hunter2", None, &key, NOW).unwrap();
    let error = change_master_password(&vault, &[2u8; 32], "pw", LATER).unwrap_err();
    assert_eq!(error, "aead::Error");
    vault.secrets[0].encrypted_password = vec![1, 2, 3];
    let error = change_master_password(&vault, &key, "pw", LATER).unwrap_err();
    assert_eq!(error, "Encrypted data is too short");
}

fn legacy_record(title: &str, category: &str, username: &str, password: Vec<u8>) -> SecretRecord {
    SecretRecord {
        id: 1,
        title: title.to_string(),
        category: category.to_string(),
        username: username.to_string(),
        url: String::new(),
        encrypted_password: password,
        encrypted_notes: None,
        updated_at: NOW.to_string(),
        sync_uuid: String::new(),
    }
}

fn legacy_files() -> VaultFiles {
    let mut files = no_files();
    files.exists = true;
    files.head = Some(MAGIC);
    files
}

#[test]
fn migrate_legacy_vault_preserves_secrets_under_new_password_scheme() {
    let salt = crypto::generate_salt();
    let legacy_key = crypto::derive_key("legacy-master-pw", &salt).unwrap();
    let legacy = LegacyVault {
        salt: Some(salt.to_vec()),
        verification: Some(crypto::encrypt(b"keystash-verification-token", &legacy_key).unwrap()),
        secrets: vec![legacy_record(
            "Old Site",
            "Legacy",
            "olduser",
            crypto::encrypt(b"legacy-pass", &legacy_key).unwrap(),
        )],
        tombstones: vec![],
    };
    assert_eq!(detect_vault_state(&legacy_files()), VaultState::NeedsMigration);

    let (vault, keys) =
        migrate_legacy_vault(&legacy_files(), &legacy, "legacy-master-pw").unwrap();
    let secrets = get_secrets(&vault);
    assert_eq!(secrets.len(), 1);
    assert_eq!(secrets[0].updated_at, NOW);
    assert!(!secrets[0].sync_uuid.is_empty());
    assert_eq!(
        crypto::decrypt(&secrets[0].encrypted_password, &keys.master_key).unwrap(),
        b"legacy-pass"
    );
    let again = keys_for(keys.salt, "legacy-master-pw");
    assert!(open_vault(stored(&vault), &again.master_key, VERSION).is_ok());
}

#[test]
fn migration_tries_the_old_parameters_and_names_its_errors() {
    let salt = crypto::generate_salt();
    let weak_key = crypto::derive_key_legacy("pw", &salt).unwrap();
    let token = crypto::encrypt(b"keystash-verification-token", &weak_key).unwrap();
    let mut legacy = LegacyVault {
        salt: Some(salt.to_vec()),
        verification: Some(token),
        secrets: vec![legacy_record("T", "C", "U", crypto::encrypt(b"x", &weak_key).unwrap())],
        tombstones: vec![],
    };
    let (vault, keys) = migrate_legacy_vault(&legacy_files(), &legacy, "pw").unwrap();
    assert_eq!(
        crypto::decrypt(&vault.secrets[0].encrypted_password, &keys.master_key).unwrap(),
        b"x"
    );
    assert_eq!(
        migrate_legacy_vault(&legacy_files(), &legacy, "other").unwrap_err(),
        "Incorrect master password."
    );
    assert_eq!(
        migrate_legacy_vault(&no_files(), &legacy, "pw").unwrap_err(),
        "No legacy vault found to migrate."
    );
    legacy.verification = None;
    assert_eq!(
        migrate_legacy_vault(&legacy_files(), &legacy, "pw").unwrap_err(),
        "Verification token not found. Legacy database might be corrupted."
    );
    legacy.salt = Some(vec![1, 2, 3]);
    assert_eq!(
        migrate_legacy_vault(&legacy_files(), &legacy, "pw").unwrap_err(),
        "Invalid salt length in legacy vault metadata."
    );
    legacy.salt = None;
    assert_eq!(
        migrate_legacy_vault(&legacy_files(), &legacy, "pw").unwrap_err(),
        "This does not look like a legacy KeyStash vault (no salt found)."
    );
}

#[test]
fn new_vaults_are_self_contained_with_the_salt_in_the_header() {
    let (vault, keys) = create_vault(&no_files(), "some-password").unwrap();
    assert_ne!(keys.salt, MAGIC);
    let again = keys_for(keys.salt, "some-password");
    assert!(open_vault(stored(&vault), &again.master_key, VERSION).is_ok());
}

#[test]
fn sidecar_era_vault_is_converted_on_first_unlock() {
    let salt = [9u8; 16];
    let (mut vault, keys) =
        create_vault_with_salt(&no_files(), "legacy-layout-pw", &salt).unwrap();
    add_secret(
        &mut vault, "Site", "Cat", "user", "https://example.com", "hunter2", Some("note"),
        &keys.master_key, NOW,
    )
    .unwrap();
    let uuid = vault.secrets[0].sync_uuid.clone();

    // The header of the file holds another salt; the sidecar's is the one to use.
    let sidecar: Option<Result<Vec<u8>, String>> = Some(Ok(salt.to_vec()));
    let head = HeadRead::Head { bytes: [3u8; 16] };
    let found = unlock_keys(&sidecar, &head, "legacy-layout-pw").unwrap();
    assert_eq!(found.salt, salt);
    assert_eq!(found.master_key, keys.master_key);
    let opened = open_vault(stored(&vault), &found.master_key, VERSION).unwrap();
    assert_eq!(opened.secrets[0].sync_uuid, uuid);
    assert_eq!(opened.secrets[0].updated_at, NOW);

    let converted = convert_vault(&opened);
    let reopened = open_vault(stored(&converted), &found.master_key, VERSION).unwrap();
    assert_eq!(reopened.secrets.len(), 1);
    assert_eq!(reopened.secrets[0].sync_uuid, uuid);
    assert_eq!(reopened.secrets[0].updated_at, NOW);
    assert_eq!(reopened.secrets[0].url, "https://example.com");
    let password =
        crypto::decrypt(&reopened.secrets[0].encrypted_password, &found.master_key).unwrap();
    assert_eq!(password, b"hunter2");

    let short: Option<Result<Vec<u8>, String>> = Some(Ok(vec![1; 15]));
    assert_eq!(
        unlock_keys(&short, &head, "pw").unwrap_err(),
        "Vault salt file has an invalid length."
    );
    let gone: Option<Result<Vec<u8>, String>> = Some(Err("denied".to_string()));
    assert_eq!(
        unlock_keys(&gone, &head, "pw").unwrap_err(),
        "Could not read vault salt file: denied"
    );
}

#[test]
fn stored_version_floor_is_raised_on_open() {
    let (mut vault, keys) = create_vault(&no_files(), "some-password").unwrap();
    let key = keys.master_key;
    vault.min_app_version = Some("0.3.0".to_string());
    let opened = open_vault(stored(&vault), &key, VERSION).unwrap();
    assert_eq!(opened.min_app_version.as_deref(), Some(MIN_COMPATIBLE_APP_VERSION));

    // A floor set by a newer program is never lowered.
    vault.min_app_version = Some("0.4.1".to_string());
    let opened = open_vault(stored(&vault), &key, "0.5.0").unwrap();
    assert_eq!(opened.min_app_version.as_deref(), Some("0.4.1"));
}

#[test]
fn deleting_duplicates_sharing_a_triple_keeps_every_tombstone() {
    let (mut vault, keys) = create_vault(&no_files(), "some-password").unwrap();
    let key = keys.master_key;
    for pw in ["dup-v1", "dup-v2", "dup-v3"] {
        add_secret(&mut vault, "Dup", "Cat", "user", "", pw, None, &key, NOW).unwrap();
    }
    let secrets = get_secrets(&vault);
    assert_eq!(secrets.len(), 3);

    delete_secret(&mut vault, secrets[0].id, LATER);
    delete_secret(&mut vault, secrets[1].id, LATER);

    assert_eq!(vault.tombstones.len(), 2, "both deletions must leave their own tombstone");
    for s in &secrets[..2] {
        assert!(vault.tombstones.iter().any(|t| t.sync_uuid.as_ref() == Some(&s.sync_uuid)));
    }
    // Deleting what is not there changes nothing.
    delete_secret(&mut vault, 9999, LATER);
    assert_eq!(vault.secrets.len(), 1);
    assert_eq!(vault.tombstones.len(), 2);
}

#[test]
fn legacy_triple_keyed_tombstone_table_is_rebuilt_on_open() {
    let (mut vault, keys) = create_vault(&no_files(), "some-password").unwrap();
    let mark = |title: &str, at: &str, uuid: Option<&str>| Tombstone {
        title: title.to_string(),
        category: "Cat".to_string(),
        username: "user".to_string(),
        deleted_at: at.to_string(),
        sync_uuid: uuid.map(|u| u.to_string()),
    };
    vault.tombstones = vec![
        mark("A", "2026-01-01 00:00:00.000", Some("uuid-a")),
        mark("B", "2026-01-02 00:00:00.000", None),
    ];
    let mut facts = current_schema();
    facts.tombstones_keyed_on_triple = true;
    let opened = open_vault(
        Some(StoredVault { vault: vault.clone(), schema: facts }),
        &keys.master_key,
        VERSION,
    )
    .unwrap();
    assert_eq!(opened.tombstones.len(), 2, "both tombstones must survive the rebuild");
    assert_eq!(opened.tombstones[0].title, "A");
    assert_eq!(opened.tombstones[0].sync_uuid.as_deref(), Some("uuid-a"));
    assert_eq!(opened.tombstones[1].title, "B");
    assert_eq!(opened.tombstones[1].sync_uuid, None);

    // Of two tombstones of one identity the newer one stays.
    vault.tombstones.push(mark("A2", "2026-01-03 00:00:00.000", Some("uuid-a")));
    let rebuilt = open_vault(
        Some(StoredVault { vault: vault.clone(), schema: facts }),
        &keys.master_key,
        VERSION,
    )
    .unwrap();
    assert_eq!(rebuilt.tombstones.len(), 2);
    assert!(rebuilt.tombstones.iter().any(|t| t.title == "A2"));

    // Without the rebuild the two clash.
    let clash = open_vault(stored(&vault), &keys.master_key, VERSION);
    assert_eq!(clash.unwrap_err(), "UNIQUE constraint failed: deleted_secrets.sync_uuid");
}

#[test]
fn schema_upgrade_fills_missing_columns() {
    let key = [5u8; 32];
    let mut vault = test_vault(&key);
    add_secret(&mut vault, "T", "C", "U", "https://x", "pw", None, &key, NOW).unwrap();
    add_secret(&mut vault, "T", "C", "U", "https://x", "pw", None, &key, NOW).unwrap();
    let facts = SchemaFacts {
        has_url: false,
        has_sync_uuid: false,
        has_tombstone_uuid: false,
        tombstones_keyed_on_triple: true,
    };
    let fresh = vec!["u1".to_string(), "u2".to_string()];
    ensure_schema(&mut vault, facts, &fresh).unwrap();
    assert_eq!(vault.secrets[0].sync_uuid, "u1");
    assert_eq!(vault.secrets[1].sync_uuid, "u2");
    assert_eq!(vault.secrets[0].url, "");

    let same = vec!["u".to_string(), "u".to_string()];
    let error = ensure_schema(&mut vault, facts, &same).unwrap_err();
    assert_eq!(vault.secrets[1].sync_uuid, "u", "what was completed stays");
    assert_eq!(error, "UNIQUE constraint failed: secrets.sync_uuid");
}

#[test]
fn version_satisfies_compares_major_minor_patch_correctly() {
    assert!(version_satisfies("0.4.0", "0.3.0"));
    assert!(version_satisfies("0.3.0", "0.3.0"));
    assert!(!version_satisfies("0.2.9", "0.3.0"));
    assert!(version_satisfies("1.0.0", "0.9.9"));
    assert!(version_satisfies("0.10.0", "0.9.0"), "numeric, not lexicographic, comparison");
    assert!(!version_satisfies("0.9.0", "0.10.0"));
    // Unparseable input fails open rather than blocking access.
    assert!(version_satisfies("garbage", "0.3.0"));
    assert!(version_satisfies("0.3.0", "garbage"));
}

#[test]
fn versions_are_trimmed_and_have_three_parts() {
    assert!(!version_satisfies(" 0.2.9\n", "0.3.0"));
    assert!(version_satisfies("0.2.9.7", "0.3.0"), "four parts are no version");
    assert!(version_satisfies("0.2.9", "0.3.0.0"));
    assert_eq!(parse_version("1.2.3.4"), None);
    assert_eq!(parse_version("1.2.3"), Some((1, 2, 3)));
    assert!(!version_satisfies("0.+2.9", "0.3.0"));
    assert!(version_satisfies("0.2", "0.3.0"));
    assert!(version_satisfies("0.2.4294967296", "0.3.0"));
    assert!(!version_satisfies("0.2.4294967295", "0.3.0"));
}

#[test]
fn open_vault_refuses_a_vault_requiring_a_newer_version() {
    let (mut vault, keys) = create_vault(&no_files(), "some-password").unwrap();
    let key = keys.master_key;
    vault.min_app_version = Some("99.0.0".to_string());
    let err = open_vault(stored(&vault), &key, VERSION).unwrap_err();
    assert!(err.contains("99.0.0"), "error should name the required version, got: {}", err);
    assert!(err.contains("KeyStash"), "error should be clear, got: {}", err);
    assert_eq!(
        err,
        "This vault requires KeyStash v99.0.0 or newer to open. You are running v0.3.6. \
         Please update KeyStash and try again."
    );
}

#[test]
fn open_vault_ignores_a_missing_or_older_min_version_row() {
    let (mut vault, keys) = create_vault(&no_files(), "some-password").unwrap();
    let key = keys.master_key;
    vault.min_app_version = None;
    assert!(open_vault(stored(&vault), &key, VERSION).is_ok());
    vault.min_app_version = Some("0.0.1".to_string());
    assert!(open_vault(stored(&vault), &key, VERSION).is_ok());
}

#[test]
fn a_vault_without_its_token_does_not_open() {
    let key = [5u8; 32];
    let mut vault = test_vault(&key);
    vault.verification = None;
    assert_eq!(
        open_vault(stored(&vault), &key, VERSION).unwrap_err(),
        "Verification token not found. Database might be corrupted."
    );
    vault.verification = Some(crypto::encrypt(b"something else", &key).unwrap());
    assert_eq!(
        open_vault(stored(&vault), &key, VERSION).unwrap_err(),
        "Incorrect master password."
    );
}

#[test]
fn vault_state_follows_the_files() {
    let mut f = no_files();
    assert!(is_first_run(&f));
    f.rekeying = true;
    assert_eq!(detect_vault_state(&f), VaultState::InterruptedRotation);
    f.pre_sqlcipher_backup = true;
    assert_eq!(detect_vault_state(&f), VaultState::InterruptedMigration);
    f.exists = true;
    assert_eq!(detect_vault_state(&f), VaultState::Ready);
    f.head = Some(MAGIC);
    assert_eq!(detect_vault_state(&f), VaultState::InterruptedMigration);
    f.pre_sqlcipher_backup = false;
    assert_eq!(detect_vault_state(&f), VaultState::NeedsMigration);
    assert!(!is_first_run(&f));
    assert!(create_vault(&f, "pw").is_err());
}

#[test]
fn recovery_messages_name_the_files() {
    let m = interrupted_migration_message("/home/me/.config/keystash/vault.db");
    assert_eq!(
        m,
        "A previous migration to the encrypted database format was interrupted \
(e.g. a crash or power loss) and left the vault in an inconsistent state. \
Nothing was lost -- your data is still on disk and recoverable:\n\n\
1. Restore the pre-migration backup:\n   mv \
\"/home/me/.config/keystash/vault.db.pre-sqlcipher-backup\" \
\"/home/me/.config/keystash/vault.db\"\n\
2. Then run keystash again to retry the migration.\n\n\
(If present, \"/home/me/.config/keystash/vault.db.migrating\" is a partially-built copy from the \
interrupted attempt and can be safely deleted.)"
    );
    let r = interrupted_rotation_message("/v/vault \"x\"/vault.db");
    assert!(r.starts_with("A previous master password change was interrupted"));
    assert!(r.contains("mv \"/v/vault \\\"x\\\"/vault.db.pre-rekey-backup\""));
    assert!(r.contains("\n2. Then run keystash again and retry the password change.\n"));
    assert!(r.contains("(If present, \"/v/vault \\\"x\\\"/vault.db.rekeying\""));
}

#[test]
fn uuids_are_version_four_and_differ() {
    let a = new_uuid();
    let b = new_uuid();
    assert_ne!(a, b);
    for u in [&a, &b] {
        assert_eq!(u.len(), 36);
        assert_eq!(u.as_bytes()[14], b'4');
        assert!(matches!(u.as_bytes()[19], b'8' | b'9' | b'a' | b'b'));
        assert_eq!(u.matches('-').count(), 4);
    }
    let bytes: Vec<u8> = (0u8..16).collect();
    assert_eq!(
        keystash::db::identity::uuid_from_bytes(&bytes),
        "00010203-0405-4607-8809-0a0b0c0d0e0f"
    );
}

#[test]
fn records_are_updated_and_their_passwords_remembered() {
    let key = [5u8; 32];
    let mut vault = test_vault(&key);
    add_secret(&mut vault, "B", "Cat", "user", "", "v1", Some(""), &key, NOW).unwrap();
    add_secret(&mut vault, "A", "Cat", "user", "", "other", None, &key, NOW).unwrap();
    assert_eq!(vault.secrets[0].encrypted_notes, None, "empty notes are not stored");
    let id = vault.secrets[0].id;
    let uuid = vault.secrets[0].sync_uuid.clone();

    update_secret(&mut vault, id, "B2", "Tag", "u2", "url", "v1", Some("n"), &key, LATER, 10)
        .unwrap();
    assert!(get_password_history(&vault, &uuid).is_empty(), "the password did not change");
    update_secret(&mut vault, id, "B2", "Tag", "u2", "url", "v2", None, &key, LATER, 10).unwrap();
    let past = get_password_history(&vault, &uuid);
    assert_eq!(past.len(), 1);
    assert_eq!(crypto::decrypt(&past[0].encrypted_password, &key).unwrap(), b"v1");

    let r = get_secret_by_id(&vault, id).unwrap();
    assert_eq!(r.title, "B2");
    assert_eq!(r.sync_uuid, uuid);
    assert_eq!(r.updated_at, LATER);
    assert_eq!(r.encrypted_notes, None);
    assert!(get_secret_by_id(&vault, 77).is_none());

    let titles: Vec<String> = get_secrets(&vault).into_iter().map(|s| s.title).collect();
    assert_eq!(titles, vec!["A", "B2"]);

    update_secret_raw(&mut vault, id, "Raw", "c", "u", "w", &[1, 2], &Some(vec![3]), "t");
    let r = get_secret_by_id(&vault, id).unwrap();
    assert_eq!((r.title.as_str(), r.encrypted_password.as_slice()), ("Raw", &[1u8, 2][..]));
    assert_eq!(r.encrypted_notes, Some(vec![3]));
    assert_eq!(r.updated_at, "t");

    for i in 0..15 {
        let pw = format!("pw{i}");
        let at = format!("2026-03-01 00:00:{i:02}.000");
        update_secret(&mut vault, id, "B2", "Tag", "u2", "", &pw, None, &key, &at, 10).unwrap();
    }
    assert_eq!(get_password_history(&vault, &uuid).len(), 10);
    delete_secret(&mut vault, id, LATER);
    prune_orphaned_history(&mut vault);
    assert!(vault.history.is_empty());
}

#[test]
fn old_tombstones_are_pruned() {
    let key = [5u8; 32];
    let mut vault = test_vault(&key);
    for title in ["A", "B"] {
        add_secret(&mut vault, title, "Cat", "user", "", "pw", None, &key, NOW).unwrap();
    }
    delete_secret(&mut vault, 1, "2026-01-01 00:00:00.000");
    delete_secret(&mut vault, 2, "2026-01-02 00:00:00.000");
    prune_old_tombstones(&mut vault, "2026-01-02 00:00:00.000");
    assert_eq!(vault.tombstones.len(), 1);
    assert_eq!(vault.tombstones[0].title, "B");
}

#[test]
fn a_vault_without_free_ids_refuses_records() {
    let key = [5u8; 32];
    let mut vault = test_vault(&key);
    vault.next_id = i64::MAX;
    let e = add_secret(&mut vault, "A", "Cat", "user", "", "pw", None, &key, NOW).unwrap_err();
    assert_eq!(e, "database or disk is full");
    let mut twice = test_vault(&key);
    add_secret(&mut twice, "A", "Cat", "user", "", "pw", None, &key, NOW).unwrap();
    let copy = twice.secrets[0].clone();
    let e = keystash::db::store::insert_record(&mut twice, copy).unwrap_err();
    assert_eq!(e, "UNIQUE constraint failed: secrets.sync_uuid");
}

#[test]
fn cached_counts_are_replaced() {
    let key = [5u8; 32];
    let mut vault = test_vault(&key);
    save_hibp_check(&mut vault, "h", Some(1));
    save_hibp_check(&mut vault, "g", None);
    save_hibp_check(&mut vault, "h", Some(7));
    let all = get_all_hibp_checks(&vault);
    assert_eq!(all.len(), 2);
    let h = "h".to_string();
    assert_eq!(keystash::db::store::cached_count(&all, &h), Some(Some(7)));
    assert_eq!(keystash::db::store::cached_count(&all, &"g".to_string()), Some(None));
    assert_eq!(keystash::db::store::cached_count(&all, &"x".to_string()), None);
}

#[test]
fn tags_are_normalized() {
    assert_eq!(normalize_tags(" work , email,work,, "), "work, email");
    assert_eq!(normalize_tags("work,email"), normalize_tags(" work , email"));
    assert_eq!(normalize_tags(&normalize_tags("b,a , b")), "b, a");
    assert_eq!(normalize_tags(" , "), "");
}
