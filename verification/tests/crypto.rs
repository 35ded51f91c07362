//! Keys, sealed payloads and fingerprints.
use keystash::crypto::{
    decrypt, derive_hibp_cache_key, derive_key, derive_key_legacy, derive_sqlcipher_key, encrypt,
    generate_salt, hibp_cache_fingerprint, lossy_text, pragma_key_hex, seal_with_nonce, KEY_LEN,
};
use sha2::Digest;

#[test]
fn hibp_fingerprint_is_not_raw_sha256() {
    let master_key = [0x42u8; KEY_LEN];
    let password = b"hunter2";

    let fingerprint = hibp_cache_fingerprint(password, &master_key);

    let raw_sha256_hex: String =
        sha2::Sha256::digest(password).iter().map(|b| format!("{:02x}", b)).collect();
    assert_ne!(fingerprint, raw_sha256_hex);
    assert_eq!(fingerprint.len(), 64);
}

#[test]
fn hibp_fingerprint_is_deterministic_and_key_dependent() {
    let key_a = [0x11u8; KEY_LEN];
    let key_b = [0x22u8; KEY_LEN];
    let password = b"correct horse battery staple";

    assert_eq!(
        hibp_cache_fingerprint(password, &key_a),
        hibp_cache_fingerprint(password, &key_a)
    );
    assert_ne!(
        hibp_cache_fingerprint(password, &key_a),
        hibp_cache_fingerprint(password, &key_b)
    );
}

#[test]
fn derived_keys_are_independent() {
    let master = [7u8; KEY_LEN];
    let page = derive_sqlcipher_key(&master);
    let cache = derive_hibp_cache_key(&master);
    assert_ne!(page, master);
    assert_ne!(cache, master);
    assert_ne!(page, cache);
    assert_eq!(page, derive_sqlcipher_key(&master));
}

#[test]
fn keys_depend_on_password_salt_and_parameters() {
    let salt = [1u8; 16];
    let a = derive_key_legacy("pw", &salt).unwrap();
    assert_eq!(a, derive_key_legacy("pw", &salt).unwrap());
    assert_ne!(a, derive_key_legacy("pw2", &salt).unwrap());
    assert_ne!(a, derive_key_legacy("pw", &[2u8; 16]).unwrap());
    assert_ne!(a, derive_key("pw", &salt).unwrap());
    assert!(derive_key_legacy("pw", &[1u8; 7]).is_err());
}

#[test]
fn payloads_open_only_under_their_key() {
    let key = [3u8; KEY_LEN];
    let data = encrypt(b"secret", &key).unwrap();
    assert_eq!(data.len(), 24 + 6 + 16);
    assert_eq!(decrypt(&data, &key).unwrap(), b"secret");
    assert_eq!(decrypt(&data, &[4u8; KEY_LEN]).unwrap_err(), "aead::Error");
    let mut bad = data.clone();
    bad[30] ^= 1;
    assert_eq!(decrypt(&bad, &key).unwrap_err(), "aead::Error");
    assert_eq!(decrypt(&data[..23], &key).unwrap_err(), "Encrypted data is too short");
    assert_eq!(decrypt(&data[..24], &key).unwrap_err(), "aead::Error");
    assert_ne!(encrypt(b"secret", &key).unwrap(), data, "every payload has its own nonce");
    let fixed = seal_with_nonce(b"secret", &key, &[9u8; 24]).unwrap();
    assert_eq!(&fixed[..24], &[9u8; 24]);
    assert_eq!(decrypt(&fixed, &key).unwrap(), b"secret");
}

#[test]
fn salts_differ() {
    assert_ne!(generate_salt(), generate_salt());
}

#[test]
fn key_pragma_is_lower_case_hex() {
    let mut key = [0u8; KEY_LEN];
    key[0] = 0xab;
    key[31] = 0x0f;
    let hex = pragma_key_hex(&key);
    assert_eq!(hex.len(), 64);
    assert!(hex.starts_with("ab00"));
    assert!(hex.ends_with("000f"));
}

#[test]
fn invalid_utf8_is_replaced() {
    assert_eq!(lossy_text(b"abc"), "abc");
    assert_eq!(lossy_text(&[0x61, 0xff, 0x62]), "a\u{fffd}b");
}
