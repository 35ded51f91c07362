//! Key derivation, field encryption and secure wiping.
use argon2::password_hash::rand_core::RngCore;
use argon2::{Algorithm, Argon2, Params, Version};
use chacha20poly1305::aead::{Aead, KeyInit, OsRng};
use chacha20poly1305::{XChaCha20Poly1305, XNonce};
use hkdf::Hkdf;
use hmac::{Hmac, Mac};
use sha2::Sha256;
use vstd::prelude::*;
use vstd::string::*;
use vstd::utf8::{decode_utf8, encode_utf8, valid_utf8};
use zeroize::Zeroize;

verus! {

pub const SALT_LEN: usize = 16;

pub const KEY_LEN: usize = 32;

pub const NONCE_LEN: usize = 24;

/// The length of the longest text that the cipher encrypts: its counter of 64-byte blocks has 32
/// bits, and two of its values are not for the text.
pub const MAX_PLAINTEXT: u64 = 274_877_906_816;

/// What a fallible operation that yields bytes came to.
pub open spec fn outcome<A: View<V = Seq<u8>>>(r: Result<A, String>) -> Result<Seq<u8>, Seq<char>> {
    match r {
        Ok(a) => Ok(a@),
        Err(e) => Err(e@),
    }
}

/// An error, if there is one.
pub open spec fn error_of<A>(r: Result<A, String>) -> Option<Seq<char>> {
    match r {
        Ok(_) => None,
        Err(e) => Some(e@),
    }
}

/// Argon2id, version 0x13, with a 32-byte output: the hash of a password and a salt under
/// `memory` KiB, `passes` passes and `lanes` lanes, or the reason why there is none.
pub uninterp spec fn argon2id_hash(
    password: Seq<u8>,
    salt: Seq<u8>,
    memory: u32,
    passes: u32,
    lanes: u32,
) -> Result<Seq<u8>, Seq<char>>;

/// HKDF-SHA256 without a salt: 32 bytes of key material for `info`.
pub uninterp spec fn hkdf_sha256(key: Seq<u8>, info: Seq<u8>) -> Seq<u8>;

/// HMAC-SHA256 of a message.
pub uninterp spec fn hmac_sha256(key: Seq<u8>, message: Seq<u8>) -> Seq<u8>;

/// XChaCha20-Poly1305 encryption without associated data: ciphertext and tag.
pub uninterp spec fn xchacha_seal(key: Seq<u8>, nonce: Seq<u8>, plaintext: Seq<u8>) -> Seq<u8>;

/// XChaCha20-Poly1305 decryption without associated data; `None` if the tag does not fit.
pub uninterp spec fn xchacha_open(key: Seq<u8>, nonce: Seq<u8>, sealed: Seq<u8>) -> Option<Seq<u8>>;

/// The text of a byte string, each invalid UTF-8 sequence replaced by U+FFFD.
pub uninterp spec fn utf8_lossy(bytes: Seq<u8>) -> Seq<char>;

/// `RngCore::fill_bytes` of `OsRng`: `n` bytes from the operating system's generator. Any
/// bytes may come. It returns wherever that generator works.
#[verifier::external_body]
pub(crate) fn random_bytes(n: usize) -> (r: Vec<u8>)
    ensures
        r@.len() == n,
{
    let mut r = vec![0u8; n];
    OsRng.fill_bytes(&mut r);
    r
}

/// `Params::new` and `Argon2::hash_password_into` of argon2, for Argon2id in version 0x13 with
/// 32 bytes of output. With valid costs and at most 64 MiB it fails only on a password or salt of a length that
/// the crate rejects: over `u32::MAX` bytes, or a salt under 8.
#[verifier::external_body]
fn argon2id(password: &[u8], salt: &[u8], memory: u32, passes: u32, lanes: u32) -> (r: Result<
    [u8; KEY_LEN],
    String,
>)
    requires
        1 <= lanes < 0x100_0000,
        8 * lanes <= memory <= 0x1_0000,
        1 <= passes,
    ensures
        outcome(r) == argon2id_hash(password@, salt@, memory, passes, lanes),
        r is Ok == (password@.len() <= u32::MAX && 8 <= salt@.len() <= u32::MAX),
{
    let params = Params::new(memory, passes, lanes, Some(KEY_LEN)).map_err(|e| e.to_string())?;
    let hasher = Argon2::new(Algorithm::Argon2id, Version::V0x13, params);
    let mut out = [0u8; KEY_LEN];
    match hasher.hash_password_into(password, salt, &mut out) {
        Ok(()) => Ok(out),
        Err(e) => Err(e.to_string()),
    }
}

/// `Hkdf::<Sha256>::new` without a salt and `Hkdf::expand` into 32 bytes, a length that
/// `expand` always accepts.
#[verifier::external_body]
fn hkdf_expand(key: &[u8; KEY_LEN], info: &[u8]) -> (okm: [u8; KEY_LEN])
    ensures
        okm@ == hkdf_sha256(key@, info@),
{
    let mut okm = [0u8; KEY_LEN];
    Hkdf::<Sha256>::new(None, key).expand(info, &mut okm).expect("valid HKDF-SHA256 output length");
    okm
}

/// `Hmac::<Sha256>`: `new_from_slice`, `update` and `finalize`. HMAC takes keys of any length.
#[verifier::external_body]
fn hmac(key: &[u8; KEY_LEN], message: &[u8]) -> (tag: [u8; KEY_LEN])
    ensures
        tag@ == hmac_sha256(key@, message@),
{
    let mut mac = <Hmac<Sha256> as Mac>::new_from_slice(key).expect("any key length");
    mac.update(message);
    mac.finalize().into_bytes().into()
}

/// `XChaCha20Poly1305::encrypt`. It succeeds on every text that the key stream is long enough
/// for; what it returns, `decrypt` with the same key and nonce gives back, and it is longer than
/// the plaintext by the 16 bytes of the tag.
#[verifier::external_body]
fn aead_seal(key: &[u8; KEY_LEN], nonce: &[u8; NONCE_LEN], plaintext: &[u8]) -> (r: Option<Vec<u8>>)
    requires
        plaintext@.len() <= MAX_PLAINTEXT,
    ensures
        r is Some,
        r matches Some(c) ==> xchacha_seal(key@, nonce@, plaintext@) == c@ && xchacha_open(
            key@,
            nonce@,
            c@,
        ) == Some(plaintext@) && c@.len() == plaintext@.len() + 16,
{
    let cipher = XChaCha20Poly1305::new(key.into());
    cipher.encrypt(XNonce::from_slice(nonce), plaintext).ok()
}

/// `XChaCha20Poly1305::decrypt`. What it returns is shorter than its input by the 16 bytes of
/// the tag.
#[verifier::external_body]
fn aead_open(key: &[u8; KEY_LEN], nonce: &[u8; NONCE_LEN], sealed: &[u8]) -> (r: Option<Vec<u8>>)
    requires
        sealed@.len() <= MAX_PLAINTEXT + 16,
    ensures
        r matches Some(p) ==> xchacha_open(key@, nonce@, sealed@) == Some(p@) && p@.len() + 16
            == sealed@.len(),
        r is None ==> xchacha_open(key@, nonce@, sealed@) is None,
{
    let cipher = XChaCha20Poly1305::new(key.into());
    cipher.decrypt(XNonce::from_slice(nonce), sealed).ok()
}

/// `Zeroize::zeroize` on a `String`: overwrites its memory and leaves it empty.
#[verifier::external_body]
pub(crate) fn wipe_text(s: &mut String)
    ensures
        final(s)@ == Seq::<char>::empty(),
{
    s.zeroize()
}

/// `Zeroize::zeroize` on a `Vec<u8>`: overwrites its memory and leaves it empty.
#[verifier::external_body]
pub(crate) fn wipe_bytes(v: &mut Vec<u8>)
    ensures
        final(v)@ == Seq::<u8>::empty(),
{
    v.zeroize()
}

/// `String::from_utf8_lossy`. Valid UTF-8 decodes to the text that it encodes.
#[verifier::external_body]
fn lossy_raw(bytes: &[u8]) -> (s: String)
    ensures
        s@ == utf8_lossy(bytes@),
        valid_utf8(bytes@) ==> s@ == decode_utf8(bytes@),
{
    String::from_utf8_lossy(bytes).into_owned()
}

/// The text of a byte string: what it encodes if it is UTF-8, else with each invalid sequence
/// replaced.
pub open spec fn text_of(bytes: Seq<u8>) -> Seq<char> {
    if valid_utf8(bytes) {
        decode_utf8(bytes)
    } else {
        utf8_lossy(bytes)
    }
}

/// The text of a byte string.
pub fn lossy_text(bytes: &[u8]) -> (s: String)
    ensures
        s@ == text_of(bytes@),
{
    lossy_raw(bytes)
}

/// `String::from_utf8`: the text that the bytes encode, if they are UTF-8.
#[verifier::external_body]
pub(crate) fn utf8_text(bytes: Vec<u8>) -> (r: Option<String>)
    ensures
        (r is Some) == valid_utf8(bytes@),
        r matches Some(s) ==> s@ == decode_utf8(bytes@),
{
    String::from_utf8(bytes).ok()
}

/// Text that was encoded reads as it was.
pub proof fn lemma_text_round_trip(s: Seq<char>)
    ensures
        text_of(encode_utf8(s)) == s,
{
    vstd::utf8::encode_utf8_valid_utf8(s);
    vstd::utf8::encode_utf8_decode_utf8(s);
}

/// Copies the first `N` bytes of a slice.
pub fn array_of<const N: usize>(v: &[u8]) -> (a: [u8; N])
    requires
        v@.len() >= N,
    ensures
        a@ == v@.take(N as int),
{
    let mut a = [0u8; N];
    let mut i: usize = 0;
    while i < N
        invariant
            i <= N <= v@.len(),
            forall|k: int| 0 <= k < i ==> a@[k] == v@[k],
        decreases N - i,
    {
        a[i] = v[i];
        i += 1;
    }
    assert(a@ =~= v@.take(N as int));
    a
}

/// A fresh salt; any 16 bytes may come.
pub fn generate_salt() -> (salt: [u8; SALT_LEN])
    ensures
        salt@.len() == SALT_LEN,
{
    let bytes = random_bytes(SALT_LEN);
    array_of::<SALT_LEN>(bytes.as_slice())
}

/// The key of a master password: Argon2id over 64 MiB with 3 passes and 4 lanes.
pub open spec fn master_key_of(password: Seq<char>, salt: Seq<u8>) -> Result<Seq<u8>, Seq<char>> {
    argon2id_hash(encode_utf8(password), salt, 65536, 3, 4)
}

/// The key of a master password under the parameters of plaintext-era vaults.
pub open spec fn legacy_key_of(password: Seq<char>, salt: Seq<u8>) -> Result<Seq<u8>, Seq<char>> {
    argon2id_hash(encode_utf8(password), salt, 15360, 2, 1)
}

/// The lengths on which key derivation works.
pub open spec fn derivable(password: Seq<char>, salt: Seq<u8>) -> bool {
    encode_utf8(password).len() <= u32::MAX && 8 <= salt.len() <= u32::MAX
}

/// Derives the 256-bit master key from the master password and a salt.
pub fn derive_key(password: &str, salt: &[u8]) -> (r: Result<[u8; KEY_LEN], String>)
    ensures
        outcome(r) == master_key_of(password@, salt@),
        r is Ok <==> derivable(password@, salt@),
{
    argon2id(password.as_bytes(), salt, 65536, 3, 4)
}

/// Derives a key under the parameters of plaintext-era vaults; only migration needs it.
pub fn derive_key_legacy(password: &str, salt: &[u8]) -> (r: Result<[u8; KEY_LEN], String>)
    ensures
        outcome(r) == legacy_key_of(password@, salt@),
        r is Ok <==> derivable(password@, salt@),
{
    argon2id(password.as_bytes(), salt, 15360, 2, 1)
}

/// The page key of the database file, derived one way from the master key.
pub open spec fn sqlcipher_key_of(master_key: Seq<u8>) -> Seq<u8> {
    hkdf_sha256(master_key, encode_utf8("keystash-sqlcipher-page-key-v1"@))
}

/// Derives the key for whole-database page encryption.
pub fn derive_sqlcipher_key(master_key: &[u8; KEY_LEN]) -> (k: [u8; KEY_LEN])
    ensures
        k@ == sqlcipher_key_of(master_key@),
{
    hkdf_expand(master_key, "keystash-sqlcipher-page-key-v1".as_bytes())
}

/// The key of the breach-count cache, derived one way from the master key.
pub open spec fn hibp_cache_key_of(master_key: Seq<u8>) -> Seq<u8> {
    hkdf_sha256(master_key, encode_utf8("keystash-hibp-cache-key-v1"@))
}

/// Derives the key for the breach-count cache.
pub fn derive_hibp_cache_key(master_key: &[u8; KEY_LEN]) -> (k: [u8; KEY_LEN])
    ensures
        k@ == hibp_cache_key_of(master_key@),
{
    hkdf_expand(master_key, "keystash-hibp-cache-key-v1".as_bytes())
}

/// The lower-case hexadecimal digit of a number below 16.
pub open spec fn hex_char(n: int) -> char {
    if n < 10 {
        (('0' as u32) + n) as char
    } else {
        (('a' as u32) + (n - 10)) as char
    }
}

/// Two lower-case hexadecimal digits per byte.
pub open spec fn hex(bytes: Seq<u8>) -> Seq<char> {
    Seq::new(
        2 * bytes.len(),
        |i: int|
            if i % 2 == 0 {
                hex_char(bytes[i / 2] as int / 16)
            } else {
                hex_char(bytes[i / 2] as int % 16)
            },
    )
}

/// The lower-case hexadecimal digit of a number below 16.
pub fn hex_digit(n: u8) -> (c: char)
    requires
        n < 16,
    ensures
        c == hex_char(n as int),
{
    if n < 10 {
        (48u8 + n) as char
    } else {
        (87u8 + n) as char
    }
}

/// Two lower-case hexadecimal digits per byte.
pub fn hex_text(bytes: &[u8]) -> (s: String)
    ensures
        s@ == hex(bytes@),
{
    let mut s = String::new();
    let mut i: usize = 0;
    while i < bytes.len()
        invariant
            i <= bytes@.len(),
            s@ == hex(bytes@.take(i as int)),
        decreases bytes@.len() - i,
    {
        let b: u8 = bytes[i];
        s.push(hex_digit(b / 16));
        s.push(hex_digit(b % 16));
        i += 1;
        assert(s@ =~= hex(bytes@.take(i as int)));
    }
    assert(bytes@.take(i as int) =~= bytes@);
    s
}

/// The lookup key of a password in the breach-count cache.
pub open spec fn fingerprint_of(password: Seq<u8>, master_key: Seq<u8>) -> Seq<char> {
    hex(hmac_sha256(hibp_cache_key_of(master_key), password))
}

proof fn lemma_hex_char(a: int, b: int)
    requires
        0 <= a < 16,
        0 <= b < 16,
        hex_char(a) == hex_char(b),
    ensures
        a == b,
{
}

/// Hexadecimal digits say which bytes they stand for.
pub proof fn law_hex_is_faithful(a: Seq<u8>, b: Seq<u8>)
    requires
        hex(a) == hex(b),
    ensures
        a == b,
{
    assert(hex(a).len() == 2 * a.len() && hex(b).len() == 2 * b.len());
    assert(a.len() == b.len());
    assert forall|i: int| 0 <= i < a.len() implies a[i] == b[i] by {
        let j = 2 * i;
        assert(j / 2 == i && j % 2 == 0 && (j + 1) / 2 == i && (j + 1) % 2 == 1);
        assert(hex(a)[j] == hex_char(a[i] as int / 16));
        assert(hex(b)[j] == hex_char(b[i] as int / 16));
        assert(hex(a)[j + 1] == hex_char(a[i] as int % 16));
        assert(hex(b)[j + 1] == hex_char(b[i] as int % 16));
        lemma_hex_char(a[i] as int / 16, b[i] as int / 16);
        lemma_hex_char(a[i] as int % 16, b[i] as int % 16);
    }
    assert(a =~= b);
}

/// Two passwords, or two master keys, whose authentication tags differ have different lookup
/// keys: what was cached for the one is never taken for the other.
pub proof fn law_different_tags_are_told_apart(
    p: Seq<u8>,
    key_p: Seq<u8>,
    q: Seq<u8>,
    key_q: Seq<u8>,
)
    requires
        hmac_sha256(hibp_cache_key_of(key_p), p) != hmac_sha256(hibp_cache_key_of(key_q), q),
    ensures
        fingerprint_of(p, key_p) != fingerprint_of(q, key_q),
{
    if fingerprint_of(p, key_p) == fingerprint_of(q, key_q) {
        law_hex_is_faithful(
            hmac_sha256(hibp_cache_key_of(key_p), p),
            hmac_sha256(hibp_cache_key_of(key_q), q),
        );
    }
}

/// Computes the lookup key of a password in the breach-count cache. It depends on the master
/// key, so entries made under another master password are never found again.
pub fn hibp_cache_fingerprint(password: &[u8], master_key: &[u8; KEY_LEN]) -> (s: String)
    ensures
        s@ == fingerprint_of(password@, master_key@),
        s@.len() == 64,
{
    let key = derive_hibp_cache_key(master_key);
    let tag = hmac(&key, password);
    hex_text(tag.as_slice())
}

/// A raw key as the hex literal that the database's `PRAGMA key` takes.
pub fn pragma_key_hex(key: &[u8; KEY_LEN]) -> (s: String)
    ensures
        s@ == hex(key@),
{
    hex_text(key.as_slice())
}

/// The plaintext of a payload made of a nonce and a sealed message.
pub open spec fn opened(data: Seq<u8>, key: Seq<u8>) -> Result<Seq<u8>, Seq<char>> {
    if data.len() < NONCE_LEN {
        Err("Encrypted data is too short"@)
    } else if data.len() > NONCE_LEN + MAX_PLAINTEXT + 16 {
        Err("aead::Error"@)
    } else {
        match xchacha_open(key, data.take(NONCE_LEN as int), data.skip(NONCE_LEN as int)) {
            Some(p) => Ok(p),
            None => Err("aead::Error"@),
        }
    }
}

/// Whether a payload decrypts to `plaintext` under `key`.
pub open spec fn opens_to(data: Seq<u8>, key: Seq<u8>, plaintext: Seq<u8>) -> bool {
    opened(data, key) matches Ok(p) && p == plaintext
}

/// Whether a payload is what encrypting `plaintext` under `key` with some nonce gives.
pub open spec fn seals(data: Seq<u8>, plaintext: Seq<u8>, key: Seq<u8>) -> bool {
    data.len() == NONCE_LEN + plaintext.len() + 16 && xchacha_seal(
        key,
        data.take(NONCE_LEN as int),
        plaintext,
    ) == data.skip(NONCE_LEN as int)
}

/// The sizes that encryption accepts.
pub open spec fn sealable(plaintext: Seq<u8>) -> bool {
    plaintext.len() <= MAX_PLAINTEXT
}

/// Encrypts under a fresh random nonce: the nonce, then ciphertext and tag. Decrypting the
/// payload gives the plaintext back.
pub fn encrypt(plaintext: &[u8], key: &[u8; KEY_LEN]) -> (r: Result<Vec<u8>, String>)
    ensures
        r matches Ok(data) ==> seals(data@, plaintext@, key@) && opens_to(data@, key@, plaintext@),
        r matches Err(e) ==> e@ == "aead::Error"@,
        (r is Ok) == sealable(plaintext@),
{
    let nonce_bytes = random_bytes(NONCE_LEN);
    let nonce = array_of::<NONCE_LEN>(nonce_bytes.as_slice());
    seal_with_nonce(plaintext, key, &nonce)
}

/// Encrypts under the given nonce.
pub fn seal_with_nonce(plaintext: &[u8], key: &[u8; KEY_LEN], nonce: &[u8; NONCE_LEN]) -> (r: Result<
    Vec<u8>,
    String,
>)
    ensures
        r matches Ok(data) ==> data@.take(NONCE_LEN as int) == nonce@ && seals(
            data@,
            plaintext@,
            key@,
        ) && opens_to(data@, key@, plaintext@),
        r matches Err(e) ==> e@ == "aead::Error"@,
        (r is Ok) == sealable(plaintext@),
{
    if plaintext.len() as u64 > MAX_PLAINTEXT {
        return Err("aead::Error".to_owned());
    }
    match aead_seal(key, nonce, plaintext) {
        Some(sealed) => {
            let mut data: Vec<u8> = Vec::new();
            data.extend_from_slice(nonce.as_slice());
            data.extend_from_slice(sealed.as_slice());
            assert(data@.take(NONCE_LEN as int) =~= nonce@);
            assert(data@.skip(NONCE_LEN as int) =~= sealed@);
            Ok(data)
        },
        None => Err("aead::Error".to_owned()),
    }
}

/// Decrypts a payload made of a nonce and a sealed message.
pub fn decrypt(encrypted_data: &[u8], key: &[u8; KEY_LEN]) -> (r: Result<Vec<u8>, String>)
    ensures
        outcome(r) == opened(encrypted_data@, key@),
        r matches Ok(p) ==> sealable(p@) && p@.len() + NONCE_LEN + 16 == encrypted_data@.len(),
{
    if encrypted_data.len() < NONCE_LEN {
        return Err("Encrypted data is too short".to_owned());
    }
    if (encrypted_data.len() - NONCE_LEN) as u64 > MAX_PLAINTEXT + 16 {
        return Err("aead::Error".to_owned());
    }
    let (head, sealed) = encrypted_data.split_at(NONCE_LEN);
    let nonce = array_of::<NONCE_LEN>(head);
    assert(head@ =~= encrypted_data@.take(NONCE_LEN as int));
    assert(head@.take(NONCE_LEN as int) =~= head@);
    assert(sealed@ =~= encrypted_data@.skip(NONCE_LEN as int));
    match aead_open(key, &nonce, sealed) {
        Some(p) => Ok(p),
        None => Err("aead::Error".to_owned()),
    }
}

} // verus!
