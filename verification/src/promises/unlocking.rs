//! Creating and opening vaults, the keys they are under, and the files they are in.
use vstd::prelude::*;
use vstd::utf8::*;

use crate::crypto::{
    argon2id_hash, decrypt, derive_hibp_cache_key, derive_key, derive_key_legacy,
    derive_sqlcipher_key, encrypt, hex_text, hibp_cache_fingerprint, hkdf_sha256, hmac_sha256,
    opened, outcome, pragma_key_hex, seal_with_nonce, xchacha_open, xchacha_seal, MAX_PLAINTEXT,
};
use crate::db::identity::{is_uuid_v4, new_uuid, stamped, uuid_text};
use crate::db::layout::{
    detect_vault_state, is_first_run, migrating_tmp_path, pre_rekey_backup_path,
    pre_sqlcipher_backup_path, read_embedded_salt, read_salt_sidecar, rekeying_tmp_path,
    salt_sidecar_path, verify_embedded_salt, HeadRead, VaultFiles, VaultState,
};
use crate::db::records::{RecordView, SecretRecord, Vault};
use crate::db::schema::{current_tables, ensure_schema, upgraded, SchemaFacts};
use crate::db::store::insert_record;
use crate::db::swap::{
    advance_swap, begin_swap, describe_swap, swap_backup_path, SwapError, SwapEvent, SwapKind,
    SwapPhase, SwapSession,
};
use crate::db::unlock::{
    check_token, create_vault, create_vault_with_salt, open_vault, refusal_of, seal_token,
    unlock_keys, StoredVault, VaultKeys,
};
use crate::db::version::{
    parse_version, raise_floor, version_satisfies, word_too_old, MIN_COMPATIBLE_APP_VERSION,
};
use crate::text::{
    digits_value, lemma_lex_irreflexive, lemma_lex_transitive, lex_lt, split_on, trimmed,
};

verus! {

/// The payload of a text is a nonce and what the cipher makes of the text under it: it opens
/// under the key that it was made with, to exactly that text.
pub proof fn law_encryption_is_undone(
    plaintext: &[u8],
    key: &[u8; 32],
    sealed: Result<Vec<u8>, String>,
    data: &[u8],
    back: Result<Vec<u8>, String>,
)
    requires
        call_ensures(encrypt, (plaintext, key), sealed),
        sealed matches Ok(d) ==> d@ == data@,
        call_ensures(decrypt, (data, key), back),
    ensures
        sealed is Ok <==> plaintext@.len() <= MAX_PLAINTEXT,
        sealed is Ok ==> back is Ok && back->Ok_0@ == plaintext@,
        sealed is Ok ==> data@.len() == 24 + plaintext@.len() + 16,
        sealed is Ok ==> data@.skip(24) == xchacha_seal(key@, data@.take(24), plaintext@),
{
}

/// What is decrypted is what the cipher opens behind the nonce, and nothing else is.
pub proof fn law_decryption_is_the_ciphers(data: &[u8], key: &[u8; 32], r: Result<Vec<u8>, String>)
    requires
        call_ensures(decrypt, (data, key), r),
    ensures
        data@.len() < 24 ==> (r matches Err(e) && e@ == "Encrypted data is too short"@),
        24 <= data@.len() <= MAX_PLAINTEXT ==> (match xchacha_open(
            key@,
            data@.take(24),
            data@.skip(24),
        ) {
            Some(p) => r matches Ok(x) && x@ == p,
            None => r matches Err(e) && e@ == "aead::Error"@,
        }),
{
}

/// The key of a password comes of Argon2id with 64 MiB, three passes and four lanes, the former
/// one with 15 MiB, two passes and one lane; the keys for the file and for the cache come of it
/// under labels of their own.
pub proof fn law_keys_are_derived_at_the_stated_cost(
    password: &str,
    salt: &[u8],
    r: Result<[u8; 32], String>,
    l: Result<[u8; 32], String>,
    master: &[u8; 32],
    page: [u8; 32],
    cache: [u8; 32],
)
    requires
        call_ensures(derive_key, (password, salt), r),
        call_ensures(derive_key_legacy, (password, salt), l),
        call_ensures(derive_sqlcipher_key, (master,), page),
        call_ensures(derive_hibp_cache_key, (master,), cache),
    ensures
        outcome(r) == argon2id_hash(encode_utf8(password@), salt@, 65536, 3, 4),
        outcome(l) == argon2id_hash(encode_utf8(password@), salt@, 15360, 2, 1),
        page@ == hkdf_sha256(master@, encode_utf8("keystash-sqlcipher-page-key-v1"@)),
        cache@ == hkdf_sha256(master@, encode_utf8("keystash-hibp-cache-key-v1"@)),
{
}

/// The lookup key of a password is an authentication tag of it under the cache's key, written in
/// hexadecimal digits: it depends on the password and the master key, and on nothing else.
pub proof fn law_fingerprint_is_keyed(
    password: &[u8],
    master: &[u8; 32],
    cache: [u8; 32],
    s: String,
    tag: &[u8],
    digits: String,
)
    requires
        call_ensures(hibp_cache_fingerprint, (password, master), s),
        call_ensures(derive_hibp_cache_key, (master,), cache),
        tag@ == hmac_sha256(cache@, password@),
        call_ensures(hex_text, (tag,), digits),
    ensures
        s@ == digits@,
        s@.len() == 64,
{
}

/// Whether a character is the hexadecimal digit of a number.
pub open spec fn is_hex_digit(c: char, n: int) -> bool {
    if n < 10 {
        c as int == '0' as int + n
    } else {
        c as int == 'a' as int + n - 10
    }
}

/// Bytes are written as two small hexadecimal digits each, the upper half first.
pub proof fn law_hex_is_two_digits_a_byte(bytes: &[u8], s: String, i: int)
    requires
        call_ensures(hex_text, (bytes,), s),
        0 <= i < bytes@.len(),
    ensures
        s@.len() == 2 * bytes@.len(),
        is_hex_digit(s@[2 * i], bytes@[i] as int / 16),
        is_hex_digit(s@[2 * i + 1], bytes@[i] as int % 16),
{
    let j = 2 * i;
    assert(j / 2 == i && j % 2 == 0 && (j + 1) / 2 == i && (j + 1) % 2 == 1);
}

/// A new identity has the form of a random UUID: 36 characters, hyphens after the eighth,
/// twelfth, sixteenth and twentieth digit, and the version's digit 4.
pub proof fn law_identities_are_uuids(s: String)
    requires
        call_ensures(new_uuid, (), s),
    ensures
        s@.len() == 36,
        s@[8] == '-' && s@[13] == '-' && s@[18] == '-' && s@[23] == '-',
        s@[14] == '4',
        s@[19] == '8' || s@[19] == '9' || s@[19] == 'a' || s@[19] == 'b',
{
    let b = choose|b: Seq<u8>| b.len() == 16 && s@ == #[trigger] uuid_text(stamped(b));
    let t = stamped(b);
    assert(t.len() == 16);
    assert(t[6] == (b[6] % 16 + 64) as u8);
    assert(t[6] / 16 == 4);
    assert(t[8] == (b[8] % 64 + 128) as u8);
    assert(8 <= t[8] / 16 < 12);
    let h = crate::crypto::hex(t.subrange(6, 8));
    assert(h[0] == crate::crypto::hex_char(t[6] as int / 16));
    let g = crate::crypto::hex(t.subrange(8, 10));
    assert(g[0] == crate::crypto::hex_char(t[8] as int / 16));
    let a = crate::crypto::hex(t.subrange(0, 4));
    let c = crate::crypto::hex(t.subrange(4, 6));
    let d = crate::crypto::hex(t.subrange(10, 16));
    assert(s@ == a + seq!['-'] + c + seq!['-'] + h + seq!['-'] + g + seq!['-'] + d);
    assert(a.len() == 8 && c.len() == 4 && h.len() == 4 && g.len() == 4 && d.len() == 12);
    assert(s@[14] == h[0]);
    assert(s@[19] == g[0]);
}

/// A vault is created only where there is none, opens under its password, and is empty.
pub proof fn law_created_vault_is_empty_and_opens(
    files: &VaultFiles,
    password: &str,
    r: Result<(Vault, VaultKeys), String>,
)
    requires
        call_ensures(create_vault, (files, password), r),
    ensures
        r is Ok ==> !files.exists && !files.migrating && !files.pre_sqlcipher_backup
            && !files.rekeying && !files.pre_rekey_backup,
        !files.exists && !files.migrating && !files.pre_sqlcipher_backup && !files.rekeying
            && !files.pre_rekey_backup && encode_utf8(password@).len() <= u32::MAX ==> r is Ok,
        files.exists ==> (r matches Err(e) && e@ == "Vault is already initialized."@),
        r matches Ok(p) ==> {
            &&& p.0@.secrets.len() == 0
            &&& p.0@.tombstones.len() == 0
            &&& p.0@.history.len() == 0
            &&& p.0@.hibp.len() == 0
            &&& p.0@.floor == Some(MIN_COMPATIBLE_APP_VERSION@)
            &&& p.0@.token matches Some(t) && opened(t, p.1.master_key@) == Ok::<Seq<u8>, Seq<char>>(
                encode_utf8("keystash-verification-token"@),
            )
            &&& argon2id_hash(encode_utf8(password@), p.1.salt@, 65536, 3, 4) == Ok::<
                Seq<u8>,
                Seq<char>,
            >(p.1.master_key@)
            &&& p.1.sqlcipher_key@ == hkdf_sha256(
                p.1.master_key@,
                encode_utf8("keystash-sqlcipher-page-key-v1"@),
            )
        },
{
}

/// A vault in the present layout opens exactly under a key that its token opens under and by a
/// program that is not too old, and opens as it was stored, but for a floor that is never
/// lowered; else it is not opened.
pub proof fn law_vault_opens_as_it_was_stored(
    stored: StoredVault,
    key: &[u8; 32],
    version: &str,
    r: Result<Vault, String>,
    token: Seq<u8>,
    floor: String,
)
    requires
        call_ensures(open_vault, (Some(stored), key, version), r),
        call_ensures(raise_floor, (&stored.vault.min_app_version,), floor),
        stored.vault@.wf(),
        stored.schema.has_url,
        stored.schema.has_sync_uuid,
        stored.schema.has_tombstone_uuid,
        !stored.schema.tombstones_keyed_on_triple,
        stored.vault@.token == Some(token),
    ensures
        r is Ok <==> opened(token, key@) == Ok::<Seq<u8>, Seq<char>>(
            encode_utf8("keystash-verification-token"@),
        ) && (stored.vault@.floor matches Some(f) ==> crate::db::version::satisfies(version@, f)),
        r matches Ok(v) ==> v@.secrets == stored.vault@.secrets && v@.tombstones
            == stored.vault@.tombstones && v@.history == stored.vault@.history && v@.hibp
            == stored.vault@.hibp && v@.token == stored.vault@.token && v@.floor == Some(floor@),
        opened(token, key@) != Ok::<Seq<u8>, Seq<char>>(
            encode_utf8("keystash-verification-token"@),
        ) && (stored.vault@.floor matches Some(f) ==> crate::db::version::satisfies(version@, f))
            ==> (r matches Err(e) && e@ == "Incorrect master password."@),
{
    let fresh = choose|fresh: Seq<Seq<char>>|
        fresh.len() >= stored.vault@.secrets.len() && (forall|i: int|
            0 <= i < fresh.len() ==> is_uuid_v4(#[trigger] fresh[i])) && match r {
            Ok(v) => #[trigger] refusal_of(stored, key@, version@, fresh) is None && v@ == upgraded(
                stored.vault@,
                stored.schema,
                fresh,
            ) && v@.wf(),
            Err(e) => refusal_of(stored, key@, version@, fresh) == Some(e@),
        };
    assert(stored.schema == current_tables());
    crate::db::schema::law_current_schema_is_left_alone(stored.vault@, fresh);
}

/// A vault of an older layout opens with every record: each keeps what it holds, and gets an
/// identity where it has none.
pub proof fn law_older_layouts_keep_their_records(
    stored: StoredVault,
    key: &[u8; 32],
    version: &str,
    v: Vault,
    i: int,
)
    requires
        call_ensures(open_vault, (Some(stored), key, version), Ok(v)),
        0 <= i < stored.vault@.secrets.len(),
    ensures
        v@.secrets.len() == stored.vault@.secrets.len(),
        ({
            let a = stored.vault@.secrets[i];
            let b = v@.secrets[i];
            &&& b.id == a.id
            &&& b.title == a.title
            &&& b.category == a.category
            &&& b.username == a.username
            &&& b.password == a.password
            &&& b.notes == a.notes
            &&& b.updated_at == a.updated_at
            &&& stored.schema.has_url ==> b.url == a.url
            &&& stored.schema.has_sync_uuid ==> b.uuid == a.uuid
            &&& !stored.schema.has_sync_uuid ==> is_uuid_v4(b.uuid)
        }),
        v@.history == stored.vault@.history,
        v@.token == stored.vault@.token,
{
    let r: Result<Vault, String> = Ok(v);
    let fresh = choose|fresh: Seq<Seq<char>>|
        fresh.len() >= stored.vault@.secrets.len() && (forall|i: int|
            0 <= i < fresh.len() ==> is_uuid_v4(#[trigger] fresh[i])) && match r {
            Ok(v) => #[trigger] refusal_of(stored, key@, version@, fresh) is None && v@ == upgraded(
                stored.vault@,
                stored.schema,
                fresh,
            ) && v@.wf(),
            Err(e) => refusal_of(stored, key@, version@, fresh) == Some(e@),
        };
    assert(is_uuid_v4(fresh[i]));
}

/// Tombstones of an older layout are kept, of several for one identity the latest; those without
/// an identity are all kept.
pub proof fn law_older_layouts_keep_their_tombstones(
    stored: StoredVault,
    key: &[u8; 32],
    version: &str,
    v: Vault,
    i: int,
)
    requires
        call_ensures(open_vault, (Some(stored), key, version), Ok(v)),
        0 <= i < stored.vault@.tombstones.len(),
        stored.schema.has_tombstone_uuid,
        forall|j: int|
            0 <= j < stored.vault@.tombstones.len() && j != i && stored.vault@.tombstones[i].uuid is Some
                && (#[trigger] stored.vault@.tombstones[j]).uuid == stored.vault@.tombstones[i].uuid
                ==> lex_lt(stored.vault@.tombstones[j].deleted_at, stored.vault@.tombstones[i].deleted_at),
    ensures
        v@.tombstones.contains(stored.vault@.tombstones[i]),
{
    let r: Result<Vault, String> = Ok(v);
    let fresh = choose|fresh: Seq<Seq<char>>|
        fresh.len() >= stored.vault@.secrets.len() && (forall|i: int|
            0 <= i < fresh.len() ==> is_uuid_v4(#[trigger] fresh[i])) && match r {
            Ok(v) => #[trigger] refusal_of(stored, key@, version@, fresh) is None && v@ == upgraded(
                stored.vault@,
                stored.schema,
                fresh,
            ) && v@.wf(),
            Err(e) => refusal_of(stored, key@, version@, fresh) == Some(e@),
        };
    let t = crate::db::schema::completed_marks(stored.vault@.tombstones, stored.schema);
    assert(t =~= stored.vault@.tombstones);
    if stored.schema.tombstones_keyed_on_triple {
        assert(!crate::db::schema::superseded(t, i)) by {
            if crate::db::schema::superseded(t, i) {
                let j = choose|j: int|
                    0 <= j < t.len() && #[trigger] crate::db::schema::supersedes(t, j, i);
                if j != i {
                    assert(t[j].uuid == t[i].uuid);
                    assert(lex_lt(t[j].deleted_at, t[i].deleted_at));
                    if lex_lt(t[i].deleted_at, t[j].deleted_at) {
                        lemma_lex_transitive(t[i].deleted_at, t[j].deleted_at, t[i].deleted_at);
                    }
                    lemma_lex_irreflexive(t[i].deleted_at);
                } else {
                    lemma_lex_irreflexive(t[i].deleted_at);
                }
            }
        }
        crate::db::schema::law_rebuild_keeps_the_newest(t, i);
    }
}

/// A token is known exactly where it opens under the key to what every token holds, and a new one
/// does.
pub proof fn law_tokens_prove_the_key(
    data: &[u8],
    key: &[u8; 32],
    b: bool,
    sealed: Result<Vec<u8>, String>,
)
    requires
        call_ensures(check_token, (data, key), b),
        call_ensures(seal_token, (key,), sealed),
    ensures
        b <==> opened(data@, key@) == Ok::<Seq<u8>, Seq<char>>(
            encode_utf8("keystash-verification-token"@),
        ),
        sealed matches Ok(d) && opened(d@, key@) == Ok::<Seq<u8>, Seq<char>>(
            encode_utf8("keystash-verification-token"@),
        ),
{
}

/// A record that is put in is the last, as it is but for its number, which is new; where no
/// number is free or its identity is taken, nothing changes.
pub proof fn law_records_are_put_in_whole(vault: &mut Vault, s: SecretRecord, r: Result<(), String>, i: int)
    requires
        call_ensures(insert_record, (vault, s), r),
    ensures
        r is Ok ==> final(vault)@.secrets.len() == old(vault)@.secrets.len() + 1
            && final(vault)@.secrets.last() == (RecordView { id: old(vault)@.next_id, ..s@ })
            && final(vault)@.next_id == old(vault)@.next_id + 1,
        r is Ok && 0 <= i < old(vault)@.secrets.len() ==> final(vault)@.secrets[i]
            == old(vault)@.secrets[i] && old(vault)@.secrets[i].uuid != s.sync_uuid@,
        r is Err ==> *final(vault) == *old(vault) && (old(vault)@.next_id >= i64::MAX || exists|k: int|
            0 <= k < old(vault)@.secrets.len() && (#[trigger] old(vault)@.secrets[k]).uuid
                == s.sync_uuid@),
{
    let v = old(vault)@;
    if r is Ok && 0 <= i < v.secrets.len() && v.secrets[i].uuid == s.sync_uuid@ {
        assert(crate::db::records::has_uuid(v.secrets, s@.uuid));
    }
}

/// Past passwords are kept to ten a record, tombstones for ninety days, and vaults need this
/// version.
pub proof fn law_limits()
    ensures
        crate::db::store::PASSWORD_HISTORY_CAP == 10,
        crate::db::store::TOMBSTONE_AGE_DAYS == 90,
        MIN_COMPATIBLE_APP_VERSION@ == "0.3.6"@,
        crate::sync::IGNORE_TEXT@ == "*\n!vault.db\n"@,
{
}

/// A vault that is created under a given salt has keys of it.
pub proof fn law_created_vault_has_its_salt(
    files: &VaultFiles,
    password: &str,
    salt: &[u8; 16],
    p: (Vault, VaultKeys),
)
    requires
        call_ensures(create_vault_with_salt, (files, password, salt), Ok(p)),
    ensures
        p.1.salt@ == salt@,
        argon2id_hash(encode_utf8(password@), salt@, 65536, 3, 4) == Ok::<Seq<u8>, Seq<char>>(
            p.1.master_key@,
        ),
        p.0@.secrets.len() == 0,
        p.0@.token matches Some(t) && opened(t, p.1.master_key@) == Ok::<Seq<u8>, Seq<char>>(
            encode_utf8("keystash-verification-token"@),
        ),
        !files.exists,
{
}

/// Bringing the tables up to date keeps every record, and gives it the identity that is meant for
/// it where it has none.
pub proof fn law_upgrade_keeps_every_record(
    vault: &mut Vault,
    facts: SchemaFacts,
    fresh: &Vec<String>,
    i: int,
)
    requires
        call_ensures(ensure_schema, (vault, facts, fresh), Ok(())),
        fresh@.len() >= old(vault)@.secrets.len(),
        0 <= i < old(vault)@.secrets.len(),
    ensures
        final(vault)@.secrets.len() == old(vault)@.secrets.len(),
        final(vault)@.secrets[i] == (RecordView {
            url: if facts.has_url {
                old(vault)@.secrets[i].url
            } else {
                Seq::empty()
            },
            uuid: if facts.has_sync_uuid {
                old(vault)@.secrets[i].uuid
            } else {
                fresh@[i]@
            },
            ..old(vault)@.secrets[i]
        }),
        final(vault)@.history == old(vault)@.history,
        final(vault)@.hibp == old(vault)@.hibp,
        final(vault)@.token == old(vault)@.token,
{
    assert(crate::text::texts(fresh@)[i] == fresh@[i]@);
}

/// A payload that is made under a given nonce begins with it, and opens again.
pub proof fn law_nonce_comes_first(
    plaintext: &[u8],
    key: &[u8; 32],
    nonce: &[u8; 24],
    r: Result<Vec<u8>, String>,
)
    requires
        call_ensures(seal_with_nonce, (plaintext, key, nonce), r),
    ensures
        r is Ok <==> plaintext@.len() <= MAX_PLAINTEXT,
        r matches Ok(d) ==> d@.take(24) == nonce@ && d@.skip(24) == xchacha_seal(
            key@,
            nonce@,
            plaintext@,
        ) && opened(d@, key@) == Ok::<Seq<u8>, Seq<char>>(plaintext@),
{
}

/// The key of the file is handed over in hexadecimal digits.
pub proof fn law_file_key_is_written_in_hex(key: &[u8; 32], bytes: &[u8], a: String, b: String)
    requires
        bytes@ == key@,
        call_ensures(pragma_key_hex, (key,), a),
        call_ensures(hex_text, (bytes,), b),
    ensures
        a@ == b@,
        a@.len() == 64,
{
}

/// Where an exchanged vault does not open, its user is told where the backup is, and a backup
/// lies where the message says.
pub proof fn law_failed_exchange_names_the_backup(
    kind: SwapKind,
    error: String,
    path: &str,
    s: String,
    backup: String,
)
    requires
        call_ensures(describe_swap, (kind, &SwapError::ReopenFailed { error }, path), s),
        call_ensures(swap_backup_path, (kind, path), backup),
        kind != SwapKind::Migration,
    ensures
        exists|x: Seq<char>, y: Seq<char>| s@ == #[trigger] (x + crate::text::quoted(backup@) + y),
{
    let q = crate::text::quoted(backup@);
    if kind == SwapKind::Conversion {
        let x = "Salt conversion produced a vault that failed to reopen ("@ + error@
            + "). The pre-conversion backup was kept at "@;
        assert(s@ =~= x + q + " and the salt file was left in place."@);
    } else {
        let x = "Key rotation produced a vault that failed to reopen ("@ + error@
            + "). The pre-rotation backup was kept at "@;
        assert(s@ =~= x + q + "."@);
    }
}

/// A migration's backup is kept apart from that of a password change.
pub proof fn law_backups_have_their_names(kind: SwapKind, path: &str, r: String, a: String, b: String)
    requires
        call_ensures(swap_backup_path, (kind, path), r),
        call_ensures(pre_sqlcipher_backup_path, (path,), a),
        call_ensures(pre_rekey_backup_path, (path,), b),
    ensures
        kind == SwapKind::Migration ==> r@ == a@,
        kind != SwapKind::Migration ==> r@ == b@,
{
}

/// What is too old is told which version is needed and which is running.
pub proof fn law_refusal_names_both_versions(what: &str, verb: &str, required: &str, running: &str, s: String)
    requires
        call_ensures(word_too_old, (what, verb, required, running), s),
    ensures
        s@ == what@ + " requires KeyStash v"@ + required@ + " or newer to "@ + verb@
            + ". You are running v"@ + running@ + ". Please update KeyStash and try again."@,
{
}

/// The salt in a file of its own is that file, if it has the right length.
pub proof fn law_salt_file_is_the_salt(read: &Result<Vec<u8>, String>, s: Result<[u8; 16], String>)
    requires
        call_ensures(read_salt_sidecar, (read,), s),
    ensures
        s is Ok <==> *read is Ok && (*read)->Ok_0@.len() == 16,
        s matches Ok(x) ==> x@ == (*read)->Ok_0@,
{
}

/// What cannot be read as a vault at all is answered as a wrong password is, and a vault without
/// a token is never opened.
pub proof fn law_unreadable_vaults_do_not_open(
    contents: Option<StoredVault>,
    key: &[u8; 32],
    version: &str,
    r: Result<Vault, String>,
)
    requires
        call_ensures(open_vault, (contents, key, version), r),
    ensures
        contents is None ==> (r matches Err(e) && e@ == "Incorrect master password."@),
        contents matches Some(s) && s.vault@.token is None ==> r is Err,
{
}

/// The salt is that of the salt file where there is one, and else the head of the vault's file,
/// which must not be that of an unencrypted database.
pub proof fn law_salt_is_found(
    sidecar: &Option<Result<Vec<u8>, String>>,
    head: &HeadRead,
    password: &str,
    r: Result<VaultKeys, String>,
)
    requires
        call_ensures(unlock_keys, (sidecar, head, password), r),
    ensures
        r is Ok && *sidecar is None ==> (*head matches HeadRead::Head { bytes } && bytes@
            == r->Ok_0.salt@),
        r is Ok && *sidecar is Some ==> (sidecar->0 matches Ok(b) && b@ == r->Ok_0.salt@),
        r matches Ok(k) ==> argon2id_hash(encode_utf8(password@), k.salt@, 65536, 3, 4) == Ok::<
            Seq<u8>,
            Seq<char>,
        >(k.master_key@),
        *sidecar is None && !(*head is Head) ==> r is Err,
{
}

/// A database that begins as every unencrypted one does is told from an encrypted vault, whose
/// first sixteen bytes are its salt.
pub proof fn law_unencrypted_files_carry_no_salt(
    head: &HeadRead,
    r: Result<[u8; 16], String>,
    expected: &[u8; 16],
    v: Result<(), String>,
)
    requires
        call_ensures(read_embedded_salt, (head,), r),
        call_ensures(verify_embedded_salt, (head, expected), v),
    ensures
        r is Ok <==> (*head matches HeadRead::Head { bytes } && bytes@ != magic()),
        r matches Ok(s) ==> *head == (HeadRead::Head { bytes: s }) || (*head matches HeadRead::Head {
            bytes,
        } && bytes@ == s@),
        v is Ok <==> r is Ok && r->Ok_0@ == expected@,
{
}

/// How an unencrypted database file begins: `SQLite format 3` and a zero.
pub open spec fn magic() -> Seq<u8> {
    seq![0x53, 0x51, 0x4c, 0x69, 0x74, 0x65, 0x20, 0x66, 0x6f, 0x72, 0x6d, 0x61, 0x74, 0x20, 0x33, 0]
}

/// What the files say: an encrypted vault is ready whatever else lies about; an unencrypted one
/// is to be migrated unless a migration was cut off; without a vault, what is left tells what
/// was cut off; and where nothing is left, all is new.
pub proof fn law_files_tell_the_state(f: &VaultFiles, s: VaultState, first: bool)
    requires
        call_ensures(detect_vault_state, (f,), s),
        call_ensures(is_first_run, (f,), first),
    ensures
        first == (s == VaultState::New),
        f.exists && (f.head matches Some(h) ==> h@ != magic()) ==> s == VaultState::Ready,
        f.exists && (f.head matches Some(h) && h@ == magic()) ==> s == (if f.migrating
            || f.pre_sqlcipher_backup {
            VaultState::InterruptedMigration
        } else {
            VaultState::NeedsMigration
        }),
        !f.exists && (f.migrating || f.pre_sqlcipher_backup) ==> s
            == VaultState::InterruptedMigration,
        !f.exists && !f.migrating && !f.pre_sqlcipher_backup && (f.rekeying || f.pre_rekey_backup)
            ==> s == VaultState::InterruptedRotation,
        !f.exists && !f.migrating && !f.pre_sqlcipher_backup && !f.rekeying && !f.pre_rekey_backup
            ==> s == VaultState::New,
{
}

/// The files beside a vault in a directory have names of their own in that directory.
pub proof fn law_side_files_lie_beside_the_vault(
    path: &str,
    dir: Seq<char>,
    name: Seq<char>,
    migrating: String,
    backup: String,
    rekeying: String,
    rekey_backup: String,
    salt: String,
)
    requires
        call_ensures(migrating_tmp_path, (path,), migrating),
        call_ensures(pre_sqlcipher_backup_path, (path,), backup),
        call_ensures(rekeying_tmp_path, (path,), rekeying),
        call_ensures(pre_rekey_backup_path, (path,), rekey_backup),
        call_ensures(salt_sidecar_path, (path,), salt),
        path@ == dir + seq!['/'] + name,
        dir.len() > 1,
        dir[0] == '/',
        dir.last() != '/',
        dir.last() != '.',
        name.len() > 0,
        !name.contains('/'),
        name != seq!['.'],
        name != seq!['.', '.'],
    ensures
        migrating@ == dir + "/vault.db.migrating"@,
        backup@ == dir + "/vault.db.pre-sqlcipher-backup"@,
        rekeying@ == dir + "/vault.db.rekeying"@,
        rekey_backup@ == dir + "/vault.db.pre-rekey-backup"@,
        salt@ == dir + "/vault.salt"@,
{
    lemma_dir_part(dir, name);
    reveal_strlit("/vault.db.migrating");
    reveal_strlit("vault.db.migrating");
    assert(seq!['/'] + "vault.db.migrating"@ =~= "/vault.db.migrating"@);
    reveal_strlit("/vault.db.pre-sqlcipher-backup");
    reveal_strlit("vault.db.pre-sqlcipher-backup");
    assert(seq!['/'] + "vault.db.pre-sqlcipher-backup"@ =~= "/vault.db.pre-sqlcipher-backup"@);
    reveal_strlit("/vault.db.rekeying");
    reveal_strlit("vault.db.rekeying");
    assert(seq!['/'] + "vault.db.rekeying"@ =~= "/vault.db.rekeying"@);
    reveal_strlit("/vault.db.pre-rekey-backup");
    reveal_strlit("vault.db.pre-rekey-backup");
    assert(seq!['/'] + "vault.db.pre-rekey-backup"@ =~= "/vault.db.pre-rekey-backup"@);
    reveal_strlit("/vault.salt");
    reveal_strlit("vault.salt");
    assert(seq!['/'] + "vault.salt"@ =~= "/vault.salt"@);
    assert(migrating@ =~= dir + (seq!['/'] + "vault.db.migrating"@));
    assert(backup@ =~= dir + (seq!['/'] + "vault.db.pre-sqlcipher-backup"@));
    assert(rekeying@ =~= dir + (seq!['/'] + "vault.db.rekeying"@));
    assert(rekey_backup@ =~= dir + (seq!['/'] + "vault.db.pre-rekey-backup"@));
    assert(salt@ =~= dir + (seq!['/'] + "vault.salt"@));
}

proof fn lemma_last_start(dir: Seq<char>, name: Seq<char>, n: int)
    requires
        !name.contains('/'),
        0 <= n <= dir.len(),
    ensures
        crate::db::layout::last_start(dir + seq!['/'] + name, n) == dir.len() + 1,
    decreases name.len(),
{
    let p = dir + seq!['/'] + name;
    if name.len() == 0 {
        assert(p.last() == '/');
    } else {
        assert(name.contains(name.last())) by {
            assert(name[name.len() - 1] == name.last());
        }
        assert(p.last() == name.last());
        let m = name.drop_last();
        assert(p.drop_last() =~= dir + seq!['/'] + m);
        assert(!m.contains('/')) by {
            if m.contains('/') {
                let k = choose|k: int| 0 <= k < m.len() && m[k] == '/';
                assert(name[k] == '/');
            }
        }
        lemma_last_start(dir, m, n);
    }
}

proof fn lemma_start_bounds(path: Seq<char>, n: int)
    requires
        0 <= n <= path.len(),
    ensures
        n <= crate::db::layout::last_start(path, n) <= path.len(),
        path.len() > n && path.last() != '/' ==> crate::db::layout::last_start(path, n) < path.len(),
    decreases path.len(),
{
    if path.len() > n && path.len() > 0 && path.last() != '/' {
        lemma_start_bounds(path.drop_last(), n);
    }
}

proof fn lemma_dir_part(dir: Seq<char>, name: Seq<char>)
    requires
        dir.len() > 1,
        dir[0] == '/',
        dir.last() != '/',
        dir.last() != '.',
        name.len() > 0,
        !name.contains('/'),
        name != seq!['.'],
        name != seq!['.', '.'],
    ensures
        crate::db::layout::dir_part(dir + seq!['/'] + name) == dir,
{
    let p = dir + seq!['/'] + name;
    assert(crate::db::layout::lead(p) == 1);
    lemma_last_start(dir, name, 1);
    let k = crate::db::layout::last_start(p, 1);
    assert(p.skip(k) =~= name);
    assert(crate::db::layout::tidied(p, 1) == p);
    assert(crate::db::layout::shortened_path(p, 1) =~= dir);
    lemma_start_bounds(dir, 1);
    let last = dir.skip(crate::db::layout::last_start(dir, 1));
    assert(last.len() > 0);
    assert(last.last() == dir.last());
    assert(last != seq!['.']) by {
        assert(seq!['.'].last() == '.');
    }
    assert(crate::db::layout::tidied(dir, 1) == dir);
}

/// A version satisfies another that is not newer: the numbers are compared one after the other,
/// the first difference decides. What is no version satisfies and demands nothing.
pub proof fn law_versions_compare_by_number(
    a: &str,
    b: &str,
    va: Option<(u32, u32, u32)>,
    vb: Option<(u32, u32, u32)>,
    r: bool,
)
    requires
        call_ensures(parse_version, (a,), va),
        call_ensures(parse_version, (b,), vb),
        call_ensures(version_satisfies, (a, b), r),
    ensures
        va is None || vb is None ==> r,
        va is Some && vb is Some && (va->0).0 != (vb->0).0 ==> r == ((va->0).0 > (vb->0).0),
        va is Some && vb is Some && (va->0).0 == (vb->0).0 && (va->0).1 != (vb->0).1 ==> r == ((va->0).1
            > (vb->0).1),
        va is Some && vb is Some && (va->0).0 == (vb->0).0 && (va->0).1 == (vb->0).1 ==> r == ((va->0).2
            >= (vb->0).2),
{
}

/// What does not have three parts is no version.
pub proof fn law_versions_have_three_parts(s: &str, r: Option<(u32, u32, u32)>)
    requires
        call_ensures(parse_version, (s,), r),
        split_on(trimmed(s@), '.').len() != 3,
    ensures
        r is None,
{
}

/// A version is read as its three numbers, white space around it aside.
pub proof fn law_versions_are_read_by_their_parts(
    s: &str,
    r: Option<(u32, u32, u32)>,
    x: Seq<char>,
    y: Seq<char>,
    z: Seq<char>,
)
    requires
        call_ensures(parse_version, (s,), r),
        split_on(trimmed(s@), '.') == seq![x, y, z],
        x.len() > 0 && x[0] != '+',
        y.len() > 0 && y[0] != '+',
        z.len() > 0 && z[0] != '+',
    ensures
        r matches Some(v) ==> digits_value(x) == Some(v.0 as nat) && digits_value(y) == Some(
            v.1 as nat,
        ) && digits_value(z) == Some(v.2 as nat),
        r is None ==> digits_value(x) is None || digits_value(y) is None || digits_value(z) is None
            || digits_value(x)->0 > u32::MAX || digits_value(y)->0 > u32::MAX || digits_value(z)->0
            > u32::MAX,
{
    let p = split_on(trimmed(s@), '.');
    assert(p[0] == x && p[1] == y && p[2] == z);
}

/// The floor of a vault only ever rises: the one that is kept is satisfied by what was stored or
/// by this program, and by nothing older than either.
pub proof fn law_floor_is_the_higher_of_two(
    stored: &Option<String>,
    r: String,
    a: &str,
    own: &str,
    reached: bool,
)
    requires
        call_ensures(raise_floor, (stored,), r),
        own@ == MIN_COMPATIBLE_APP_VERSION@,
        stored matches Some(s) ==> s@ == a@,
        call_ensures(version_satisfies, (a, own), reached),
    ensures
        *stored is None ==> r@ == own@,
        *stored is Some && reached ==> r@ == a@,
        *stored is Some && !reached ==> r@ == own@,
{
}

/// Nothing moves a vault's file away before its replacement is built and carries its salt; the
/// backup is dropped only once the replacement has been opened, and where a step fails the swap
/// ends there.
pub proof fn law_swap_is_careful(s: SwapSession, e: SwapEvent, r: SwapSession)
    requires
        call_ensures(advance_swap, (s, e), r),
        s.inv(),
    ensures
        r.inv(),
        r.moved_away && !s.moved_away ==> s.verified && s.phase is BackUp,
        r.verified && !s.verified ==> (e matches SwapEvent::HeadSeen { read } && read matches HeadRead::Head {
            bytes,
        } && bytes@ == s.salt@),
        r.backup_dropped && !s.backup_dropped ==> s.reopened,
        (e matches SwapEvent::Finished { error: Some(x) }) && (s.phase is Build || s.phase is Checkpoint
            || s.phase is BackUp || s.phase is MoveIn || s.phase is Reopen) ==> (
        r.phase matches SwapPhase::Done { error: Some(y) }),
        s.phase is Done ==> r.phase == s.phase,
{
}

/// A swap in which every step succeeds runs through them all: the file is built and checked, the
/// old one set aside, the new one moved in and opened, and only then are leftovers removed.
pub proof fn law_swap_reaches_its_end(
    kind: SwapKind,
    salt: [u8; 16],
    s0: SwapSession,
    s1: SwapSession,
    s2: SwapSession,
)
    requires
        call_ensures(begin_swap, (kind, salt), s0),
        call_ensures(advance_swap, (s0, SwapEvent::Finished { error: None }), s1),
        salt@ != magic(),
        call_ensures(
            advance_swap,
            (s1, SwapEvent::HeadSeen { read: HeadRead::Head { bytes: salt } }),
            s2,
        ),
    ensures
        s0.phase is Build,
        s1.phase is VerifyHeader,
        s2.verified,
        kind == SwapKind::Migration ==> s2.phase is BackUp,
        kind != SwapKind::Migration ==> s2.phase is Checkpoint,
        !s2.moved_away,
{
}

/// The steps behind the check, each after the one before has succeeded.
pub proof fn law_swap_steps_follow_in_order(s: SwapSession, e: SwapEvent, r: SwapSession)
    requires
        call_ensures(advance_swap, (s, e), r),
        e == (SwapEvent::Finished { error: None }) || e == SwapEvent::Performed,
    ensures
        s.phase is Checkpoint && e is Finished ==> r.phase is BackUp,
        s.phase is BackUp && e is Finished ==> r.phase is MoveIn && r.moved_away,
        s.phase is MoveIn && e is Finished && s.kind != SwapKind::Migration ==> r.phase is Reopen,
        s.phase is MoveIn && e is Finished && s.kind == SwapKind::Migration ==> r.phase
            is DropStaleSidecar,
        s.phase is DropStaleSidecar && e is Performed ==> r.phase is Reopen,
        s.phase is Reopen && e is Finished && s.kind == SwapKind::Migration ==> r.phase == (
        SwapPhase::Done { error: None }),
        s.phase is Reopen && e is Finished && s.kind != SwapKind::Migration ==> r.phase is DropSidecar,
        s.phase is DropSidecar && e is Performed ==> r.phase is DropBackup,
        s.phase is DropBackup && e is Performed ==> r.phase == (SwapPhase::Done { error: None })
            && r.backup_dropped,
{
}

} // verus!
