//! Moving a vault to a new master key: a change of the master password, and the migration of a
//! vault from before full encryption.
use vstd::prelude::*;
use vstd::string::*;
use vstd::utf8::encode_utf8;

use crate::crypto::{
    decrypt, derivable, derive_key, derive_key_legacy, encrypt, error_of, generate_salt,
    legacy_key_of, master_key_of, opened, opens_to, wipe_bytes,
};
use crate::db::identity::{is_uuid_v4, new_uuids};
use crate::db::layout::{detect_vault_state, state_of, VaultFiles, VaultState};
use crate::db::records::{
    blob, lemma_marks_push, lemma_records_push, marks, records, uuids_distinct, RecordView,
    SecretRecord, Tombstone, TombstoneView, Vault, VaultView,
};
use crate::db::schema::{current_tables, upgraded};
use crate::db::store::{by_title, get_all_hibp_checks, get_secrets, is_sorting};
use crate::db::unlock::{
    check_token, derive_vault_keys, empty_vault, is_token, lemma_written_vault_opens, new_vault,
    refusal_of, seal_token, StoredVault, VaultKeys,
};
use crate::db::version::{satisfies, MIN_COMPATIBLE_APP_VERSION};
use crate::text::texts;

verus! {

/// Whether `new` under `new_key` reads as `data` under `old_key` does.
pub open spec fn resealed(data: Seq<u8>, old_key: Seq<u8>, new: Seq<u8>, new_key: Seq<u8>) -> bool {
    opened(data, old_key) matches Ok(p) && opens_to(new, new_key, p)
}

/// `resealed` for an optional payload.
pub open spec fn resealed_opt(
    data: Option<Seq<u8>>,
    old_key: Seq<u8>,
    new: Option<Seq<u8>>,
    new_key: Seq<u8>,
) -> bool {
    match data {
        Some(d) => new matches Some(n) && resealed(d, old_key, n, new_key),
        None => new is None,
    }
}

/// Why a payload does not open, if it does not.
pub open spec fn trouble(data: Seq<u8>, key: Seq<u8>) -> Option<Seq<char>> {
    match opened(data, key) {
        Ok(_) => None,
        Err(e) => Some(e),
    }
}

/// Why a record does not open, if it does not: its password comes first.
pub open spec fn record_trouble(s: RecordView, key: Seq<u8>) -> Option<Seq<char>> {
    match trouble(s.password, key) {
        Some(e) => Some(e),
        None => match s.notes {
            Some(n) => trouble(n, key),
            None => None,
        },
    }
}

/// Why the first record that does not open does not, if there is one.
pub open spec fn records_trouble(s: Seq<RecordView>, key: Seq<u8>) -> Option<Seq<char>>
    decreases s.len(),
{
    if s.len() == 0 {
        None
    } else {
        match records_trouble(s.drop_last(), key) {
            Some(e) => Some(e),
            None => record_trouble(s.last(), key),
        }
    }
}

proof fn lemma_trouble_stays(s: Seq<RecordView>, n: int, key: Seq<u8>)
    requires
        0 <= n <= s.len(),
        records_trouble(s.take(n), key) is Some,
    ensures
        records_trouble(s, key) == records_trouble(s.take(n), key),
    decreases s.len() - n,
{
    if n < s.len() {
        assert(s.take(n + 1).drop_last() =~= s.take(n));
        lemma_trouble_stays(s, n + 1, key);
    } else {
        assert(s.take(n) =~= s);
    }
}

/// Whether every record of a vault opens.
pub open spec fn opens_fully(v: VaultView, key: Seq<u8>) -> bool {
    forall|i: int| 0 <= i < v.secrets.len() ==> record_trouble(#[trigger] v.secrets[i], key) is None
}

proof fn lemma_records_trouble(s: Seq<RecordView>, key: Seq<u8>)
    ensures
        records_trouble(s, key) is None <==> forall|i: int|
            0 <= i < s.len() ==> record_trouble(#[trigger] s[i], key) is None,
    decreases s.len(),
{
    if s.len() > 0 {
        let d = s.drop_last();
        lemma_records_trouble(d, key);
        assert forall|i: int| 0 <= i < s.len() implies (#[trigger] s[i]) == (if i < d.len() {
            d[i]
        } else {
            s.last()
        }) by {}
        if records_trouble(s, key) is None {
            assert forall|i: int| 0 <= i < s.len() implies record_trouble(
                #[trigger] s[i],
                key,
            ) is None by {
                if i < d.len() {
                    assert(record_trouble(d[i], key) is None);
                }
            }
        } else if records_trouble(d, key) is Some {
            let k = choose|k: int| 0 <= k < d.len() && record_trouble(d[k], key) is Some;
            assert(s[k] == d[k]);
        } else {
            assert(s[s.len() - 1] == s.last());
        }
    }
}

/// Decrypts under one key and encrypts under another. It fails only where the payload does not
/// open.
pub fn reseal(data: &[u8], old_key: &[u8; 32], new_key: &[u8; 32]) -> (r: Result<Vec<u8>, String>)
    ensures
        r matches Ok(d) ==> resealed(data@, old_key@, d@, new_key@),
        error_of(r) == trouble(data@, old_key@),
{
    match decrypt(data, old_key) {
        Err(e) => Err(e),
        Ok(mut p) => {
            let r = encrypt(p.as_slice(), new_key);
            wipe_bytes(&mut p);
            r
        },
    }
}

/// Decrypts an optional payload under one key and encrypts it under another.
pub fn reseal_opt(data: &Option<Vec<u8>>, old_key: &[u8; 32], new_key: &[u8; 32]) -> (r: Result<
    Option<Vec<u8>>,
    String,
>)
    ensures
        r matches Ok(d) ==> resealed_opt(blob(*data), old_key@, blob(d), new_key@),
        error_of(r) == (match blob(*data) {
            Some(d) => trouble(d, old_key@),
            None => None,
        }),
{
    match data {
        None => Ok(None),
        Some(d) => match reseal(d.as_slice(), old_key, new_key) {
            Ok(n) => Ok(Some(n)),
            Err(e) => Err(e),
        },
    }
}

/// Whether `n` is the record `s` moved to a new key, under the given id, change time and
/// identity.
pub open spec fn moved(
    n: RecordView,
    s: RecordView,
    old_key: Seq<u8>,
    new_key: Seq<u8>,
    id: int,
    updated_at: Seq<char>,
    uuid: Seq<char>,
) -> bool {
    &&& n.id == id
    &&& n.title == s.title
    &&& n.category == s.category
    &&& n.username == s.username
    &&& n.url == s.url
    &&& n.updated_at == updated_at
    &&& n.uuid == uuid
    &&& resealed(s.password, old_key, n.password, new_key)
    &&& resealed_opt(s.notes, old_key, n.notes, new_key)
}

/// What a record keeps where a vault is moved: its change time and identity, or new ones.
fn move_record(
    s: &SecretRecord,
    old_key: &[u8; 32],
    new_key: &[u8; 32],
    id: i64,
    updated_at: &String,
    uuid: &String,
) -> (r: Result<SecretRecord, String>)
    ensures
        r matches Ok(n) ==> moved(
            n@,
            s@,
            old_key@,
            new_key@,
            id as int,
            updated_at@,
            uuid@,
        ),
        error_of(r) == record_trouble(s@, old_key@),
{
    let encrypted_password = match reseal(s.encrypted_password.as_slice(), old_key, new_key) {
        Ok(d) => d,
        Err(e) => {
            return Err(e);
        },
    };
    let encrypted_notes = match reseal_opt(&s.encrypted_notes, old_key, new_key) {
        Ok(d) => d,
        Err(e) => {
            return Err(e);
        },
    };
    Ok(
        SecretRecord {
            id,
            title: s.title.clone(),
            category: s.category.clone(),
            username: s.username.clone(),
            url: s.url.clone(),
            encrypted_password,
            encrypted_notes,
            updated_at: updated_at.clone(),
            sync_uuid: uuid.clone(),
        },
    )
}

/// Whether `n` is `s` rotated to a new key at `now`: renumbered from 1, everything else kept.
pub open spec fn rotated_records(
    n: Seq<RecordView>,
    s: Seq<RecordView>,
    old_key: Seq<u8>,
    new_key: Seq<u8>,
    now: Seq<char>,
) -> bool {
    n.len() == s.len() && forall|i: int|
        0 <= i < s.len() ==> moved(
            #[trigger] n[i],
            s[i],
            old_key,
            new_key,
            i + 1,
            now,
            s[i].uuid,
        )
}

fn rotate_records(v: &[SecretRecord], old_key: &[u8; 32], new_key: &[u8; 32], now: &String) -> (r: Result<
    Vec<SecretRecord>,
    String,
>)
    requires
        v@.len() < i64::MAX,
    ensures
        r matches Ok(out) ==> rotated_records(
            records(out@),
            records(v@),
            old_key@,
            new_key@,
            now@,
        ),
        error_of(r) == records_trouble(records(v@), old_key@),
{
    let mut out: Vec<SecretRecord> = Vec::new();
    let mut i: usize = 0;
    let ghost s = records(v@);
    assert(s.take(0) =~= Seq::<RecordView>::empty());
    while i < v.len()
        invariant
            i <= v@.len(),
            v@.len() < i64::MAX,
            out@.len() == i,
            forall|k: int|
                0 <= k < i ==> moved(
                    #[trigger] records(out@)[k],
                    records(v@)[k],
                    old_key@,
                    new_key@,
                    k + 1,
                    now@,
                    records(v@)[k].uuid,
                ),
            s == records(v@),
            records_trouble(s.take(i as int), old_key@) is None,
        decreases v@.len() - i,
    {
        let ghost before = records(out@);
        proof {
            assert(s[i as int] == v@[i as int]@);
            assert(s.take(i + 1).drop_last() =~= s.take(i as int));
            assert(s.take(i + 1).last() == s[i as int]);
        }
        match move_record(&v[i], old_key, new_key, i as i64 + 1, now, &v[i].sync_uuid) {
            Err(e) => {
                proof {
                    lemma_trouble_stays(s, i + 1, old_key@);
                }
                return Err(e);
            },
            Ok(n) => {
                proof {
                    lemma_records_push(out@, n);
                }
                out.push(n);
                assert forall|k: int| 0 <= k < i + 1 implies moved(
                    #[trigger] records(out@)[k],
                    records(v@)[k],
                    old_key@,
                    new_key@,
                    k + 1,
                    now@,
                    records(v@)[k].uuid,
                ) by {
                    if k < i {
                        assert(records(out@)[k] == before[k]);
                    }
                }
            },
        }
        i += 1;
    }
    assert(s.take(i as int) =~= s);
    Ok(out)
}

/// Whether `n` is the vault `v` after its master password was changed: a new token, the records
/// in the order of their titles, re-encrypted and changed at `now`, their identities kept;
/// tombstones kept; no breach counts, whose lookup keys depend on the master key, and no replaced
/// passwords.
pub open spec fn rotated_vault(
    n: VaultView,
    v: VaultView,
    sorted: Seq<RecordView>,
    old_key: Seq<u8>,
    new_key: Seq<u8>,
    now: Seq<char>,
) -> bool {
    &&& by_title(sorted)
    &&& sorted.to_multiset() == v.secrets.to_multiset()
    &&& rotated_records(n.secrets, sorted, old_key, new_key, now)
    &&& n.history.len() == 0
    &&& n.token matches Some(t) && is_token(t, new_key)
    &&& n.tombstones == v.tombstones
    &&& n.hibp.len() == 0
    &&& n.next_id == v.secrets.len() + 1
    &&& n.floor == empty_vault(n.token->0).floor
}

proof fn lemma_sorted_uuids(s: Seq<RecordView>, t: Seq<RecordView>)
    requires
        s.to_multiset() == t.to_multiset(),
        uuids_distinct(t),
    ensures
        s.len() == t.len(),
        uuids_distinct(s),
        forall|x: RecordView| s.contains(x) <==> t.contains(x),
{
    vstd::seq_lib::to_multiset_len(s);
    vstd::seq_lib::to_multiset_len(t);
    assert forall|x: RecordView| s.contains(x) <==> t.contains(x) by {
        vstd::seq_lib::to_multiset_contains(s, x);
        vstd::seq_lib::to_multiset_contains(t, x);
    }
    assert(t.no_duplicates()) by {
        assert forall|i: int, j: int| 0 <= i < t.len() && 0 <= j < t.len() && i != j implies t[i]
            != t[j] by {
            if i < j {
                assert(t[i].uuid != t[j].uuid);
            } else {
                assert(t[j].uuid != t[i].uuid);
            }
        }
    }
    t.lemma_multiset_has_no_duplicates();
    s.lemma_multiset_has_no_duplicates_conv();
    assert forall|i: int, j: int| 0 <= i < j < s.len() implies (#[trigger] s[i]).uuid != (
    #[trigger] s[j]).uuid by {
        assert(s.contains(s[i]));
        assert(s.contains(s[j]));
        let a = choose|a: int| 0 <= a < t.len() && t[a] == s[i];
        let b = choose|b: int| 0 <= b < t.len() && t[b] == s[j];
        assert(s[i] != s[j]);
        if a < b {
            assert(t[a].uuid != t[b].uuid);
        } else if b < a {
            assert(t[b].uuid != t[a].uuid);
        }
    }
}

/// Whether a change of the master password fails with the given error: the records are moved in
/// the order of their titles, and the first that does not open ends it.
pub open spec fn rotation_fails(v: VaultView, key: Seq<u8>, error: Seq<char>) -> bool {
    exists|sorted: Seq<RecordView>| #[trigger]
        is_sorting(sorted, v.secrets) && records_trouble(sorted, key) == Some(error)
}

/// Builds the vault that a new master password under the given salt leads to. The old vault is
/// only read. It fails where a field does not open under the old key.
pub fn change_master_password_with_salt(
    vault: &Vault,
    old_key: &[u8; 32],
    new_password: &str,
    salt: &[u8; 16],
    now: &str,
) -> (r: Result<(Vault, VaultKeys), String>)
    requires
        vault@.wf(),
        vault@.secrets.len() < i64::MAX,
    ensures
        r matches Ok(p) ==> {
            &&& p.0@.wf()
            &&& p.1.are_of(new_password@)
            &&& p.1.salt@ == salt@
            &&& exists|sorted: Seq<RecordView>|
                rotated_vault(
                    p.0@,
                    vault@,
                    sorted,
                    old_key@,
                    p.1.master_key@,
                    now@,
                )
        },
        (r is Ok) == (derivable(new_password@, salt@) && opens_fully(vault@, old_key@)),
        r matches Err(e) ==> if !derivable(new_password@, salt@) {
            master_key_of(new_password@, salt@) matches Err(t) && t == e@
        } else {
            rotation_fails(vault@, old_key@, e@)
        },
{
    let keys = match derive_vault_keys(new_password, salt) {
        Ok(k) => k,
        Err(e) => {
            return Err(e);
        },
    };
    let sorted = get_secrets(vault);
    let ghost s = records(sorted@);
    proof {
        lemma_sorted_uuids(s, vault@.secrets);
        assert(sorted@.len() == s.len());
        lemma_records_trouble(s, old_key@);
        assert forall|i: int| 0 <= i < s.len() implies exists|a: int|
            0 <= a < vault@.secrets.len() && vault@.secrets[a] == #[trigger] s[i] by {
            assert(s.contains(s[i]));
            assert(vault@.secrets.contains(s[i]));
        }
        assert forall|a: int| 0 <= a < vault@.secrets.len() implies exists|i: int|
            0 <= i < s.len() && s[i] == #[trigger] vault@.secrets[a] by {
            assert(vault@.secrets.contains(vault@.secrets[a]));
            assert(s.contains(vault@.secrets[a]));
        }
        assert(is_sorting(s, vault@.secrets));
    }
    let stamp = now.to_owned();
    let secrets = match rotate_records(sorted.as_slice(), old_key, &keys.master_key, &stamp) {
        Ok(v) => v,
        Err(e) => {
            return Err(e);
        },
    };
    let token = match seal_token(&keys.master_key) {
        Ok(t) => t,
        Err(e) => {
            return Err(e);
        },
    };
    let tombstones = crate::db::records::copy_marks(&vault.tombstones);
    let n: i64 = secrets.len() as i64;
    let mut new = new_vault(token);
    new.secrets = secrets;
    new.tombstones = tombstones;
    new.next_id = n + 1;
    proof {
        assert(secrets@.len() == records(secrets@).len());
        let t = new@.secrets;
        assert forall|i: int, j: int| 0 <= i < j < t.len() implies (#[trigger] t[i]).uuid != (
        #[trigger] t[j]).uuid && t[i].id != t[j].id by {
            assert(t[i].uuid == s[i].uuid && t[j].uuid == s[j].uuid);
            assert(t[i].id == i + 1 && t[j].id == j + 1);
        }
        assert forall|i: int| 0 <= i < t.len() implies (#[trigger] t[i]).id < new@.next_id by {
            assert(t[i].id == i + 1);
        }
        assert(rotated_vault(new@, vault@, s, old_key@, keys.master_key@, now@));
    }
    Ok((new, keys))
}

/// Builds the vault that a new master password leads to, under a fresh random salt.
pub fn change_master_password(vault: &Vault, old_key: &[u8; 32], new_password: &str, now: &str) -> (r:
    Result<(Vault, VaultKeys), String>)
    requires
        vault@.wf(),
        vault@.secrets.len() < i64::MAX,
    ensures
        r matches Ok(p) ==> {
            &&& p.0@.wf()
            &&& p.1.are_of(new_password@)
            &&& exists|sorted: Seq<RecordView>|
                rotated_vault(
                    p.0@,
                    vault@,
                    sorted,
                    old_key@,
                    p.1.master_key@,
                    now@,
                )
        },
        (r is Ok) == (encode_utf8(new_password@).len() <= u32::MAX && opens_fully(
            vault@,
            old_key@,
        )),
        r matches Err(e) ==> (encode_utf8(new_password@).len() <= u32::MAX ==> rotation_fails(
            vault@,
            old_key@,
            e@,
        )),
{
    let salt = generate_salt();
    change_master_password_with_salt(vault, old_key, new_password, &salt, now)
}

/// A change of the master password loses no record: each is there under its identity, and reads
/// under the new key as it did under the old one.
pub proof fn law_rotation_keeps_every_record(
    n: VaultView,
    v: VaultView,
    sorted: Seq<RecordView>,
    old_key: Seq<u8>,
    new_key: Seq<u8>,
    now: Seq<char>,
    i: int,
)
    requires
        v.wf(),
        rotated_vault(n, v, sorted, old_key, new_key, now),
        0 <= i < v.secrets.len(),
    ensures
        exists|k: int|
            0 <= k < n.secrets.len() && moved(
                #[trigger] n.secrets[k],
                v.secrets[i],
                old_key,
                new_key,
                k + 1,
                now,
                v.secrets[i].uuid,
            ),
        n.secrets.len() == v.secrets.len(),
{
    lemma_sorted_uuids(sorted, v.secrets);
    assert(v.secrets.contains(v.secrets[i]));
    assert(sorted.contains(v.secrets[i]));
    let k = choose|k: int| 0 <= k < sorted.len() && sorted[k] == v.secrets[i];
    assert(moved(n.secrets[k], sorted[k], old_key, new_key, k + 1, now, sorted[k].uuid));
}

/// Whether `n` is the vault `v` after its salt was moved into the database file: the same token,
/// the records in the order of their titles, renumbered from 1 and otherwise as they were;
/// tombstones and breach counts kept; no replaced passwords.
pub open spec fn converted_vault(n: VaultView, v: VaultView, sorted: Seq<RecordView>) -> bool {
    &&& is_sorting(sorted, v.secrets)
    &&& n.secrets == renumbered(sorted)
    &&& n.token == v.token
    &&& n.tombstones == v.tombstones
    &&& n.hibp == v.hibp
    &&& n.history.len() == 0
    &&& n.next_id == v.secrets.len() + 1
    &&& n.floor == Some(MIN_COMPATIBLE_APP_VERSION@)
}

/// Records numbered from 1.
pub open spec fn renumbered(s: Seq<RecordView>) -> Seq<RecordView> {
    Seq::new(s.len(), |i: int| s[i].with_id(i + 1))
}

fn renumber(v: &[SecretRecord]) -> (out: Vec<SecretRecord>)
    requires
        v@.len() < i64::MAX,
    ensures
        records(out@) == renumbered(records(v@)),
{
    let mut out: Vec<SecretRecord> = Vec::new();
    let ghost all = renumbered(records(v@));
    let mut i: usize = 0;
    assert(records(out@) =~= all.take(0));
    while i < v.len()
        invariant
            i <= v@.len(),
            v@.len() < i64::MAX,
            all == renumbered(records(v@)),
            records(out@) == all.take(i as int),
        decreases v@.len() - i,
    {
        let mut r = v[i].clone();
        r.id = i as i64 + 1;
        assert(r@ == all[i as int]);
        proof {
            lemma_records_push(out@, r);
        }
        out.push(r);
        i += 1;
        assert(records(out@) =~= all.take(i as int));
    }
    assert(all.take(i as int) =~= all);
    out
}

/// Builds the vault whose file carries its salt from one whose salt lies in a file of its own.
/// The master key stays, and with it every payload.
pub fn convert_vault(vault: &Vault) -> (n: Vault)
    requires
        vault@.wf(),
        vault@.secrets.len() < i64::MAX,
    ensures
        exists|sorted: Seq<RecordView>| #[trigger] converted_vault(n@, vault@, sorted),
        n@.wf(),
{
    let sorted = get_secrets(vault);
    let ghost s = records(sorted@);
    proof {
        lemma_sorted_uuids(s, vault@.secrets);
        assert(sorted@.len() == s.len());
        assert(is_sorting(s, vault@.secrets));
    }
    let secrets = renumber(sorted.as_slice());
    assert(secrets@.len() == records(secrets@).len());
    let count: i64 = secrets.len() as i64;
    let n = Vault {
        min_app_version: Some(MIN_COMPATIBLE_APP_VERSION.to_owned()),
        verification: crate::db::records::copy_blob(&vault.verification),
        secrets,
        tombstones: crate::db::records::copy_marks(&vault.tombstones),
        hibp_checks: get_all_hibp_checks(vault),
        history: Vec::new(),
        next_id: count + 1,
    };
    proof {
        let t = n@.secrets;
        assert forall|i: int, j: int| 0 <= i < j < t.len() implies (#[trigger] t[i]).uuid != (
        #[trigger] t[j]).uuid && t[i].id != t[j].id by {
            assert(t[i].uuid == s[i].uuid && t[j].uuid == s[j].uuid);
        }
        assert(converted_vault(n@, vault@, s));
    }
    n
}

/// Moving the salt loses no record: each is there under its identity, and only its number may
/// have changed; so a sync takes none of them for newly edited.
pub proof fn law_conversion_keeps_every_record(
    n: VaultView,
    v: VaultView,
    sorted: Seq<RecordView>,
    i: int,
)
    requires
        v.wf(),
        converted_vault(n, v, sorted),
        0 <= i < v.secrets.len(),
    ensures
        n.secrets.len() == v.secrets.len(),
        exists|k: int|
            0 <= k < n.secrets.len() && #[trigger] n.secrets[k] == v.secrets[i].with_id(k + 1),
{
    lemma_sorted_uuids(sorted, v.secrets);
    assert(v.secrets.contains(v.secrets[i]));
    assert(sorted.contains(v.secrets[i]));
    let k = choose|k: int| 0 <= k < sorted.len() && sorted[k] == v.secrets[i];
    assert(n.secrets[k] == v.secrets[i].with_id(k + 1));
}

/// The tables of a vault from before full encryption. Its records carry no identity.
#[derive(Debug)]
pub struct LegacyVault {
    pub salt: Option<Vec<u8>>,
    pub verification: Option<Vec<u8>>,
    pub secrets: Vec<SecretRecord>,
    pub tombstones: Vec<Tombstone>,
}

/// The key that opens a legacy vault's token: the one under today's parameters if it does, else
/// the one under the old parameters.
pub open spec fn legacy_unlock(password: Seq<char>, salt: Seq<u8>, token: Seq<u8>) -> Result<
    Seq<u8>,
    Seq<char>,
> {
    match master_key_of(password, salt) {
        Err(e) => Err(e),
        Ok(k) => if is_token(token, k) {
            Ok(k)
        } else {
            match legacy_key_of(password, salt) {
                Err(e) => Err(e),
                Ok(l) => if is_token(token, l) {
                    Ok(l)
                } else {
                    Err("Incorrect master password."@)
                },
            }
        },
    }
}

/// The key of a legacy vault, or why it cannot be unlocked.
pub open spec fn legacy_key(v: LegacyVault, password: Seq<char>) -> Result<Seq<u8>, Seq<char>> {
    match blob(v.salt) {
        None => Err("This does not look like a legacy KeyStash vault (no salt found)."@),
        Some(salt) => if salt.len() != 16 {
            Err("Invalid salt length in legacy vault metadata."@)
        } else {
            match blob(v.verification) {
                None => Err("Verification token not found. Legacy database might be corrupted."@),
                Some(token) => legacy_unlock(password, salt, token),
            }
        },
    }
}

/// Finds the key of a legacy vault.
pub fn unlock_legacy(v: &LegacyVault, password: &str) -> (r: Result<[u8; 32], String>)
    ensures
        crate::crypto::outcome(r) == legacy_key(*v, password@),
        r is Ok ==> encode_utf8(password@).len() <= u32::MAX,
{
    let salt = match &v.salt {
        None => {
            return Err(
                "This does not look like a legacy KeyStash vault (no salt found).".to_owned(),
            );
        },
        Some(s) => s,
    };
    if salt.len() != 16 {
        return Err("Invalid salt length in legacy vault metadata.".to_owned());
    }
    let token = match &v.verification {
        None => {
            return Err(
                "Verification token not found. Legacy database might be corrupted.".to_owned(),
            );
        },
        Some(t) => t,
    };
    let modern = match derive_key(password, salt.as_slice()) {
        Ok(k) => k,
        Err(e) => {
            return Err(e);
        },
    };
    if check_token(token.as_slice(), &modern) {
        return Ok(modern);
    }
    let legacy = match derive_key_legacy(password, salt.as_slice()) {
        Ok(k) => k,
        Err(e) => {
            return Err(e);
        },
    };
    if check_token(token.as_slice(), &legacy) {
        Ok(legacy)
    } else {
        Err("Incorrect master password.".to_owned())
    }
}

/// The tombstones without their identities.
pub open spec fn nameless(t: Seq<TombstoneView>) -> Seq<TombstoneView> {
    Seq::new(t.len(), |i: int| (TombstoneView { uuid: None, ..t[i] }))
}

fn nameless_marks(v: &[Tombstone]) -> (out: Vec<Tombstone>)
    ensures
        marks(out@) == nameless(marks(v@)),
{
    let mut out: Vec<Tombstone> = Vec::new();
    let ghost all = nameless(marks(v@));
    let mut i: usize = 0;
    while i < v.len()
        invariant
            i <= v@.len(),
            all == nameless(marks(v@)),
            marks(out@) == all.take(i as int),
        decreases v@.len() - i,
    {
        let mut copy = v[i].clone();
        copy.sync_uuid = None;
        assert(copy@ == all[i as int]);
        proof {
            lemma_marks_push(out@, copy);
        }
        out.push(copy);
        i += 1;
        assert(marks(out@) =~= all.take(i as int));
    }
    assert(all.take(i as int) =~= all);
    out
}

/// Whether `n` is `s` moved to a new key under new identities; the change times are kept.
pub open spec fn migrated_records(
    n: Seq<RecordView>,
    s: Seq<RecordView>,
    old_key: Seq<u8>,
    new_key: Seq<u8>,
    fresh: Seq<Seq<char>>,
) -> bool {
    n.len() == s.len() && forall|i: int|
        0 <= i < s.len() ==> moved(
            #[trigger] n[i],
            s[i],
            old_key,
            new_key,
            i + 1,
            s[i].updated_at,
            fresh[i],
        )
}

/// Why the first `n` records cannot be migrated, if they cannot: the first that does not open, or
/// that gets an identity which an earlier one has, ends it.
pub open spec fn migration_trouble(
    s: Seq<RecordView>,
    fresh: Seq<Seq<char>>,
    key: Seq<u8>,
    n: int,
) -> Option<Seq<char>>
    decreases n,
{
    if n <= 0 {
        None
    } else {
        match migration_trouble(s, fresh, key, n - 1) {
            Some(e) => Some(e),
            None => match record_trouble(s[n - 1], key) {
                Some(e) => Some(e),
                None => if fresh.take(n - 1).contains(fresh[n - 1]) {
                    Some("UNIQUE constraint failed: secrets.sync_uuid"@)
                } else {
                    None
                },
            },
        }
    }
}

proof fn lemma_migration_trouble_stays(
    s: Seq<RecordView>,
    fresh: Seq<Seq<char>>,
    key: Seq<u8>,
    m: int,
    n: int,
)
    requires
        0 <= m <= n,
        migration_trouble(s, fresh, key, m) is Some,
    ensures
        migration_trouble(s, fresh, key, n) == migration_trouble(s, fresh, key, m),
    decreases n - m,
{
    if m < n {
        lemma_migration_trouble_stays(s, fresh, key, m, n - 1);
    }
}

/// Whether an identity was handed out before.
fn is_taken(fresh: &[String], i: usize) -> (b: bool)
    requires
        i < fresh@.len(),
    ensures
        b == texts(fresh@).take(i as int).contains(texts(fresh@)[i as int]),
{
    let ghost f = texts(fresh@);
    let mut j: usize = 0;
    while j < i
        invariant
            j <= i < fresh@.len(),
            f == texts(fresh@),
            forall|k: int| 0 <= k < j ==> (#[trigger] f[k]) != f[i as int],
        decreases i - j,
    {
        assert(f[j as int] == fresh@[j as int]@);
        assert(f[i as int] == fresh@[i as int]@);
        if fresh[j] == fresh[i] {
            assert(f.take(i as int)[j as int] == f[i as int]);
            return true;
        }
        j += 1;
    }
    proof {
        if f.take(i as int).contains(f[i as int]) {
            let k = choose|k: int| 0 <= k < i && f.take(i as int)[k] == f[i as int];
            assert(f[k] == f[i as int]);
        }
    }
    false
}

fn migrate_records(v: &[SecretRecord], old_key: &[u8; 32], new_key: &[u8; 32], fresh: &[String]) -> (r:
    Result<Vec<SecretRecord>, String>)
    requires
        v@.len() < i64::MAX,
        fresh@.len() >= v@.len(),
    ensures
        r matches Ok(out) ==> migrated_records(
            records(out@),
            records(v@),
            old_key@,
            new_key@,
            texts(fresh@),
        ),
        error_of(r) == migration_trouble(
            records(v@),
            texts(fresh@),
            old_key@,
            v@.len() as int,
        ),
        r is Ok ==> forall|a: int, b: int|
            0 <= a < b < v@.len() ==> (#[trigger] fresh@[a])@ != (#[trigger] fresh@[b])@,
{
    let mut out: Vec<SecretRecord> = Vec::new();
    let mut i: usize = 0;
    let ghost s = records(v@);
    let ghost f = texts(fresh@);
    while i < v.len()
        invariant
            i <= v@.len(),
            v@.len() < i64::MAX,
            fresh@.len() >= v@.len(),
            out@.len() == i,
            forall|k: int|
                0 <= k < i ==> moved(
                    #[trigger] records(out@)[k],
                    records(v@)[k],
                    old_key@,
                    new_key@,
                    k + 1,
                    records(v@)[k].updated_at,
                    texts(fresh@)[k],
                ),
            s == records(v@),
            f == texts(fresh@),
            migration_trouble(s, f, old_key@, i as int) is None,
            forall|a: int, b: int|
                0 <= a < b < i ==> (#[trigger] fresh@[a])@ != (#[trigger] fresh@[b])@,
        decreases v@.len() - i,
    {
        let ghost before = records(out@);
        assert(s[i as int] == v@[i as int]@);
        assert(f[i as int] == fresh@[i as int]@);
        match move_record(&v[i], old_key, new_key, i as i64 + 1, &v[i].updated_at, &fresh[i]) {
            Err(e) => {
                proof {
                    lemma_migration_trouble_stays(s, f, old_key@, i + 1, v@.len() as int);
                }
                return Err(e);
            },
            Ok(n) => {
                if is_taken(fresh, i) {
                    proof {
                        lemma_migration_trouble_stays(s, f, old_key@, i + 1, v@.len() as int);
                    }
                    return Err("UNIQUE constraint failed: secrets.sync_uuid".to_owned());
                }
                assert forall|a: int, b: int| 0 <= a < b < i + 1 implies (#[trigger] fresh@[a])@
                    != (#[trigger] fresh@[b])@ by {
                    if b == i {
                        assert(f.take(i as int)[a] == fresh@[a]@);
                        assert(f.take(i as int).contains(fresh@[a]@));
                    }
                }
                proof {
                    lemma_records_push(out@, n);
                }
                out.push(n);
                assert forall|k: int| 0 <= k < i + 1 implies moved(
                    #[trigger] records(out@)[k],
                    records(v@)[k],
                    old_key@,
                    new_key@,
                    k + 1,
                    records(v@)[k].updated_at,
                    texts(fresh@)[k],
                ) by {
                    if k < i {
                        assert(records(out@)[k] == before[k]);
                    }
                }
            },
        }
        i += 1;
    }
    Ok(out)
}

/// Whether `n` is the vault that a legacy vault is migrated to.
pub open spec fn migrated_vault(
    n: VaultView,
    v: LegacyVault,
    old_key: Seq<u8>,
    new_key: Seq<u8>,
    fresh: Seq<Seq<char>>,
) -> bool {
    &&& migrated_records(n.secrets, records(v.secrets@), old_key, new_key, fresh)
    &&& n.token matches Some(t) && is_token(t, new_key)
    &&& n.tombstones == nameless(marks(v.tombstones@))
    &&& n.hibp.len() == 0
    &&& n.history.len() == 0
    &&& n.next_id == v.secrets@.len() + 1
    &&& n.floor == empty_vault(n.token->0).floor
}

/// Why a legacy vault is not migrated, if it is not.
pub open spec fn migration_refusal(
    files: VaultFiles,
    v: LegacyVault,
    password: Seq<char>,
    fresh: Seq<Seq<char>>,
) -> Option<Seq<char>> {
    if state_of(files) != VaultState::NeedsMigration {
        Some("No legacy vault found to migrate."@)
    } else {
        match legacy_key(v, password) {
            Err(e) => Some(e),
            Ok(k) => migration_trouble(records(v.secrets@), fresh, k, v.secrets@.len() as int),
        }
    }
}

/// Builds the encrypted vault that a legacy vault is migrated to, under the given salt; the
/// records get the identities in `fresh`.
pub fn migrate_legacy_vault_with(
    files: &VaultFiles,
    v: &LegacyVault,
    master_password: &str,
    salt: &[u8; 16],
    fresh: &Vec<String>,
) -> (r: Result<(Vault, VaultKeys), String>)
    requires
        v.secrets@.len() < i64::MAX,
        fresh@.len() >= v.secrets@.len(),
    ensures
        error_of(r) == migration_refusal(*files, *v, master_password@, texts(fresh@)),
        r matches Ok(p) ==> {
            &&& p.0@.wf()
            &&& p.1.are_of(master_password@)
            &&& p.1.salt@ == salt@
            &&& migrated_vault(
                p.0@,
                *v,
                legacy_key(*v, master_password@)->Ok_0,
                p.1.master_key@,
                texts(fresh@),
            )
        },
{
    if detect_vault_state(files) != VaultState::NeedsMigration {
        return Err("No legacy vault found to migrate.".to_owned());
    }
    let old_key = match unlock_legacy(v, master_password) {
        Ok(k) => k,
        Err(e) => {
            return Err(e);
        },
    };
    let keys = match derive_vault_keys(master_password, salt) {
        Ok(k) => k,
        Err(e) => {
            return Err(e);
        },
    };
    let token = match seal_token(&keys.master_key) {
        Ok(t) => t,
        Err(e) => {
            return Err(e);
        },
    };
    let secrets = match migrate_records(
        v.secrets.as_slice(),
        &old_key,
        &keys.master_key,
        fresh.as_slice(),
    ) {
        Ok(s) => s,
        Err(e) => {
            return Err(e);
        },
    };
    let ghost t = records(secrets@);
    proof {
        assert(secrets@.len() == t.len());
        assert forall|i: int, j: int| 0 <= i < j < t.len() implies (#[trigger] t[i]).uuid != (
        #[trigger] t[j]).uuid by {
            assert(t[i].uuid == texts(fresh@)[i] && t[j].uuid == texts(fresh@)[j]);
            assert(fresh@[i]@ != fresh@[j]@);
        }
    }
    let n: i64 = secrets.len() as i64;
    let mut new = new_vault(token);
    new.secrets = secrets;
    new.tombstones = nameless_marks(v.tombstones.as_slice());
    new.next_id = n + 1;
    proof {
        assert forall|i: int, j: int| 0 <= i < j < t.len() implies (#[trigger] t[i]).id != (
        #[trigger] t[j]).id by {
            assert(t[i].id == i + 1 && t[j].id == j + 1);
        }
        assert forall|i: int| 0 <= i < t.len() implies (#[trigger] t[i]).id < new@.next_id by {
            assert(t[i].id == i + 1);
        }
    }
    Ok((new, keys))
}

/// Builds the encrypted vault that a legacy vault is migrated to, under a fresh random salt and
/// new random identities.
pub fn migrate_legacy_vault(files: &VaultFiles, v: &LegacyVault, master_password: &str) -> (r: Result<
    (Vault, VaultKeys),
    String,
>)
    requires
        v.secrets@.len() < i64::MAX,
    ensures
        exists|fresh: Seq<Seq<char>>|
            fresh.len() >= v.secrets@.len() && (forall|i: int|
                0 <= i < fresh.len() ==> is_uuid_v4(#[trigger] fresh[i]))
                && #[trigger] migration_refusal(*files, *v, master_password@, fresh) == error_of(r)
                && (r matches Ok(p) ==> migrated_vault(
                p.0@,
                *v,
                legacy_key(*v, master_password@)->Ok_0,
                p.1.master_key@,
                fresh,
            )),
        r matches Ok(p) ==> p.0@.wf() && p.1.are_of(master_password@),
{
    let salt = generate_salt();
    let fresh = new_uuids(v.secrets.len());
    let r = migrate_legacy_vault_with(files, v, master_password, &salt, &fresh);
    proof {
        let f = texts(fresh@);
        assert forall|i: int| 0 <= i < f.len() implies is_uuid_v4(#[trigger] f[i]) by {
            assert(is_uuid_v4(fresh@[i]@));
        }
        assert(migration_refusal(*files, *v, master_password@, f) == error_of(r));
    }
    r
}

/// A migration loses no record: each is there in its place under a new identity, with its change
/// time, and reads under the new key as it did under the old one.
pub proof fn law_migration_keeps_every_record(
    n: VaultView,
    v: LegacyVault,
    old_key: Seq<u8>,
    new_key: Seq<u8>,
    fresh: Seq<Seq<char>>,
    i: int,
)
    requires
        migrated_vault(n, v, old_key, new_key, fresh),
        0 <= i < v.secrets@.len(),
    ensures
        n.secrets.len() == v.secrets@.len(),
        moved(
            n.secrets[i],
            v.secrets@[i]@,
            old_key,
            new_key,
            i + 1,
            v.secrets@[i]@.updated_at,
            fresh[i],
        ),
{
    assert(records(v.secrets@)[i] == v.secrets@[i]@);
}

/// What a change of the master password writes opens again with the new master key, as it was
/// written.
pub proof fn law_rotated_vault_opens(
    stored: StoredVault,
    v: VaultView,
    sorted: Seq<RecordView>,
    old_key: Seq<u8>,
    new_key: Seq<u8>,
    now: Seq<char>,
    running: Seq<char>,
    fresh: Seq<Seq<char>>,
)
    requires
        stored.vault@.wf(),
        rotated_vault(stored.vault@, v, sorted, old_key, new_key, now),
        stored.schema == current_tables(),
        satisfies(running, MIN_COMPATIBLE_APP_VERSION@),
    ensures
        refusal_of(stored, new_key, running, fresh) is None,
        upgraded(stored.vault@, stored.schema, fresh) == stored.vault@,
{
    lemma_written_vault_opens(stored, new_key, running, fresh);
}

/// What moving the salt writes opens again with the master key, as it was written.
pub proof fn law_converted_vault_opens(
    stored: StoredVault,
    v: VaultView,
    sorted: Seq<RecordView>,
    master_key: Seq<u8>,
    running: Seq<char>,
    fresh: Seq<Seq<char>>,
)
    requires
        stored.vault@.wf(),
        converted_vault(stored.vault@, v, sorted),
        v.token matches Some(t) && is_token(t, master_key),
        stored.schema == current_tables(),
        satisfies(running, MIN_COMPATIBLE_APP_VERSION@),
    ensures
        refusal_of(stored, master_key, running, fresh) is None,
        upgraded(stored.vault@, stored.schema, fresh) == stored.vault@,
{
    lemma_written_vault_opens(stored, master_key, running, fresh);
}

/// What a migration writes opens again with the new master key, as it was written.
pub proof fn law_migrated_vault_opens(
    stored: StoredVault,
    v: LegacyVault,
    old_key: Seq<u8>,
    new_key: Seq<u8>,
    identities: Seq<Seq<char>>,
    running: Seq<char>,
    fresh: Seq<Seq<char>>,
)
    requires
        stored.vault@.wf(),
        migrated_vault(stored.vault@, v, old_key, new_key, identities),
        stored.schema == current_tables(),
        satisfies(running, MIN_COMPATIBLE_APP_VERSION@),
    ensures
        refusal_of(stored, new_key, running, fresh) is None,
        upgraded(stored.vault@, stored.schema, fresh) == stored.vault@,
{
    lemma_written_vault_opens(stored, new_key, running, fresh);
}

} // verus!
