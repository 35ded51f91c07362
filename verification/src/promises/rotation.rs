//! Changing the master password, and moving vaults from older layouts.
use vstd::prelude::*;
use vstd::utf8::*;

use crate::crypto::opened;
use crate::db::identity::is_uuid_v4;
use crate::db::layout::{detect_vault_state, VaultFiles, VaultState};
use crate::db::records::{records, RecordView, Vault};
use crate::db::rekey::{
    change_master_password, change_master_password_with_salt, convert_vault,
    law_conversion_keeps_every_record, legacy_key, migrate_legacy_vault, migrate_legacy_vault_with,
    migrated_vault, migration_refusal, moved, rotated_vault, unlock_legacy, LegacyVault,
};
use crate::db::unlock::VaultKeys;

verus! {

/// Whether a payload decrypts, and so does another under another key, to the same bytes.
pub open spec fn same_content(a: Seq<u8>, key_a: Seq<u8>, b: Seq<u8>, key_b: Seq<u8>) -> bool {
    opened(a, key_a) is Ok && opened(b, key_b) == opened(a, key_a)
}

/// Whether a record holds under its key all that another does under its own: title, tags,
/// username, address, password, and notes exactly where the other has some.
pub open spec fn same_credential(a: RecordView, key_a: Seq<u8>, b: RecordView, key_b: Seq<u8>) -> bool {
    &&& a.title == b.title
    &&& a.category == b.category
    &&& a.username == b.username
    &&& a.url == b.url
    &&& same_content(a.password, key_a, b.password, key_b)
    &&& match a.notes {
        Some(d) => b.notes matches Some(e) && same_content(d, key_a, e, key_b),
        None => b.notes is None,
    }
}

proof fn lemma_same(n: RecordView, s: RecordView, old_key: Seq<u8>, new_key: Seq<u8>, id: int, at: Seq<
    char,
>, uuid: Seq<char>)
    requires
        moved(n, s, old_key, new_key, id, at, uuid),
    ensures
        same_credential(s, old_key, n, new_key),
        n.uuid == uuid,
        n.updated_at == at,
        n.id == id,
{
}

/// Changing the master password loses nothing: every record is there with its identity, holds
/// under the new key what it held under the old one, and is marked as changed; nothing else is
/// there, every deletion is still known, and the keys are those of the new password.
pub proof fn law_rotation_loses_nothing(
    vault: &Vault,
    old_key: &[u8; 32],
    password: &str,
    now: &str,
    salt: &[u8; 16],
    r: Result<(Vault, VaultKeys), String>,
    i: int,
)
    requires
        vault@.wf(),
        call_ensures(change_master_password, (vault, old_key, password, now), r) || call_ensures(
            change_master_password_with_salt,
            (vault, old_key, password, salt, now),
            r,
        ),
        0 <= i < vault@.secrets.len(),
        r is Ok,
    ensures
        ({
            let n = r->Ok_0.0@;
            let keys = r->Ok_0.1;
            &&& n.secrets.len() == vault@.secrets.len()
            &&& exists|k: int|
                0 <= k < n.secrets.len() && same_credential(
                    vault@.secrets[i],
                    old_key@,
                    #[trigger] n.secrets[k],
                    keys.master_key@,
                ) && n.secrets[k].uuid == vault@.secrets[i].uuid && n.secrets[k].updated_at == now@
            &&& n.tombstones == vault@.tombstones
            &&& n.hibp.len() == 0
            &&& n.history.len() == 0
            &&& n.wf()
            &&& n.floor == Some(crate::db::version::MIN_COMPATIBLE_APP_VERSION@)
            &&& n.token matches Some(t) && opened(t, keys.master_key@) == Ok::<Seq<u8>, Seq<char>>(
                encode_utf8("keystash-verification-token"@),
            )
            &&& crate::crypto::argon2id_hash(encode_utf8(password@), keys.salt@, 65536, 3, 4) == Ok::<
                Seq<u8>,
                Seq<char>,
            >(keys.master_key@)
            &&& call_ensures(
                change_master_password_with_salt,
                (vault, old_key, password, salt, now),
                r,
            ) ==> keys.salt@ == salt@
        }),
{
    let p = r->Ok_0;
    let n = p.0@;
    let key = p.1.master_key@;
    let sorted = choose|sorted: Seq<RecordView>|
        rotated_vault(n, vault@, sorted, old_key@, key, now@);
    let v = vault@;
    sorted.to_multiset_ensures();
    v.secrets.to_multiset_ensures();
    assert(v.secrets.contains(v.secrets[i]));
    assert(sorted.to_multiset().count(v.secrets[i]) > 0);
    let k = choose|k: int| 0 <= k < sorted.len() && sorted[k] == v.secrets[i];
    assert(moved(n.secrets[k], sorted[k], old_key@, key, k + 1, now@, sorted[k].uuid));
    lemma_same(n.secrets[k], sorted[k], old_key@, key, k + 1, now@, sorted[k].uuid);
}

/// The master password of a vault can be changed exactly where every password and note in it
/// opens under the key that is given, and the password is not too long: no record is skipped.
pub proof fn law_rotation_needs_every_field(
    vault: &Vault,
    old_key: &[u8; 32],
    password: &str,
    now: &str,
    r: Result<(Vault, VaultKeys), String>,
)
    requires
        vault@.wf(),
        call_ensures(change_master_password, (vault, old_key, password, now), r),
    ensures
        r is Ok <==> encode_utf8(password@).len() <= u32::MAX && forall|i: int|
            0 <= i < vault@.secrets.len() ==> opened((#[trigger] vault@.secrets[i]).password, old_key@)
                is Ok && (vault@.secrets[i].notes matches Some(d) ==> opened(d, old_key@) is Ok),
{
    let v = vault@;
    assert forall|i: int| 0 <= i < v.secrets.len() implies ((crate::db::rekey::record_trouble(
        #[trigger] v.secrets[i],
        old_key@,
    ) is None) == (opened(v.secrets[i].password, old_key@) is Ok && (v.secrets[i].notes matches Some(d)
        ==> opened(d, old_key@) is Ok))) by {}
    if crate::db::rekey::opens_fully(v, old_key@) {
        assert forall|i: int| 0 <= i < v.secrets.len() implies opened(
            (#[trigger] v.secrets[i]).password,
            old_key@,
        ) is Ok && (v.secrets[i].notes matches Some(d) ==> opened(d, old_key@) is Ok) by {
            assert(crate::db::rekey::record_trouble(v.secrets[i], old_key@) is None);
        }
    }
}

/// Converting a vault's layout keeps each record as it is, payloads included, under a new
/// number; deletions, cached counts and the token stay.
pub proof fn law_conversion_loses_nothing(vault: &Vault, n: Vault, i: int)
    requires
        vault@.wf(),
        call_ensures(convert_vault, (vault,), n),
        0 <= i < vault@.secrets.len(),
    ensures
        n@.secrets.len() == vault@.secrets.len(),
        exists|k: int|
            0 <= k < n@.secrets.len() && (RecordView {
                id: vault@.secrets[i].id,
                ..(#[trigger] n@.secrets[k])
            }) == vault@.secrets[i],
        n@.tombstones == vault@.tombstones,
        n@.hibp == vault@.hibp,
        n@.token == vault@.token,
{
    let sorted = choose|sorted: Seq<RecordView>| #[trigger]
        crate::db::rekey::converted_vault(n@, vault@, sorted);
    law_conversion_keeps_every_record(n@, vault@, sorted, i);
    let k = choose|k: int|
        0 <= k < n@.secrets.len() && #[trigger] n@.secrets[k] == vault@.secrets[i].with_id(k + 1);
    assert((RecordView { id: vault@.secrets[i].id, ..n@.secrets[k] }) == vault@.secrets[i]);
}

/// Migrating a legacy vault loses nothing: each record is in its place, holds under the new key
/// what it held under the one that opened the legacy vault, keeps its change time and gets an
/// identity; every deletion is still known.
pub proof fn law_migration_loses_nothing(
    files: &VaultFiles,
    v: &LegacyVault,
    password: &str,
    r: Result<(Vault, VaultKeys), String>,
    i: int,
)
    requires
        call_ensures(migrate_legacy_vault, (files, v, password), r),
        0 <= i < v.secrets@.len(),
        r is Ok,
    ensures
        ({
            let n = r->Ok_0.0@;
            let keys = r->Ok_0.1;
            &&& n.secrets.len() == v.secrets@.len()
            &&& legacy_key(*v, password@) is Ok
            &&& same_credential(
                v.secrets@[i]@,
                legacy_key(*v, password@)->Ok_0,
                n.secrets[i],
                keys.master_key@,
            )
            &&& n.secrets[i].updated_at == v.secrets@[i]@.updated_at
            &&& is_uuid_v4(n.secrets[i].uuid)
            &&& n.hibp.len() == 0
            &&& n.history.len() == 0
            &&& n.wf()
            &&& n.floor == Some(crate::db::version::MIN_COMPATIBLE_APP_VERSION@)
            &&& n.token matches Some(t) && opened(t, keys.master_key@) == Ok::<Seq<u8>, Seq<char>>(
                encode_utf8("keystash-verification-token"@),
            )
            &&& n.tombstones.len() == v.tombstones@.len()
            &&& forall|j: int|
                0 <= j < v.tombstones@.len() ==> (#[trigger] n.tombstones[j]).title
                    == v.tombstones@[j].title@ && n.tombstones[j].category
                    == v.tombstones@[j].category@ && n.tombstones[j].username
                    == v.tombstones@[j].username@ && n.tombstones[j].deleted_at
                    == v.tombstones@[j].deleted_at@
            &&& keys.are_of(password@)
        }),
{
    let p = r->Ok_0;
    let fresh = choose|fresh: Seq<Seq<char>>|
        fresh.len() >= v.secrets@.len() && (forall|i: int|
            0 <= i < fresh.len() ==> is_uuid_v4(#[trigger] fresh[i])) && #[trigger] migration_refusal(
            *files,
            *v,
            password@,
            fresh,
        ) == crate::crypto::error_of(r) && migrated_vault(
            p.0@,
            *v,
            legacy_key(*v, password@)->Ok_0,
            p.1.master_key@,
            fresh,
        );
    let s = records(v.secrets@);
    assert(s[i] == v.secrets@[i]@);
    assert(moved(
        p.0@.secrets[i],
        s[i],
        legacy_key(*v, password@)->Ok_0,
        p.1.master_key@,
        i + 1,
        s[i].updated_at,
        fresh[i],
    ));
    assert(is_uuid_v4(fresh[i]));
    assert forall|j: int| 0 <= j < v.tombstones@.len() implies (#[trigger] p.0@.tombstones[j]).title
        == v.tombstones@[j].title@ && p.0@.tombstones[j].category == v.tombstones@[j].category@
        && p.0@.tombstones[j].username == v.tombstones@[j].username@ && p.0@.tombstones[j].deleted_at
        == v.tombstones@[j].deleted_at@ by {
        assert(crate::db::records::marks(v.tombstones@)[j] == v.tombstones@[j]@);
    }
}

/// A legacy vault opens under the key of the password, at the present cost or at the former
/// one, exactly where its token does, and migrates only where such a vault is there.
pub proof fn law_migration_needs_the_password(
    files: &VaultFiles,
    v: &LegacyVault,
    password: &str,
    r: Result<(Vault, VaultKeys), String>,
    salt: Seq<u8>,
    token: Seq<u8>,
)
    requires
        call_ensures(migrate_legacy_vault, (files, v, password), r),
        v.salt matches Some(s) && s@ == salt,
        v.verification matches Some(t) && t@ == token,
    ensures
        r is Ok ==> salt.len() == 16 && ({
            ||| opens_token(token, crate::crypto::argon2id_hash(
                encode_utf8(password@),
                salt,
                65536,
                3,
                4,
            ))
            ||| opens_token(token, crate::crypto::argon2id_hash(
                encode_utf8(password@),
                salt,
                15360,
                2,
                1,
            ))
        }),
        r is Ok ==> crate::db::layout::state_of(*files) == VaultState::NeedsMigration,
{
}

/// Whether a key was derived under which the token opens.
pub open spec fn opens_token(token: Seq<u8>, key: Result<Seq<u8>, Seq<char>>) -> bool {
    key matches Ok(k) && opened(token, k) == Ok::<Seq<u8>, Seq<char>>(
        encode_utf8("keystash-verification-token"@),
    )
}

/// A migration under a given salt and given identities has them.
pub proof fn law_migration_uses_what_it_is_given(
    files: &VaultFiles,
    v: &LegacyVault,
    password: &str,
    salt: &[u8; 16],
    fresh: &Vec<String>,
    r: Result<(Vault, VaultKeys), String>,
    i: int,
)
    requires
        call_ensures(migrate_legacy_vault_with, (files, v, password, salt, fresh), r),
        fresh@.len() >= v.secrets@.len(),
        0 <= i < v.secrets@.len(),
        r is Ok,
    ensures
        r->Ok_0.1.salt@ == salt@,
        r->Ok_0.0@.secrets.len() == v.secrets@.len(),
        r->Ok_0.0@.secrets[i].uuid == fresh@[i]@,
        same_credential(
            v.secrets@[i]@,
            legacy_key(*v, password@)->Ok_0,
            r->Ok_0.0@.secrets[i],
            r->Ok_0.1.master_key@,
        ),
        r->Ok_0.0@.secrets[i].updated_at == v.secrets@[i]@.updated_at,
{
    let s = records(v.secrets@);
    let n = r->Ok_0.0@;
    let ids = crate::text::texts(fresh@);
    assert(s[i] == v.secrets@[i]@ && ids[i] == fresh@[i]@);
    assert(moved(
        n.secrets[i],
        s[i],
        legacy_key(*v, password@)->Ok_0,
        r->Ok_0.1.master_key@,
        i + 1,
        s[i].updated_at,
        ids[i],
    ));
}

/// The key of a legacy vault is that of the password at the present cost where its token opens
/// under it, else that at the former cost where it opens under that, and else there is none.
pub proof fn law_legacy_key_is_that_of_the_token(
    v: &LegacyVault,
    password: &str,
    r: Result<[u8; 32], String>,
    salt: Seq<u8>,
    token: Seq<u8>,
    a: Seq<u8>,
    b: Seq<u8>,
)
    requires
        call_ensures(unlock_legacy, (v, password), r),
        v.salt matches Some(s) && s@ == salt,
        salt.len() == 16,
        v.verification matches Some(t) && t@ == token,
        crate::crypto::argon2id_hash(encode_utf8(password@), salt, 65536, 3, 4) == Ok::<
            Seq<u8>,
            Seq<char>,
        >(a),
        crate::crypto::argon2id_hash(encode_utf8(password@), salt, 15360, 2, 1) == Ok::<
            Seq<u8>,
            Seq<char>,
        >(b),
    ensures
        opens_token(token, Ok(a)) ==> r is Ok && r->Ok_0@ == a,
        !opens_token(token, Ok(a)) && opens_token(token, Ok(b)) ==> r is Ok && r->Ok_0@ == b,
        !opens_token(token, Ok(a)) && !opens_token(token, Ok(b)) ==> (r matches Err(e) && e@
            == "Incorrect master password."@),
{
}

/// Whether an error is that of a field of a record that does not open.
pub open spec fn error_of_field(s: RecordView, key: Seq<u8>, e: Seq<char>) -> bool {
    ||| opened(s.password, key) == Err::<Seq<u8>, Seq<char>>(e)
    ||| s.notes matches Some(d) && opened(d, key) == Err::<Seq<u8>, Seq<char>>(e)
}

proof fn lemma_field_error(s: Seq<RecordView>, key: Seq<u8>)
    ensures
        crate::db::rekey::records_trouble(s, key) matches Some(e) ==> exists|i: int|
            0 <= i < s.len() && error_of_field(#[trigger] s[i], key, e),
    decreases s.len(),
{
    if s.len() > 0 {
        let d = s.drop_last();
        lemma_field_error(d, key);
        if crate::db::rekey::records_trouble(d, key) is Some {
            let e = crate::db::rekey::records_trouble(d, key)->0;
            let i = choose|i: int| 0 <= i < d.len() && error_of_field(#[trigger] d[i], key, e);
            assert(s[i] == d[i]);
        } else if crate::db::rekey::records_trouble(s, key) is Some {
            assert(error_of_field(
                s[s.len() - 1],
                key,
                crate::db::rekey::records_trouble(s, key)->0,
            ));
        }
    }
}

/// A change of the master password that fails names the error of a field that does not open.
pub proof fn law_failed_rotation_names_its_error(
    vault: &Vault,
    old_key: &[u8; 32],
    password: &str,
    now: &str,
    e: String,
)
    requires
        call_ensures(change_master_password, (vault, old_key, password, now), Err(e)),
        encode_utf8(password@).len() <= u32::MAX,
    ensures
        exists|i: int|
            0 <= i < vault@.secrets.len() && error_of_field(#[trigger] vault@.secrets[i], old_key@, e@),
{
    let v = vault@;
    let sorted = choose|sorted: Seq<RecordView>| #[trigger]
        crate::db::store::is_sorting(sorted, v.secrets) && crate::db::rekey::records_trouble(
            sorted,
            old_key@,
        ) == Some(e@);
    lemma_field_error(sorted, old_key@);
    let k = choose|k: int| 0 <= k < sorted.len() && error_of_field(#[trigger] sorted[k], old_key@, e@);
    sorted.to_multiset_ensures();
    v.secrets.to_multiset_ensures();
    assert(sorted.contains(sorted[k]));
    assert(v.secrets.to_multiset().count(sorted[k]) > 0);
    let i = choose|i: int| 0 <= i < v.secrets.len() && v.secrets[i] == sorted[k];
    assert(error_of_field(v.secrets[i], old_key@, e@));
}

/// Whether every field of a record opens.
pub open spec fn opens_whole(s: RecordView, key: Seq<u8>) -> bool {
    opened(s.password, key) is Ok && (s.notes matches Some(d) ==> opened(d, key) is Ok)
}

proof fn lemma_migration_trouble(s: Seq<RecordView>, ids: Seq<Seq<char>>, key: Seq<u8>, n: int)
    requires
        0 <= n <= s.len(),
        n <= ids.len(),
    ensures
        crate::db::rekey::migration_trouble(s, ids, key, n) is None <==> (forall|i: int|
            0 <= i < n ==> opens_whole(#[trigger] s[i], key)) && (forall|i: int, j: int|
            0 <= i < j < n ==> #[trigger] ids[i] != #[trigger] ids[j]),
    decreases n,
{
    if n > 0 {
        lemma_migration_trouble(s, ids, key, n - 1);
        let m = n - 1;
        let before = ids.take(m);
        assert(crate::db::rekey::record_trouble(s[m], key) is None <==> opens_whole(s[m], key));
        if before.contains(ids[m]) {
            let i = choose|i: int| 0 <= i < before.len() && before[i] == ids[m];
            assert(ids[i] == ids[m]);
        }
        if exists|i: int| 0 <= i < m && #[trigger] ids[i] == ids[m] {
            let i = choose|i: int| 0 <= i < m && #[trigger] ids[i] == ids[m];
            assert(before[i] == ids[m]);
            assert(before.contains(ids[m]));
        }
        if crate::db::rekey::migration_trouble(s, ids, key, n) is None {
            assert forall|i: int, j: int| 0 <= i < j < n implies #[trigger] ids[i] != #[trigger] ids[j] by {
                if j == m {
                    assert(before[i] == ids[i]);
                    if ids[i] == ids[m] {
                        assert(before.contains(ids[m]));
                    }
                }
            }
        }
    }
}

/// A migration succeeds exactly where there is a legacy vault, the password opens it, every field
/// of every record opens under its key, and the identities differ.
pub proof fn law_migration_succeeds_where_all_opens(
    files: &VaultFiles,
    v: &LegacyVault,
    password: &str,
    salt: &[u8; 16],
    fresh: &Vec<String>,
    r: Result<(Vault, VaultKeys), String>,
    state: VaultState,
    key: Result<[u8; 32], String>,
)
    requires
        call_ensures(migrate_legacy_vault_with, (files, v, password, salt, fresh), r),
        fresh@.len() >= v.secrets@.len(),
        call_ensures(detect_vault_state, (files,), state),
        call_ensures(unlock_legacy, (v, password), key),
    ensures
        r is Ok <==> state == VaultState::NeedsMigration && key is Ok && (forall|i: int|
            0 <= i < v.secrets@.len() ==> opens_whole((#[trigger] v.secrets@[i])@, key->Ok_0@)) && (forall|
            i: int,
            j: int,
        |
            0 <= i < j < v.secrets@.len() ==> (#[trigger] fresh@[i])@ != (#[trigger] fresh@[j])@),
        state != VaultState::NeedsMigration ==> (r matches Err(e) && e@
            == "No legacy vault found to migrate."@),
{
    let s = records(v.secrets@);
    let ids = crate::text::texts(fresh@);
    let n = v.secrets@.len() as int;
    if key is Ok {
        let k = key->Ok_0@;
        lemma_migration_trouble(s, ids, k, n);
        assert((forall|i: int| 0 <= i < n ==> opens_whole(#[trigger] s[i], k)) <==> forall|i: int|
            0 <= i < n ==> opens_whole((#[trigger] v.secrets@[i])@, k)) by {
            if forall|i: int| 0 <= i < n ==> opens_whole(#[trigger] s[i], k) {
                assert forall|i: int| 0 <= i < n implies opens_whole((#[trigger] v.secrets@[i])@, k) by {
                    assert(s[i] == v.secrets@[i]@);
                }
            }
            if forall|i: int| 0 <= i < n ==> opens_whole((#[trigger] v.secrets@[i])@, k) {
                assert forall|i: int| 0 <= i < n implies opens_whole(#[trigger] s[i], k) by {
                    assert(s[i] == v.secrets@[i]@);
                }
            }
        }
        assert((forall|i: int, j: int| 0 <= i < j < n ==> #[trigger] ids[i] != #[trigger] ids[j])
            <==> forall|i: int, j: int|
            0 <= i < j < n ==> (#[trigger] fresh@[i])@ != (#[trigger] fresh@[j])@) by {
            if forall|i: int, j: int| 0 <= i < j < n ==> #[trigger] ids[i] != #[trigger] ids[j] {
                assert forall|i: int, j: int| 0 <= i < j < n implies (#[trigger] fresh@[i])@ != (
                #[trigger] fresh@[j])@ by {
                    assert(ids[i] == fresh@[i]@ && ids[j] == fresh@[j]@);
                }
            }
            if forall|i: int, j: int|
                0 <= i < j < n ==> (#[trigger] fresh@[i])@ != (#[trigger] fresh@[j])@ {
                assert forall|i: int, j: int| 0 <= i < j < n implies #[trigger] ids[i]
                    != #[trigger] ids[j] by {
                    assert(ids[i] == fresh@[i]@ && ids[j] == fresh@[j]@);
                }
            }
        }
    }
}

/// A legacy vault without a salt of the right length, or without a token, cannot be opened, and
/// its user is told what is missing.
pub proof fn law_damaged_legacy_vaults_are_named(
    v: &LegacyVault,
    password: &str,
    r: Result<[u8; 32], String>,
)
    requires
        call_ensures(unlock_legacy, (v, password), r),
    ensures
        v.salt is None ==> (r matches Err(e) && e@
            == "This does not look like a legacy KeyStash vault (no salt found)."@),
        v.salt is Some && v.salt->0@.len() != 16 ==> (r matches Err(e) && e@
            == "Invalid salt length in legacy vault metadata."@),
        v.salt is Some && v.salt->0@.len() == 16 && v.verification is None ==> (r matches Err(e) && e@
            == "Verification token not found. Legacy database might be corrupted."@),
{
}

} // verus!
