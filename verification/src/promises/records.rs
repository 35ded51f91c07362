//! Credentials that are stored, changed, deleted and looked up.
use vstd::prelude::*;
use vstd::utf8::*;

use crate::crypto::{opened, MAX_PLAINTEXT};
use crate::db::identity::is_uuid_v4;
use crate::db::records::{
    checks, past, records, HibpCheck, HistoryEntry, HistoryView, RecordView, SecretRecord,
    TombstoneView, Vault, VaultView,
};
use crate::db::store::{
    add_secret, add_secret_with, cached_count, delete_secret, find_id, get_all_hibp_checks,
    get_password_history, get_secret_by_id, get_secrets, law_cached_count_is_found,
    prune_old_tombstones, prune_orphaned_history, save_hibp_check, update_secret, update_secret_raw,
};
use crate::lists::lemma_filter_members;
use crate::text::{lex_lt, text_before};

verus! {

/// Whether a payload decrypts under a key to exactly the given text.
pub open spec fn reads(data: Seq<u8>, key: Seq<u8>, text: Seq<char>) -> bool {
    opened(data, key) == Ok::<Seq<u8>, Seq<char>>(encode_utf8(text))
}

/// Whether stored notes decrypt to the given ones; no notes and empty ones are not stored.
pub open spec fn notes_read(stored: Option<Seq<u8>>, key: Seq<u8>, notes: Option<&str>) -> bool {
    match stored {
        Some(d) => notes matches Some(n) && n@.len() > 0 && reads(d, key, n@),
        None => notes matches Some(n) ==> n@.len() == 0,
    }
}

/// Whether only the records of a vault may have changed.
pub open spec fn else_untouched(new: VaultView, v: VaultView) -> bool {
    new.floor == v.floor && new.token == v.token && new.tombstones == v.tombstones && new.hibp
        == v.hibp && new.history == v.history
}

/// A credential that was added is the last record, reads back as it was given, and has an
/// identity of its own; every other record is as it was. One that was refused left nothing
/// behind.
pub proof fn law_added_credential_reads_back(
    vault: &mut Vault,
    title: &str,
    category: &str,
    username: &str,
    url: &str,
    password: &str,
    notes: Option<&str>,
    key: &[u8; 32],
    now: &str,
    r: Result<(), String>,
)
    requires
        old(vault)@.wf(),
        call_ensures(
            add_secret,
            (vault, title, category, username, url, password, notes, key, now),
            r,
        ),
    ensures
        r is Err ==> *final(vault) == *old(vault),
        r is Ok ==> {
            let n = final(vault)@.secrets.last();
            &&& final(vault)@.secrets.len() == old(vault)@.secrets.len() + 1
            &&& final(vault)@.secrets.drop_last() == old(vault)@.secrets
            &&& else_untouched(final(vault)@, old(vault)@)
            &&& n.title == title@
            &&& n.category == category@
            &&& n.username == username@
            &&& n.url == url@
            &&& reads(n.password, key@, password@)
            &&& notes_read(n.notes, key@, notes)
            &&& n.updated_at == now@
            &&& n.id == old(vault)@.next_id
            &&& final(vault)@.next_id == old(vault)@.next_id + 1
            &&& is_uuid_v4(n.uuid)
            &&& forall|i: int|
                0 <= i < old(vault)@.secrets.len() ==> (#[trigger] old(vault)@.secrets[i]).uuid
                    != n.uuid && old(vault)@.secrets[i].id != n.id
        },
        r is Err && encode_utf8(password@).len() <= MAX_PLAINTEXT && (notes matches Some(t)
            ==> encode_utf8(t@).len() <= MAX_PLAINTEXT) && old(vault)@.next_id < i64::MAX
            ==> exists|i: int|
            0 <= i < old(vault)@.secrets.len() && is_uuid_v4((#[trigger] old(vault)@.secrets[i]).uuid),
{
    let n = final(vault)@.secrets.last();
    if r is Ok {
        assert(final(vault)@.secrets.drop_last() =~= old(vault)@.secrets);
        assert forall|i: int| 0 <= i < old(vault)@.secrets.len() implies (
        #[trigger] old(vault)@.secrets[i]).uuid != n.uuid && old(vault)@.secrets[i].id != n.id by {
            if old(vault)@.secrets[i].uuid == n.uuid {
                assert(crate::db::records::has_uuid(old(vault)@.secrets, n.uuid));
            }
        }
    }
}

/// A credential that is added under a given identity has it, and is refused where the identity is
/// taken.
pub proof fn law_added_credential_has_its_identity(
    vault: &mut Vault,
    title: &str,
    category: &str,
    username: &str,
    url: &str,
    password: &str,
    notes: Option<&str>,
    key: &[u8; 32],
    now: &str,
    uuid: String,
    r: Result<(), String>,
)
    requires
        call_ensures(
            add_secret_with,
            (vault, title, category, username, url, password, notes, key, now, uuid),
            r,
        ),
    ensures
        r is Err ==> *final(vault) == *old(vault),
        r is Ok <==> encode_utf8(password@).len() <= MAX_PLAINTEXT && (notes matches Some(t)
            ==> encode_utf8(t@).len() <= MAX_PLAINTEXT) && old(vault)@.next_id != i64::MAX && forall|i: int|
            0 <= i < old(vault)@.secrets.len() ==> (#[trigger] old(vault)@.secrets[i]).uuid != uuid@,
        r is Ok ==> {
            let n = final(vault)@.secrets.last();
            &&& final(vault)@.secrets.drop_last() == old(vault)@.secrets
            &&& n.uuid == uuid@
            &&& n.title == title@
            &&& n.category == category@
            &&& n.username == username@
            &&& n.url == url@
            &&& reads(n.password, key@, password@)
            &&& notes_read(n.notes, key@, notes)
            &&& n.updated_at == now@
        },
{
    let v = old(vault)@;
    if r is Ok {
        assert(final(vault)@.secrets.drop_last() =~= v.secrets);
        assert forall|i: int| 0 <= i < v.secrets.len() implies (#[trigger] v.secrets[i]).uuid != uuid@ by {
            if v.secrets[i].uuid == uuid@ {
                assert(crate::db::records::has_uuid(v.secrets, uuid@));
            }
        }
    }
    if crate::db::records::has_uuid(v.secrets, uuid@) {
        let i = choose|i: int| 0 <= i < v.secrets.len() && (#[trigger] v.secrets[i]).uuid == uuid@;
        assert(v.secrets[i].uuid == uuid@);
    }
}

/// The cached counts are all listed.
pub proof fn law_cached_counts_are_listed(vault: &Vault, out: Vec<HibpCheck>, i: int)
    requires
        call_ensures(get_all_hibp_checks, (vault,), out),
        0 <= i < vault.hibp_checks@.len(),
    ensures
        out@.len() == vault.hibp_checks@.len(),
        out@[i].password_hash@ == vault.hibp_checks@[i].password_hash@,
        out@[i].hibp_count == vault.hibp_checks@[i].hibp_count,
{
    let a = checks(out@);
    let b = checks(vault.hibp_checks@);
    assert(a == b);
    assert(a.len() == out@.len() && b.len() == vault.hibp_checks@.len());
    assert(a[i] == out@[i]@ && b[i] == vault.hibp_checks@[i]@);
}

/// A credential that was changed reads back as it was given and keeps its identity; every other
/// record is as it was. Nothing changes where no record has the id.
pub proof fn law_changed_credential_reads_back(
    vault: &mut Vault,
    id: i64,
    title: &str,
    category: &str,
    username: &str,
    url: &str,
    password: &str,
    notes: Option<&str>,
    key: &[u8; 32],
    now: &str,
    cap: usize,
    r: Result<(), String>,
    i: int,
)
    requires
        old(vault)@.wf(),
        call_ensures(
            update_secret,
            (vault, id, title, category, username, url, password, notes, key, now, cap),
            r,
        ),
        0 <= i < old(vault)@.secrets.len(),
    ensures
        r is Err ==> *final(vault) == *old(vault),
        r is Ok <==> encode_utf8(password@).len() <= MAX_PLAINTEXT && (notes matches Some(t)
            ==> encode_utf8(t@).len() <= MAX_PLAINTEXT),
        final(vault)@.secrets.len() == old(vault)@.secrets.len(),
        final(vault)@.tombstones == old(vault)@.tombstones,
        final(vault)@.hibp == old(vault)@.hibp,
        final(vault)@.token == old(vault)@.token,
        final(vault)@.floor == old(vault)@.floor,
        (forall|k: int| 0 <= k < old(vault)@.secrets.len() ==> (#[trigger] old(vault)@.secrets[k]).id != id)
            ==> final(vault)@ == old(vault)@,
        old(vault)@.secrets[i].id != id ==> final(vault)@.secrets[i] == old(vault)@.secrets[i],
        r is Ok && old(vault)@.secrets[i].id == id ==> {
            let n = final(vault)@.secrets[i];
            &&& n.id == id
            &&& n.uuid == old(vault)@.secrets[i].uuid
            &&& n.title == title@
            &&& n.category == category@
            &&& n.username == username@
            &&& n.url == url@
            &&& reads(n.password, key@, password@)
            &&& notes_read(n.notes, key@, notes)
            &&& n.updated_at == now@
        },
        r is Ok && old(vault)@.secrets[i].id == id && reads(
            old(vault)@.secrets[i].password,
            key@,
            password@,
        ) ==> final(vault)@.history == old(vault)@.history,
{
    lemma_found(old(vault)@.secrets, id as int, i);
    if forall|k: int| 0 <= k < old(vault)@.secrets.len() ==> (#[trigger] old(vault)@.secrets[k]).id != id {
        if find_id(old(vault)@.secrets, id as int) is Some {
            let x = find_id(old(vault)@.secrets, id as int)->0;
            let k = choose|k: int| 0 <= k < old(vault)@.secrets.len() && old(vault)@.secrets[k] == x;
            assert(old(vault)@.secrets[k].id != id);
        }
    }
    if r is Ok && old(vault)@.secrets[i].id == id {
        let s = old(vault)@.secrets[i];
        assert(find_id(old(vault)@.secrets, id as int) == Some(s));
        let n = choose|n: RecordView| #[trigger]
            crate::db::store::holds(
                n,
                title@,
                category@,
                username@,
                url@,
                password@,
                crate::db::store::notes_text(notes),
                key@,
            ) && n.updated_at == now@ && final(vault)@ == (VaultView {
                secrets: crate::db::store::replaced(old(vault)@.secrets, id as int, n),
                history: crate::db::store::history_after(
                    old(vault)@.history,
                    s,
                    password@,
                    key@,
                    now@,
                    cap as nat,
                ),
                ..old(vault)@
            });
        assert(final(vault)@.secrets[i] == (RecordView { id: id as int, uuid: s.uuid, ..n }));
    }
}

/// With distinct ids, a record is the one found under its id.
pub proof fn lemma_found(s: Seq<RecordView>, id: int, i: int)
    requires
        crate::db::records::ids_distinct(s),
        0 <= i < s.len(),
    ensures
        s[i].id == id ==> find_id(s, id) == Some(s[i]),
        find_id(s, id) matches Some(x) ==> x.id == id && s.contains(x),
    decreases s.len(),
{
    let d = s.drop_first();
    if s[0].id == id {
        assert(s.contains(s[0]));
        if i > 0 {
            assert(s[0].id != s[i].id);
        }
    } else if d.len() > 0 {
        assert forall|a: int, b: int| 0 <= a < b < d.len() implies (#[trigger] d[a]).id != (
        #[trigger] d[b]).id by {
            assert(d[a] == s[a + 1] && d[b] == s[b + 1]);
        }
        lemma_found(d, id, if i > 0 {
            i - 1
        } else {
            0
        });
        if i > 0 {
            assert(d[i - 1] == s[i]);
        }
        if find_id(d, id) is Some {
            let k = choose|k: int| 0 <= k < d.len() && d[k] == find_id(d, id)->0;
            assert(s[k + 1] == d[k]);
        }
    }
}

/// Writing a record's fields as they are puts exactly these into the record with the id; its
/// identity stays, and so does every other record.
pub proof fn law_written_fields_are_there(
    vault: &mut Vault,
    id: i64,
    title: &str,
    category: &str,
    username: &str,
    url: &str,
    password: &[u8],
    notes: &Option<Vec<u8>>,
    at: &str,
    i: int,
)
    requires
        call_ensures(
            update_secret_raw,
            (vault, id, title, category, username, url, password, notes, at),
            (),
        ),
        0 <= i < old(vault)@.secrets.len(),
    ensures
        else_untouched(final(vault)@, old(vault)@),
        final(vault)@.secrets.len() == old(vault)@.secrets.len(),
        final(vault)@.secrets[i] == (if old(vault)@.secrets[i].id == id {
            RecordView {
                id: id as int,
                title: title@,
                category: category@,
                username: username@,
                url: url@,
                password: password@,
                notes: match *notes {
                    Some(d) => Some(d@),
                    None => None,
                },
                updated_at: at@,
                uuid: old(vault)@.secrets[i].uuid,
            }
        } else {
            old(vault)@.secrets[i]
        }),
{
}

/// A deleted record is gone, and a tombstone with its identity and names and the time says so;
/// every other record stays. Deleting what is not there does nothing.
pub proof fn law_deleted_record_is_gone(vault: &mut Vault, id: i64, now: &str, s: RecordView)
    requires
        old(vault)@.wf(),
        call_ensures(delete_secret, (vault, id, now), ()),
        old(vault)@.secrets.contains(s),
    ensures
        s.id != id ==> final(vault)@.secrets.contains(s),
        s.id == id ==> !final(vault)@.secrets.contains(s) && final(vault)@.secrets.len()
            == old(vault)@.secrets.len() - 1,
        s.id == id ==> final(vault)@.tombstones.contains(
            TombstoneView {
                title: s.title,
                category: s.category,
                username: s.username,
                deleted_at: now@,
                uuid: Some(s.uuid),
            },
        ),
        forall|x: RecordView| #[trigger]
            final(vault)@.secrets.contains(x) ==> old(vault)@.secrets.contains(x) && x.id != id,
        forall|t: TombstoneView| #[trigger]
            old(vault)@.tombstones.contains(t) && t.uuid != Some(s.uuid) && s.id == id
                ==> final(vault)@.tombstones.contains(t),
        (forall|k: int| 0 <= k < old(vault)@.secrets.len() ==> (#[trigger] old(vault)@.secrets[k]).id != id)
            ==> final(vault)@ == old(vault)@,
        final(vault)@.history == old(vault)@.history,
        final(vault)@.hibp == old(vault)@.hibp,
        final(vault)@.token == old(vault)@.token,
        final(vault)@.floor == old(vault)@.floor,
{
    let v = old(vault)@;
    let i = choose|i: int| 0 <= i < v.secrets.len() && v.secrets[i] == s;
    lemma_found(v.secrets, id as int, i);
    let p = |x: RecordView| x.id != id as int;
    lemma_filter_members(v.secrets, p);
    if find_id(v.secrets, id as int) is Some {
        let f = find_id(v.secrets, id as int)->0;
        let k = choose|k: int| 0 <= k < v.secrets.len() && v.secrets[k] == f;
        assert(v.secrets[k].id == id);
    }
    if find_id(v.secrets, id as int) is Some {
        let f = find_id(v.secrets, id as int)->0;
        let q = |t: TombstoneView| t.uuid != Some(f.uuid);
        lemma_filter_members(v.tombstones, q);
        let kept = v.tombstones.filter(q);
        let m = TombstoneView {
            title: f.title,
            category: f.category,
            username: f.username,
            deleted_at: now@,
            uuid: Some(f.uuid),
        };
        assert(final(vault)@.tombstones == kept.push(m));
        assert(kept.push(m)[kept.len() as int] == m);
        assert forall|t: TombstoneView| #[trigger] kept.contains(t) implies kept.push(m).contains(t) by {
            let k = choose|k: int| 0 <= k < kept.len() && kept[k] == t;
            assert(kept.push(m)[k] == t);
        }
        if s.id == id {
            crate::db::store::law_every_deletion_leaves_its_own_tombstone(v, i, now@);
        }
    } else {
        assert forall|x: RecordView| v.secrets.contains(x) implies x.id != id by {
            let k = choose|k: int| 0 <= k < v.secrets.len() && v.secrets[k] == x;
            lemma_found(v.secrets, id as int, k);
        }
    }
}

/// A lookup by id gives a record of the vault with that id, and gives one if there is one.
pub proof fn law_lookup_finds_the_id(vault: &Vault, id: i64, r: Option<SecretRecord>, i: int)
    requires
        vault@.wf(),
        call_ensures(get_secret_by_id, (vault, id), r),
        0 <= i < vault@.secrets.len(),
    ensures
        vault@.secrets[i].id == id ==> r is Some && r->0@ == vault@.secrets[i],
        r matches Some(s) ==> s@.id == id && vault@.secrets.contains(s@),
{
    lemma_found(vault@.secrets, id as int, i);
}

/// A listing has every record, each as often as the vault does, none else, in the order of
/// their titles.
pub proof fn law_listing_is_complete_and_in_title_order(
    vault: &Vault,
    out: Vec<SecretRecord>,
    i: int,
    j: int,
)
    requires
        call_ensures(get_secrets, (vault,), out),
        0 <= i < j < out@.len(),
    ensures
        !lex_lt(out@[j].title@, out@[i].title@),
        out@.len() == vault@.secrets.len(),
        vault@.secrets.contains(out@[i]@),
        forall|s: RecordView| #[trigger] vault@.secrets.contains(s) ==> records(out@).contains(s),
{
    let a = records(out@);
    let b = vault@.secrets;
    assert(a[i] == out@[i]@ && a[j] == out@[j]@);
    a.to_multiset_ensures();
    b.to_multiset_ensures();
    assert(a.contains(a[i]));
    assert(b.to_multiset().count(a[i]) > 0);
    assert forall|s: RecordView| #[trigger] b.contains(s) implies a.contains(s) by {
        assert(b.to_multiset().count(s) > 0);
    }
}

/// Texts are ordered by their first difference; one that the other continues comes first.
pub proof fn law_texts_are_ordered_by_first_difference(a: &str, b: &str, r: bool, k: int)
    requires
        call_ensures(text_before, (a, b), r),
        0 <= k <= a@.len(),
        k <= b@.len(),
        a@.take(k) == b@.take(k),
        k < a@.len() && k < b@.len() ==> a@[k] != b@[k],
    ensures
        k < a@.len() && k < b@.len() ==> r == ((a@[k] as int) < (b@[k] as int)),
        k == a@.len() ==> r == (k < b@.len()),
        k < a@.len() && k == b@.len() ==> !r,
{
    lemma_first_difference(a@, b@, k);
}

pub proof fn lemma_first_difference(a: Seq<char>, b: Seq<char>, k: int)
    requires
        0 <= k <= a.len(),
        k <= b.len(),
        a.take(k) == b.take(k),
    ensures
        k < a.len() && k < b.len() && a[k] != b[k] ==> lex_lt(a, b) == ((a[k] as int) < (
        b[k] as int)),
        k == a.len() ==> lex_lt(a, b) == (k < b.len()),
        k < a.len() && k == b.len() ==> !lex_lt(a, b),
    decreases k,
{
    if k > 0 {
        assert(a.take(k)[0] == b.take(k)[0]);
        assert(a[0] == a.take(k)[0] && b[0] == b.take(k)[0]);
        assert(a.drop_first().take(k - 1) =~= a.take(k).drop_first());
        assert(b.drop_first().take(k - 1) =~= b.take(k).drop_first());
        lemma_first_difference(a.drop_first(), b.drop_first(), k - 1);
    }
}

/// The past passwords of a record are those of its identity, no others.
pub proof fn law_history_is_that_of_the_record(
    vault: &Vault,
    uuid: &String,
    out: Vec<HistoryEntry>,
    e: HistoryView,
)
    requires
        call_ensures(get_password_history, (vault, uuid), out),
    ensures
        past(out@).contains(e) <==> vault@.history.contains(e) && e.uuid == uuid@,
{
    lemma_filter_members(vault@.history, |e: HistoryView| e.uuid == uuid@);
}

/// Pruning the history drops exactly what belongs to no record.
pub proof fn law_pruning_history_spares_the_living(vault: &mut Vault, e: HistoryView)
    requires
        call_ensures(prune_orphaned_history, (vault,), ()),
    ensures
        final(vault)@.history.contains(e) <==> old(vault)@.history.contains(e) && exists|i: int|
            0 <= i < old(vault)@.secrets.len() && (#[trigger] old(vault)@.secrets[i]).uuid == e.uuid,
        final(vault)@.secrets == old(vault)@.secrets,
        final(vault)@.tombstones == old(vault)@.tombstones,
        final(vault)@.hibp == old(vault)@.hibp,
{
    let v = old(vault)@;
    lemma_filter_members(
        v.history,
        |e: HistoryView| crate::db::records::has_uuid(v.secrets, e.uuid),
    );
    assert(crate::db::records::has_uuid(v.secrets, e.uuid) <==> exists|i: int|
        0 <= i < v.secrets.len() && (#[trigger] v.secrets[i]).uuid == e.uuid);
}

/// Pruning tombstones drops exactly those from before the given time.
pub proof fn law_pruning_spares_young_tombstones(vault: &mut Vault, cutoff: &str, t: TombstoneView)
    requires
        call_ensures(prune_old_tombstones, (vault, cutoff), ()),
    ensures
        final(vault)@.tombstones.contains(t) <==> old(vault)@.tombstones.contains(t) && !lex_lt(
            t.deleted_at,
            cutoff@,
        ),
        final(vault)@.secrets == old(vault)@.secrets,
        final(vault)@.history == old(vault)@.history,
        final(vault)@.hibp == old(vault)@.hibp,
{
    let v = old(vault)@;
    lemma_filter_members(v.tombstones, |t: TombstoneView| !lex_lt(t.deleted_at, cutoff@));
}

/// A breach count that was saved is the one found under its lookup key, whatever was saved there
/// before; what is found under any other key stays.
pub proof fn law_saved_count_is_found(
    vault: &mut Vault,
    hash: &str,
    count: Option<u64>,
    earlier: &[HibpCheck],
    later: &[HibpCheck],
    wanted: &String,
    before: Option<Option<u64>>,
    after: Option<Option<u64>>,
)
    requires
        old(vault)@.wf(),
        call_ensures(save_hibp_check, (vault, hash, count), ()),
        checks(earlier@) == old(vault)@.hibp,
        checks(later@) == final(vault)@.hibp,
        call_ensures(cached_count, (earlier, wanted), before),
        call_ensures(cached_count, (later, wanted), after),
    ensures
        wanted@ == hash@ ==> after == Some(count),
        wanted@ != hash@ ==> after == before,
        final(vault)@.secrets == old(vault)@.secrets,
        final(vault)@.tombstones == old(vault)@.tombstones,
        final(vault)@.history == old(vault)@.history,
{
    law_cached_count_is_found(old(vault)@.hibp, hash@, count, wanted@);
}

} // verus!
