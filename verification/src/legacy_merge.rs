//! Merging a remote copy from before records had an identity of their own: title, category and
//! username stand for it.
use vstd::prelude::*;
use vstd::string::*;

use crate::db::identity::{is_uuid_v4, new_uuids};
use crate::db::records::{
    has_uuid, lemma_marks_push, lemma_records_push, marks, records, unused, RecordView,
    SecretRecord, Tombstone, TombstoneView, Vault, VaultView,
};
use crate::lists::{lemma_filter_members, lemma_filter_pairs, lemma_filter_step};
use crate::merge::{anonymous, cap_history, capped, is_anonymous, unite_history, united};
use crate::text::{lex_le, lex_lt, text_before, texts};

verus! {

/// Whether a tombstone carries the record's title, category and username.
pub open spec fn names(t: TombstoneView, s: RecordView) -> bool {
    t.title == s.title && t.category == s.category && t.username == s.username
}

/// Whether a tombstone of the record's name is newer than the record.
pub open spec fn name_buried(s: RecordView, t: Seq<TombstoneView>) -> bool {
    exists|i: int|
        0 <= i < t.len() && names(#[trigger] t[i], s) && lex_lt(s.updated_at, t[i].deleted_at)
}

/// Whether a tombstone of the record's name is at least as new as the record.
pub open spec fn name_blocked(s: RecordView, t: Seq<TombstoneView>) -> bool {
    exists|i: int|
        0 <= i < t.len() && names(#[trigger] t[i], s) && lex_le(s.updated_at, t[i].deleted_at)
}

/// Whether some record has the title, category and username of `s`.
pub open spec fn has_name(v: Seq<RecordView>, s: RecordView) -> bool {
    exists|i: int| 0 <= i < v.len() && s.same_triple(#[trigger] v[i])
}

/// The local records that no newer remote tombstone buries.
pub open spec fn kept_by_name(l: VaultView, r: VaultView) -> Seq<RecordView> {
    l.secrets.filter(|s: RecordView| !name_buried(s, r.tombstones))
}

/// The remote records whose name is new here and that no local tombstone blocks.
pub open spec fn added_by_name(l: VaultView, r: VaultView) -> Seq<RecordView> {
    r.secrets.filter(
        |s: RecordView| !has_name(kept_by_name(l, r), s) && !name_blocked(s, l.tombstones),
    )
}

/// The first record with the title, category and username of `s`.
pub open spec fn find_name(v: Seq<RecordView>, s: RecordView) -> Option<RecordView>
    decreases v.len(),
{
    if v.len() == 0 {
        None
    } else if s.same_triple(v[0]) {
        Some(v[0])
    } else {
        find_name(v.drop_first(), s)
    }
}

/// Whether a remote record of the same name was changed later.
pub open spec fn outdated(s: RecordView, remote: Seq<RecordView>) -> bool {
    exists|i: int|
        0 <= i < remote.len() && s.same_triple(#[trigger] remote[i]) && lex_lt(
            s.updated_at,
            remote[i].updated_at,
        )
}

/// An outdated record takes over what the first remote record of its name holds.
pub open spec fn refreshed_by_name(s: RecordView, remote: Seq<RecordView>) -> RecordView {
    if outdated(s, remote) {
        match find_name(remote, s) {
            Some(r) => RecordView {
                url: r.url,
                password: r.password,
                notes: r.notes,
                updated_at: r.updated_at,
                ..s
            },
            None => s,
        }
    } else {
        s
    }
}

/// The records under consecutive ids and the given identities.
pub open spec fn christened(s: Seq<RecordView>, next: int, fresh: Seq<Seq<char>>) -> Seq<RecordView> {
    Seq::new(s.len(), |i: int| (RecordView { uuid: fresh[i], ..s[i].with_id(next + i) }))
}

/// The records after the merge.
pub open spec fn named_secrets(l: VaultView, r: VaultView, fresh: Seq<Seq<char>>) -> Seq<RecordView> {
    let g = kept_by_name(l, r) + christened(added_by_name(l, r), l.next_id, fresh);
    Seq::new(g.len(), |i: int| refreshed_by_name(g[i], r.secrets))
}

/// The tombstones after the merge; those taken over carry no identity.
pub open spec fn named_marks(l: Seq<TombstoneView>, r: Seq<TombstoneView>) -> Seq<TombstoneView> {
    let taken = r.filter(|t: TombstoneView| !anonymous(l, t));
    l + Seq::new(taken.len(), |i: int| (TombstoneView { uuid: None, ..taken[i] }))
}

/// The vault after merging the remote copy `r` by name, the new records getting the identities
/// in `fresh`.
pub open spec fn merged_by_name(
    l: VaultView,
    r: VaultView,
    fresh: Seq<Seq<char>>,
    with_history: bool,
    cap: nat,
) -> VaultView {
    VaultView {
        secrets: named_secrets(l, r, fresh),
        tombstones: named_marks(l.tombstones, r.tombstones),
        history: if with_history {
            capped(united(l.history, r.history, kept_by_name(l, r)), cap)
        } else {
            l.history
        },
        next_id: l.next_id + added_by_name(l, r).len(),
        ..l
    }
}

fn is_name_of(t: &Tombstone, s: &SecretRecord) -> (b: bool)
    ensures
        b == names(t@, s@),
{
    t.title == s.title && t.category == s.category && t.username == s.username
}

fn has_same_name(a: &SecretRecord, b: &SecretRecord) -> (r: bool)
    ensures
        r == a@.same_triple(b@),
{
    a.title == b.title && a.category == b.category && a.username == b.username
}

fn is_name_buried(s: &SecretRecord, t: &[Tombstone]) -> (b: bool)
    ensures
        b == name_buried(s@, marks(t@)),
{
    let mut i: usize = 0;
    while i < t.len()
        invariant
            i <= t@.len(),
            forall|k: int|
                0 <= k < i ==> !(names(#[trigger] marks(t@)[k], s@) && lex_lt(
                    s@.updated_at,
                    marks(t@)[k].deleted_at,
                )),
        decreases t@.len() - i,
    {
        assert(marks(t@)[i as int] == t@[i as int]@);
        if is_name_of(&t[i], s) && text_before(s.updated_at.as_str(), t[i].deleted_at.as_str()) {
            return true;
        }
        i += 1;
    }
    false
}

fn is_name_blocked(s: &SecretRecord, t: &[Tombstone]) -> (b: bool)
    ensures
        b == name_blocked(s@, marks(t@)),
{
    let mut i: usize = 0;
    while i < t.len()
        invariant
            i <= t@.len(),
            forall|k: int|
                0 <= k < i ==> !(names(#[trigger] marks(t@)[k], s@) && lex_le(
                    s@.updated_at,
                    marks(t@)[k].deleted_at,
                )),
        decreases t@.len() - i,
    {
        assert(marks(t@)[i as int] == t@[i as int]@);
        if is_name_of(&t[i], s) && !text_before(t[i].deleted_at.as_str(), s.updated_at.as_str()) {
            return true;
        }
        i += 1;
    }
    false
}

/// `find_name` finds a record of the name wherever there is one.
pub proof fn lemma_find_name(v: Seq<RecordView>, s: RecordView)
    ensures
        find_name(v, s) is Some <==> has_name(v, s),
    decreases v.len(),
{
    if v.len() > 0 {
        let d = v.drop_first();
        lemma_find_name(d, s);
        if s.same_triple(v[0]) {
            assert(has_name(v, s));
        } else {
            if has_name(v, s) {
                let i = choose|i: int| 0 <= i < v.len() && s.same_triple(#[trigger] v[i]);
                assert(d[i - 1] == v[i]);
            }
            if has_name(d, s) {
                let i = choose|i: int| 0 <= i < d.len() && s.same_triple(#[trigger] d[i]);
                assert(v[i + 1] == d[i]);
            }
        }
    }
}

/// Position of the first record of the same name, or the number of records.
fn position_of_name(v: &[SecretRecord], s: &SecretRecord) -> (p: usize)
    ensures
        p <= v@.len(),
        p < v@.len() ==> find_name(records(v@), s@) == Some(v@[p as int]@),
        p == v@.len() ==> find_name(records(v@), s@) is None,
        (p < v@.len()) == has_name(records(v@), s@),
{
    let mut i: usize = 0;
    let ghost all = records(v@);
    assert(all.skip(0) =~= all);
    while i < v.len()
        invariant
            i <= v@.len(),
            all == records(v@),
            find_name(all, s@) == find_name(all.skip(i as int), s@),
        decreases v@.len() - i,
    {
        assert(all.skip(i as int)[0] == v@[i as int]@);
        if has_same_name(s, &v[i]) {
            proof {
                lemma_find_name(all, s@);
            }
            return i;
        }
        assert(all.skip(i as int).drop_first() =~= all.skip(i + 1));
        i += 1;
    }
    proof {
        lemma_find_name(all, s@);
    }
    i
}

fn is_outdated(s: &SecretRecord, remote: &[SecretRecord]) -> (b: bool)
    ensures
        b == outdated(s@, records(remote@)),
{
    let mut i: usize = 0;
    while i < remote.len()
        invariant
            i <= remote@.len(),
            forall|k: int|
                0 <= k < i ==> !(s@.same_triple(#[trigger] records(remote@)[k]) && lex_lt(
                    s@.updated_at,
                    records(remote@)[k].updated_at,
                )),
        decreases remote@.len() - i,
    {
        assert(records(remote@)[i as int] == remote@[i as int]@);
        if has_same_name(s, &remote[i]) && text_before(
            s.updated_at.as_str(),
            remote[i].updated_at.as_str(),
        ) {
            return true;
        }
        i += 1;
    }
    false
}

fn kept_names(local: &[SecretRecord], t: &[Tombstone]) -> (out: Vec<SecretRecord>)
    ensures
        records(out@) == records(local@).filter(|s: RecordView| !name_buried(s, marks(t@))),
{
    let mut out: Vec<SecretRecord> = Vec::new();
    let mut i: usize = 0;
    let ghost all = records(local@);
    let ghost p = |s: RecordView| !name_buried(s, marks(t@));
    proof {
        reveal(Seq::filter);
        assert(all.take(0).filter(p) =~= records(out@));
    }
    while i < local.len()
        invariant
            i <= local@.len(),
            all == records(local@),
            p == (|s: RecordView| !name_buried(s, marks(t@))),
            records(out@) == all.take(i as int).filter(p),
        decreases local@.len() - i,
    {
        proof {
            lemma_filter_step(all, i as int, p);
        }
        if !is_name_buried(&local[i], t) {
            let copy = local[i].clone();
            proof {
                lemma_records_push(out@, copy);
            }
            out.push(copy);
        }
        i += 1;
    }
    assert(all.take(i as int) =~= all);
    out
}

fn added_names(remote: &[SecretRecord], stay: &[SecretRecord], own: &[Tombstone]) -> (out: Vec<
    SecretRecord,
>)
    ensures
        records(out@) == records(remote@).filter(
            |s: RecordView| !has_name(records(stay@), s) && !name_blocked(s, marks(own@)),
        ),
        out@.len() <= remote@.len(),
{
    let mut out: Vec<SecretRecord> = Vec::new();
    let mut i: usize = 0;
    let ghost all = records(remote@);
    let ghost p = |s: RecordView| !has_name(records(stay@), s) && !name_blocked(s, marks(own@));
    proof {
        reveal(Seq::filter);
        assert(all.take(0).filter(p) =~= records(out@));
    }
    while i < remote.len()
        invariant
            i <= remote@.len(),
            out@.len() <= i,
            all == records(remote@),
            p == (|s: RecordView|
                !has_name(records(stay@), s) && !name_blocked(s, marks(own@))),
            records(out@) == all.take(i as int).filter(p),
        decreases remote@.len() - i,
    {
        proof {
            lemma_filter_step(all, i as int, p);
        }
        let absent = position_of_name(stay, &remote[i]) == stay.len();
        if absent && !is_name_blocked(&remote[i], own) {
            let copy = remote[i].clone();
            proof {
                lemma_records_push(out@, copy);
            }
            out.push(copy);
        }
        i += 1;
    }
    assert(all.take(i as int) =~= all);
    out
}

fn are_unused(fresh: &[String], n: usize, s: &[SecretRecord]) -> (b: bool)
    requires
        n <= fresh@.len(),
    ensures
        b == unused(texts(fresh@), n as int, records(s@)),
{
    let ghost f = texts(fresh@);
    let mut i: usize = 0;
    while i < n
        invariant
            i <= n <= fresh@.len(),
            f == texts(fresh@),
            forall|a: int, b: int| 0 <= a < b < i ==> #[trigger] f[a] != #[trigger] f[b],
            forall|a: int| 0 <= a < i ==> !has_uuid(records(s@), #[trigger] f[a]),
        decreases n - i,
    {
        assert(f[i as int] == fresh@[i as int]@);
        if crate::db::records::position_of_uuid(s, &fresh[i]) < s.len() {
            return false;
        }
        let mut j: usize = 0;
        while j < i
            invariant
                j <= i < n <= fresh@.len(),
                f == texts(fresh@),
                forall|a: int| 0 <= a < j ==> #[trigger] f[a] != f[i as int],
            decreases i - j,
        {
            assert(f[j as int] == fresh@[j as int]@);
            assert(f[i as int] == fresh@[i as int]@);
            if fresh[j] == fresh[i] {
                return false;
            }
            j += 1;
        }
        i += 1;
    }
    true
}

fn christen(v: &[SecretRecord], next: i64, fresh: &[String]) -> (out: Vec<SecretRecord>)
    requires
        0 <= next,
        next + v@.len() <= i64::MAX,
        v@.len() <= fresh@.len(),
    ensures
        records(out@) == christened(records(v@), next as int, texts(fresh@)),
{
    let mut out: Vec<SecretRecord> = Vec::new();
    let ghost all = christened(records(v@), next as int, texts(fresh@));
    let mut i: usize = 0;
    while i < v.len()
        invariant
            i <= v@.len(),
            0 <= next,
            next + v@.len() <= i64::MAX,
            v@.len() <= fresh@.len(),
            all == christened(records(v@), next as int, texts(fresh@)),
            records(out@) == all.take(i as int),
        decreases v@.len() - i,
    {
        let mut copy = v[i].with_new_id(next + i as i64);
        copy.sync_uuid = fresh[i].clone();
        assert(copy@ == all[i as int]);
        proof {
            lemma_records_push(out@, copy);
        }
        out.push(copy);
        i += 1;
        assert(records(out@) =~= all.take(i as int));
    }
    assert(all.take(i as int) =~= all);
    out
}

fn refresh_names(base: &[SecretRecord], remote: &[SecretRecord]) -> (out: Vec<SecretRecord>)
    ensures
        records(out@) == Seq::new(
            base@.len(),
            |i: int| refreshed_by_name(base@[i]@, records(remote@)),
        ),
{
    let mut out: Vec<SecretRecord> = Vec::new();
    let mut i: usize = 0;
    while i < base.len()
        invariant
            i <= base@.len(),
            records(out@) == Seq::new(
                i as nat,
                |k: int| refreshed_by_name(base@[k]@, records(remote@)),
            ),
        decreases base@.len() - i,
    {
        let mut fresh = base[i].clone();
        if is_outdated(&base[i], remote) {
            let p: usize = position_of_name(remote, &base[i]);
            if p < remote.len() {
                let other = remote[p].clone();
                fresh.url = other.url;
                fresh.encrypted_password = other.encrypted_password;
                fresh.encrypted_notes = other.encrypted_notes;
                fresh.updated_at = other.updated_at;
            }
        }
        assert(fresh@ == refreshed_by_name(base@[i as int]@, records(remote@)));
        proof {
            lemma_records_push(out@, fresh);
        }
        out.push(fresh);
        i += 1;
        assert(records(out@) =~= Seq::new(
            i as nat,
            |k: int| refreshed_by_name(base@[k]@, records(remote@)),
        ));
    }
    out
}

fn name_marks(local: &[Tombstone], remote: &[Tombstone]) -> (out: Vec<Tombstone>)
    ensures
        marks(out@) == named_marks(marks(local@), marks(remote@)),
{
    let mut out: Vec<Tombstone> = Vec::new();
    let ghost l = marks(local@);
    let ghost r = marks(remote@);
    let ghost q = |t: TombstoneView| !anonymous(l, t);
    let mut i: usize = 0;
    while i < local.len()
        invariant
            i <= local@.len(),
            l == marks(local@),
            marks(out@) == l.take(i as int),
        decreases local@.len() - i,
    {
        let copy = local[i].clone();
        proof {
            lemma_marks_push(out@, copy);
        }
        out.push(copy);
        i += 1;
        assert(marks(out@) =~= l.take(i as int));
    }
    assert(l.take(i as int) =~= l);
    proof {
        reveal(Seq::filter);
        let none = r.take(0).filter(q);
        assert(marks(out@) =~= l + Seq::new(
            none.len(),
            |k: int| (TombstoneView { uuid: None, ..none[k] }),
        ));
    }
    let mut j: usize = 0;
    while j < remote.len()
        invariant
            j <= remote@.len(),
            l == marks(local@),
            r == marks(remote@),
            q == (|t: TombstoneView| !anonymous(l, t)),
            marks(out@) == l + Seq::new(
                r.take(j as int).filter(q).len(),
                |k: int| (TombstoneView { uuid: None, ..r.take(j as int).filter(q)[k] }),
            ),
        decreases remote@.len() - j,
    {
        proof {
            lemma_filter_step(r, j as int, q);
        }
        let ghost seen = r.take(j as int).filter(q);
        let ghost before = marks(out@);
        if !is_anonymous(local, &remote[j]) {
            let mut copy = remote[j].clone();
            copy.sync_uuid = None;
            proof {
                lemma_marks_push(out@, copy);
            }
            out.push(copy);
            let ghost now = seen.push(r[j as int]);
            assert(marks(out@) =~= l + Seq::new(
                now.len(),
                |k: int| (TombstoneView { uuid: None, ..now[k] }),
            )) by {
                assert forall|k: int| 0 <= k < marks(out@).len() implies marks(out@)[k] == (l
                    + Seq::new(now.len(), |k: int| (TombstoneView { uuid: None, ..now[k] })))[k] by {
                    if k < before.len() {
                        assert(marks(out@)[k] == before[k]);
                    }
                }
            }
        }
        j += 1;
    }
    assert(r.take(j as int) =~= r);
    out
}

/// Merges a remote copy without identities into the local vault, all or nothing; the records
/// that come in get the identities in `fresh`, in order. These are looked at before anything is
/// changed, so that no record is ever left without one.
pub fn merge_by_name(
    local: &mut Vault,
    remote: &Vault,
    fresh: &Vec<String>,
    with_history: bool,
    cap: usize,
) -> (r: Result<(), String>)
    requires
        old(local)@.wf(),
        fresh@.len() >= remote@.secrets.len(),
    ensures
        (r is Ok) == (old(local)@.next_id + added_by_name(old(local)@, remote@).len() <= i64::MAX
            && unused(
            texts(fresh@),
            added_by_name(old(local)@, remote@).len() as int,
            kept_by_name(old(local)@, remote@),
        )),
        r is Ok ==> final(local)@ == merged_by_name(
            old(local)@,
            remote@,
            texts(fresh@),
            with_history,
            cap as nat,
        ) && final(local)@.wf(),
        r matches Err(e) ==> *final(local) == *old(local) && e@ == (if old(local)@.next_id
            + added_by_name(old(local)@, remote@).len() > i64::MAX {
            "Database merge transaction failed: database or disk is full"@
        } else {
            "UNIQUE constraint failed: secrets.sync_uuid"@
        }),
{
    let ghost l = local@;
    let mut stay = kept_names(local.secrets.as_slice(), remote.tombstones.as_slice());
    let extra = added_names(
        remote.secrets.as_slice(),
        stay.as_slice(),
        local.tombstones.as_slice(),
    );
    assert(records(extra@) == added_by_name(l, remote@));
    assert(extra@.len() == records(extra@).len());
    if extra.len() as u128 > (i64::MAX - local.next_id) as u128 {
        return Err("Database merge transaction failed: database or disk is full".to_owned());
    }
    if !are_unused(fresh.as_slice(), extra.len(), stay.as_slice()) {
        return Err("UNIQUE constraint failed: secrets.sync_uuid".to_owned());
    }
    let n: i64 = extra.len() as i64;
    let ghost left = records(stay@);
    if with_history {
        let both = unite_history(
            local.history.as_slice(),
            remote.history.as_slice(),
            stay.as_slice(),
        );
        local.history = cap_history(both.as_slice(), cap);
    }
    let mut named = christen(extra.as_slice(), local.next_id, fresh.as_slice());
    let ghost right = records(named@);
    stay.append(&mut named);
    assert(records(stay@) =~= left + right);
    let secrets = refresh_names(stay.as_slice(), remote.secrets.as_slice());
    assert(records(secrets@) =~= named_secrets(l, remote@, texts(fresh@)));
    let tombstones = name_marks(local.tombstones.as_slice(), remote.tombstones.as_slice());
    local.secrets = secrets;
    local.tombstones = tombstones;
    local.next_id = local.next_id + n;
    proof {
        lemma_merge_by_name_keeps_wf(l, remote@, texts(fresh@), with_history, cap as nat);
    }
    Ok(())
}

/// A merge by name with unused identities gives a well-formed vault.
pub proof fn lemma_merge_by_name_keeps_wf(
    l: VaultView,
    r: VaultView,
    fresh: Seq<Seq<char>>,
    with_history: bool,
    cap: nat,
)
    requires
        l.wf(),
        unused(fresh, added_by_name(l, r).len() as int, kept_by_name(l, r)),
    ensures
        merged_by_name(l, r, fresh, with_history, cap).wf(),
{
    let p = |s: RecordView| !name_buried(s, r.tombstones);
    let k = kept_by_name(l, r);
    let a = added_by_name(l, r);
    let c = christened(a, l.next_id, fresh);
    let m = named_secrets(l, r, fresh);
    let g = k + c;
    lemma_filter_members(l.secrets, p);
    lemma_filter_pairs(l.secrets, p, |x: RecordView, y: RecordView| x.uuid != y.uuid);
    lemma_filter_pairs(l.secrets, p, |x: RecordView, y: RecordView| x.id != y.id);
    assert forall|i: int| 0 <= i < k.len() implies (#[trigger] k[i]).id < l.next_id by {
        assert(k.contains(k[i]));
        let n = choose|n: int| 0 <= n < l.secrets.len() && l.secrets[n] == k[i];
        assert(l.secrets[n].id < l.next_id);
    }
    assert forall|i: int, j: int| 0 <= i < j < m.len() implies (#[trigger] m[i]).uuid != (
    #[trigger] m[j]).uuid && m[i].id != m[j].id by {
        assert(m[i].uuid == g[i].uuid && m[j].uuid == g[j].uuid);
        assert(m[i].id == g[i].id && m[j].id == g[j].id);
        if j < k.len() {
            assert(g[i] == k[i] && g[j] == k[j]);
        } else if i < k.len() {
            assert(g[i] == k[i]);
            assert(g[j] == c[j - k.len()]);
            assert(!has_uuid(k, fresh[j - k.len()]));
        } else {
            assert(g[i] == c[i - k.len()]);
            assert(g[j] == c[j - k.len()]);
            assert(fresh[i - k.len()] != fresh[j - k.len()]);
        }
    }
    assert forall|i: int| 0 <= i < m.len() implies (#[trigger] m[i]).id < l.next_id + a.len() by {
        assert(m[i].id == g[i].id);
        if i < k.len() {
            assert(g[i] == k[i]);
        } else {
            assert(g[i] == c[i - k.len()]);
        }
    }
    let t = named_marks(l.tombstones, r.tombstones);
    let lt = l.tombstones;
    assert forall|i: int, j: int|
        0 <= i < j < t.len() && (#[trigger] t[i]).uuid is Some implies t[i].uuid != (
    #[trigger] t[j]).uuid by {
        if i < lt.len() && j < lt.len() {
            assert(t[i] == lt[i] && t[j] == lt[j]);
        }
    }
}

/// Whether a merge by name under the given random identities comes to the given end: it succeeds
/// exactly where there are ids enough and no identity is taken.
pub open spec fn merges_by_name(
    ok: bool,
    new: VaultView,
    l: VaultView,
    r: VaultView,
    fresh: Seq<Seq<char>>,
    with_history: bool,
    cap: nat,
) -> bool {
    &&& fresh.len() >= r.secrets.len()
    &&& forall|i: int| 0 <= i < fresh.len() ==> is_uuid_v4(#[trigger] fresh[i])
    &&& ok == (l.next_id + added_by_name(l, r).len() <= i64::MAX && unused(
        fresh,
        added_by_name(l, r).len() as int,
        kept_by_name(l, r),
    ))
    &&& ok ==> new == merged_by_name(l, r, fresh, with_history, cap)
}

/// Merges a remote copy without identities into the local vault, all or nothing; the records
/// that come in get new random identities. Whatever these are, the result is the merge by name
/// with them, or where one is taken nothing has changed.
pub fn merge_by_name_fresh(local: &mut Vault, remote: &Vault, with_history: bool, cap: usize) -> (r:
    Result<(), String>)
    requires
        old(local)@.wf(),
    ensures
        exists|fresh: Seq<Seq<char>>| #[trigger]
            merges_by_name(
                r is Ok,
                final(local)@,
                old(local)@,
                remote@,
                fresh,
                with_history,
                cap as nat,
            ),
        r is Ok ==> final(local)@.wf(),
        r matches Err(e) ==> *final(local) == *old(local) && e@ == (if old(local)@.next_id
            + added_by_name(old(local)@, remote@).len() > i64::MAX {
            "Database merge transaction failed: database or disk is full"@
        } else {
            "UNIQUE constraint failed: secrets.sync_uuid"@
        }),
{
    let fresh = new_uuids(remote.secrets.len());
    let r = merge_by_name(local, remote, &fresh, with_history, cap);
    proof {
        assert forall|i: int| 0 <= i < texts(fresh@).len() implies is_uuid_v4(
            #[trigger] texts(fresh@)[i],
        ) by {
            assert(is_uuid_v4(fresh@[i]@));
        }
        assert(merges_by_name(
            r is Ok,
            local@,
            old(local)@,
            remote@,
            texts(fresh@),
            with_history,
            cap as nat,
        ));
    }
    r
}

/// What chance cannot spoil: a merge by name succeeds, whatever the random identities are, where
/// nothing comes in, or one record comes into a vault that keeps none.
pub proof fn law_merge_by_name_without_rivals_succeeds(
    ok: bool,
    new: VaultView,
    l: VaultView,
    r: VaultView,
    fresh: Seq<Seq<char>>,
    with_history: bool,
    cap: nat,
)
    requires
        merges_by_name(ok, new, l, r, fresh, with_history, cap),
        added_by_name(l, r).len() == 0 || (added_by_name(l, r).len() == 1 && kept_by_name(
            l,
            r,
        ).len() == 0),
        l.next_id + added_by_name(l, r).len() <= i64::MAX,
    ensures
        ok,
        new == merged_by_name(l, r, fresh, with_history, cap),
{
}

} // verus!
