//! Merging a remote copy of the vault into the local one.
use vstd::prelude::*;
use vstd::string::*;

use crate::db::records::{
    find_uuid, has_uuid, ids_below, ids_distinct, lemma_find_uuid, lemma_marks_push,
    lemma_past_push, lemma_records_push, marks, marks_distinct, past, position_of_uuid, records,
    uuids_distinct, HistoryEntry, HistoryView, RecordView, SecretRecord, Tombstone, TombstoneView,
    Vault, VaultView,
};
use crate::lists::{lemma_filter_members, lemma_filter_pairs, lemma_filter_step};
use crate::text::{lex_le, lex_lt, text_before};

verus! {

/// Whether a tombstone for the record is newer than the record.
pub open spec fn buried(s: RecordView, t: Seq<TombstoneView>) -> bool {
    exists|i: int|
        0 <= i < t.len() && (#[trigger] t[i]).uuid == Some(s.uuid) && lex_lt(
            s.updated_at,
            t[i].deleted_at,
        )
}

/// Whether a tombstone for the record is at least as new as the record.
pub open spec fn blocked(s: RecordView, t: Seq<TombstoneView>) -> bool {
    exists|i: int|
        0 <= i < t.len() && (#[trigger] t[i]).uuid == Some(s.uuid) && lex_le(
            s.updated_at,
            t[i].deleted_at,
        )
}

/// The local records that no newer remote tombstone buries.
pub open spec fn kept(l: VaultView, r: VaultView) -> Seq<RecordView> {
    l.secrets.filter(|s: RecordView| !buried(s, r.tombstones))
}

/// The remote records that are new here and that no local tombstone blocks.
pub open spec fn added(l: VaultView, r: VaultView) -> Seq<RecordView> {
    r.secrets.filter(
        |s: RecordView| !has_uuid(kept(l, r), s.uuid) && !blocked(s, l.tombstones),
    )
}

/// The records under consecutive ids from `next` on.
pub open spec fn numbered(s: Seq<RecordView>, next: int) -> Seq<RecordView> {
    Seq::new(s.len(), |i: int| s[i].with_id(next + i))
}

/// The newer of a record and its remote counterpart, under the local id.
pub open spec fn refreshed(s: RecordView, remote: Seq<RecordView>) -> RecordView {
    match find_uuid(remote, s.uuid) {
        Some(r) => if lex_lt(s.updated_at, r.updated_at) {
            r.with_id(s.id)
        } else {
            s
        },
        None => s,
    }
}

/// The records after the merge, before the newer remote versions replace the local ones.
pub open spec fn gathered(l: VaultView, r: VaultView) -> Seq<RecordView> {
    kept(l, r) + numbered(added(l, r), l.next_id)
}

/// The records after the merge.
pub open spec fn merged_secrets(l: VaultView, r: VaultView) -> Seq<RecordView> {
    Seq::new(gathered(l, r).len(), |i: int| refreshed(gathered(l, r)[i], r.secrets))
}

/// Whether some tombstone marks the identity.
pub open spec fn marked(t: Seq<TombstoneView>, uuid: Seq<char>) -> bool {
    exists|i: int| 0 <= i < t.len() && (#[trigger] t[i]).uuid == Some(uuid)
}

/// Whether some tombstone without an identity carries the given title, category and username.
pub open spec fn anonymous(t: Seq<TombstoneView>, m: TombstoneView) -> bool {
    exists|i: int|
        0 <= i < t.len() && (#[trigger] t[i]).uuid is None && t[i].title == m.title && t[i].category
            == m.category && t[i].username == m.username
}

/// The local tombstones that no remote tombstone replaces.
pub open spec fn own_marks(l: Seq<TombstoneView>, r: Seq<TombstoneView>) -> Seq<TombstoneView> {
    l.filter(|t: TombstoneView| t.uuid is None || !marked(r, t.uuid->0))
}

/// The remote tombstones that are taken over: all that carry an identity, and of the others
/// those whose title, category and username no local one without identity carries.
pub open spec fn taken_marks(l: Seq<TombstoneView>, r: Seq<TombstoneView>) -> Seq<TombstoneView> {
    r.filter(|t: TombstoneView| t.uuid is Some || !anonymous(l, t))
}

/// The tombstones after the merge.
pub open spec fn merged_marks(l: Seq<TombstoneView>, r: Seq<TombstoneView>) -> Seq<TombstoneView> {
    own_marks(l, r) + taken_marks(l, r)
}

/// Whether the history has an entry for the same record and time.
pub open spec fn recorded(h: Seq<HistoryView>, e: HistoryView) -> bool {
    exists|i: int|
        0 <= i < h.len() && (#[trigger] h[i]).uuid == e.uuid && h[i].replaced_at == e.replaced_at
}

/// Both histories, without remote entries that are known here or belong to no record.
pub open spec fn united(
    l: Seq<HistoryView>,
    r: Seq<HistoryView>,
    secrets: Seq<RecordView>,
) -> Seq<HistoryView> {
    l + r.filter(|e: HistoryView| has_uuid(secrets, e.uuid) && !recorded(l, e))
}

/// Whether entry `j` replaced the same record's password after entry `i` did.
pub open spec fn newer(h: Seq<HistoryView>, i: int, j: int) -> bool {
    h[j].uuid == h[i].uuid && (lex_lt(h[i].replaced_at, h[j].replaced_at) || (h[i].replaced_at
        == h[j].replaced_at && i < j))
}

/// The number of entries among the first `n` that are newer than entry `i`.
pub open spec fn newer_among(h: Seq<HistoryView>, i: int, n: int) -> nat
    decreases n,
{
    if n <= 0 {
        0
    } else {
        newer_among(h, i, n - 1) + (if newer(h, i, n - 1) {
            1nat
        } else {
            0nat
        })
    }
}

/// Of the first `n` entries, those that fewer than `cap` newer ones of the same record follow.
pub open spec fn newest_among(h: Seq<HistoryView>, cap: nat, n: int) -> Seq<HistoryView>
    decreases n,
{
    if n <= 0 {
        Seq::empty()
    } else if newer_among(h, n - 1, h.len() as int) < cap {
        newest_among(h, cap, n - 1).push(h[n - 1])
    } else {
        newest_among(h, cap, n - 1)
    }
}

/// The newest `cap` entries of each record.
pub open spec fn capped(h: Seq<HistoryView>, cap: nat) -> Seq<HistoryView> {
    newest_among(h, cap, h.len() as int)
}

/// The vault after merging `r` into `l`. A remote without a history table leaves the history
/// alone.
pub open spec fn merged(l: VaultView, r: VaultView, with_history: bool, cap: nat) -> VaultView {
    VaultView {
        secrets: merged_secrets(l, r),
        tombstones: merged_marks(l.tombstones, r.tombstones),
        history: if with_history {
            capped(united(l.history, r.history, merged_secrets(l, r)), cap)
        } else {
            l.history
        },
        next_id: l.next_id + added(l, r).len(),
        ..l
    }
}

fn is_buried(s: &SecretRecord, t: &[Tombstone]) -> (b: bool)
    ensures
        b == buried(s@, marks(t@)),
{
    let mut i: usize = 0;
    while i < t.len()
        invariant
            i <= t@.len(),
            forall|k: int|
                0 <= k < i ==> !((#[trigger] marks(t@)[k]).uuid == Some(s@.uuid) && lex_lt(
                    s@.updated_at,
                    marks(t@)[k].deleted_at,
                )),
        decreases t@.len() - i,
    {
        assert(marks(t@)[i as int] == t@[i as int]@);
        if t[i].is_for(&s.sync_uuid) && text_before(
            s.updated_at.as_str(),
            t[i].deleted_at.as_str(),
        ) {
            return true;
        }
        i += 1;
    }
    false
}

fn is_blocked(s: &SecretRecord, t: &[Tombstone]) -> (b: bool)
    ensures
        b == blocked(s@, marks(t@)),
{
    let mut i: usize = 0;
    while i < t.len()
        invariant
            i <= t@.len(),
            forall|k: int|
                0 <= k < i ==> !((#[trigger] marks(t@)[k]).uuid == Some(s@.uuid) && lex_le(
                    s@.updated_at,
                    marks(t@)[k].deleted_at,
                )),
        decreases t@.len() - i,
    {
        assert(marks(t@)[i as int] == t@[i as int]@);
        if t[i].is_for(&s.sync_uuid) && !text_before(
            t[i].deleted_at.as_str(),
            s.updated_at.as_str(),
        ) {
            return true;
        }
        i += 1;
    }
    false
}

fn kept_records(local: &[SecretRecord], t: &[Tombstone]) -> (out: Vec<SecretRecord>)
    ensures
        records(out@) == records(local@).filter(|s: RecordView| !buried(s, marks(t@))),
{
    let mut out: Vec<SecretRecord> = Vec::new();
    let mut i: usize = 0;
    let ghost all = records(local@);
    let ghost p = |s: RecordView| !buried(s, marks(t@));
    proof {
        reveal(Seq::filter);
        assert(all.take(0).filter(p) =~= records(out@));
    }
    while i < local.len()
        invariant
            i <= local@.len(),
            all == records(local@),
            p == (|s: RecordView| !buried(s, marks(t@))),
            records(out@) == all.take(i as int).filter(p),
        decreases local@.len() - i,
    {
        proof {
            lemma_filter_step(all, i as int, p);
        }
        let ghost before = records(out@);
        if !is_buried(&local[i], t) {
            out.push(local[i].clone());
            assert(records(out@) =~= before.push(all[i as int]));
        }
        i += 1;
    }
    assert(all.take(i as int) =~= all);
    out
}

fn added_records(
    remote: &[SecretRecord],
    stay: &[SecretRecord],
    own: &[Tombstone],
    next: i64,
) -> (r: (Option<Vec<SecretRecord>>, Ghost<Seq<RecordView>>))
    requires
        0 <= next,
    ensures
        r.1@ == records(remote@).filter(
            |s: RecordView| !has_uuid(records(stay@), s.uuid) && !blocked(s, marks(own@)),
        ),
        (r.0 is Some) == (next + r.1@.len() <= i64::MAX),
        r.0 matches Some(out) ==> records(out@) == numbered(r.1@, next as int),
{
    let mut out: Vec<SecretRecord> = Vec::new();
    let mut fits: bool = true;
    let mut i: usize = 0;
    let ghost all = records(remote@);
    let ghost p = |s: RecordView| !has_uuid(records(stay@), s.uuid) && !blocked(s, marks(own@));
    proof {
        reveal(Seq::filter);
        assert(numbered(all.take(0).filter(p), next as int) =~= records(out@));
    }
    while i < remote.len()
        invariant
            i <= remote@.len(),
            0 <= next,
            all == records(remote@),
            p == (|s: RecordView|
                !has_uuid(records(stay@), s.uuid) && !blocked(s, marks(own@))),
            fits == (next + all.take(i as int).filter(p).len() <= i64::MAX),
            fits ==> records(out@) == numbered(all.take(i as int).filter(p), next as int),
        decreases remote@.len() - i,
    {
        proof {
            lemma_filter_step(all, i as int, p);
        }
        let ghost seen = all.take(i as int).filter(p);
        let ghost before = records(out@);
        let absent = position_of_uuid(stay, &remote[i].sync_uuid) == stay.len();
        if absent && !is_blocked(&remote[i], own) {
            if fits {
                assert(out@.len() == seen.len()) by {
                    assert(records(out@).len() == numbered(seen, next as int).len());
                }
                if (out.len() as u128) < ((i64::MAX - next) as u128) {
                    let id: i64 = next + out.len() as i64;
                    let fresh = remote[i].with_new_id(id);
                    proof {
                        lemma_records_push(out@, fresh);
                    }
                    out.push(fresh);
                    assert(numbered(seen.push(all[i as int]), next as int) =~= numbered(
                        seen,
                        next as int,
                    ).push(fresh@));
                } else {
                    fits = false;
                }
            }
        }
        i += 1;
    }
    assert(all.take(i as int) =~= all);
    let ghost chosen = all.filter(p);
    if fits {
        (Some(out), Ghost(chosen))
    } else {
        (None, Ghost(chosen))
    }
}

fn refresh_records(base: &[SecretRecord], remote: &[SecretRecord]) -> (out: Vec<SecretRecord>)
    ensures
        records(out@) == Seq::new(
            base@.len(),
            |i: int| refreshed(base@[i]@, records(remote@)),
        ),
{
    let mut out: Vec<SecretRecord> = Vec::new();
    let mut i: usize = 0;
    while i < base.len()
        invariant
            i <= base@.len(),
            records(out@) == Seq::new(
                i as nat,
                |k: int| refreshed(base@[k]@, records(remote@)),
            ),
        decreases base@.len() - i,
    {
        let p: usize = position_of_uuid(remote, &base[i].sync_uuid);
        let ghost before = records(out@);
        let fresh = if p < remote.len() && text_before(
            base[i].updated_at.as_str(),
            remote[p].updated_at.as_str(),
        ) {
            remote[p].with_new_id(base[i].id)
        } else {
            base[i].clone()
        };
        assert(fresh@ == refreshed(base@[i as int]@, records(remote@)));
        proof {
            lemma_records_push(out@, fresh);
        }
        out.push(fresh);
        i += 1;
        assert(records(out@) =~= Seq::new(
            i as nat,
            |k: int| refreshed(base@[k]@, records(remote@)),
        ));
    }
    out
}

fn is_marked(t: &[Tombstone], uuid: &String) -> (b: bool)
    ensures
        b == marked(marks(t@), uuid@),
{
    let mut i: usize = 0;
    while i < t.len()
        invariant
            i <= t@.len(),
            forall|k: int| 0 <= k < i ==> (#[trigger] marks(t@)[k]).uuid != Some(uuid@),
        decreases t@.len() - i,
    {
        assert(marks(t@)[i as int] == t@[i as int]@);
        if t[i].is_for(uuid) {
            return true;
        }
        i += 1;
    }
    false
}

/// Whether some tombstone without an identity carries the title, category and username of `m`.
pub fn is_anonymous(t: &[Tombstone], m: &Tombstone) -> (b: bool)
    ensures
        b == anonymous(marks(t@), m@),
{
    let mut i: usize = 0;
    while i < t.len()
        invariant
            i <= t@.len(),
            forall|k: int|
                0 <= k < i ==> !((#[trigger] marks(t@)[k]).uuid is None && marks(t@)[k].title
                    == m@.title && marks(t@)[k].category == m@.category && marks(t@)[k].username
                    == m@.username),
        decreases t@.len() - i,
    {
        assert(marks(t@)[i as int] == t@[i as int]@);
        if t[i].sync_uuid.is_none() && t[i].title == m.title && t[i].category == m.category
            && t[i].username == m.username {
            return true;
        }
        i += 1;
    }
    false
}

fn merge_marks(local: &[Tombstone], remote: &[Tombstone]) -> (out: Vec<Tombstone>)
    ensures
        marks(out@) == merged_marks(marks(local@), marks(remote@)),
{
    let mut out: Vec<Tombstone> = Vec::new();
    let ghost l = marks(local@);
    let ghost r = marks(remote@);
    let ghost p = |t: TombstoneView| t.uuid is None || !marked(r, t.uuid->0);
    let ghost q = |t: TombstoneView| t.uuid is Some || !anonymous(l, t);
    proof {
        reveal(Seq::filter);
        assert(l.take(0).filter(p) =~= marks(out@));
    }
    let mut i: usize = 0;
    while i < local.len()
        invariant
            i <= local@.len(),
            l == marks(local@),
            r == marks(remote@),
            p == (|t: TombstoneView| t.uuid is None || !marked(r, t.uuid->0)),
            marks(out@) == l.take(i as int).filter(p),
        decreases local@.len() - i,
    {
        proof {
            lemma_filter_step(l, i as int, p);
        }
        let stays = match &local[i].sync_uuid {
            Some(u) => !is_marked(remote, u),
            None => true,
        };
        assert(stays == p(l[i as int]));
        if stays {
            let copy = local[i].clone();
            proof {
                lemma_marks_push(out@, copy);
            }
            out.push(copy);
        }
        i += 1;
    }
    assert(l.take(i as int) =~= l);
    let ghost first = marks(out@);
    proof {
        reveal(Seq::filter);
        assert(first + r.take(0).filter(q) =~= first);
    }
    let mut j: usize = 0;
    while j < remote.len()
        invariant
            j <= remote@.len(),
            l == marks(local@),
            r == marks(remote@),
            q == (|t: TombstoneView| t.uuid is Some || !anonymous(l, t)),
            marks(out@) == first + r.take(j as int).filter(q),
        decreases remote@.len() - j,
    {
        proof {
            lemma_filter_step(r, j as int, q);
        }
        let taken = remote[j].sync_uuid.is_some() || !is_anonymous(local, &remote[j]);
        assert(taken == q(r[j as int]));
        if taken {
            let copy = remote[j].clone();
            proof {
                lemma_marks_push(out@, copy);
            }
            let ghost seen = r.take(j as int).filter(q);
            out.push(copy);
            assert(marks(out@) =~= first + seen.push(copy@));
        }
        j += 1;
    }
    assert(r.take(j as int) =~= r);
    out
}

fn is_recorded(h: &[HistoryEntry], e: &HistoryEntry) -> (b: bool)
    ensures
        b == recorded(past(h@), e@),
{
    let mut i: usize = 0;
    while i < h.len()
        invariant
            i <= h@.len(),
            forall|k: int|
                0 <= k < i ==> !((#[trigger] past(h@)[k]).uuid == e@.uuid && past(h@)[k].replaced_at
                    == e@.replaced_at),
        decreases h@.len() - i,
    {
        assert(past(h@)[i as int] == h@[i as int]@);
        if h[i].sync_uuid == e.sync_uuid && h[i].replaced_at == e.replaced_at {
            return true;
        }
        i += 1;
    }
    false
}

/// Unites two histories.
pub fn unite_history(local: &[HistoryEntry], remote: &[HistoryEntry], secrets: &[SecretRecord]) -> (out:
    Vec<HistoryEntry>)
    ensures
        past(out@) == united(past(local@), past(remote@), records(secrets@)),
{
    let mut out: Vec<HistoryEntry> = Vec::new();
    let ghost l = past(local@);
    let ghost r = past(remote@);
    let ghost p = |e: HistoryView| has_uuid(records(secrets@), e.uuid) && !recorded(l, e);
    let mut i: usize = 0;
    while i < local.len()
        invariant
            i <= local@.len(),
            l == past(local@),
            past(out@) == l.take(i as int),
        decreases local@.len() - i,
    {
        let copy = local[i].clone();
        proof {
            lemma_past_push(out@, copy);
        }
        out.push(copy);
        i += 1;
        assert(past(out@) =~= l.take(i as int));
    }
    assert(l.take(i as int) =~= l);
    proof {
        reveal(Seq::filter);
        assert(l + r.take(0).filter(p) =~= l);
    }
    let mut j: usize = 0;
    while j < remote.len()
        invariant
            j <= remote@.len(),
            l == past(local@),
            r == past(remote@),
            p == (|e: HistoryView| has_uuid(records(secrets@), e.uuid) && !recorded(l, e)),
            past(out@) == l + r.take(j as int).filter(p),
        decreases remote@.len() - j,
    {
        proof {
            lemma_filter_step(r, j as int, p);
        }
        let known = position_of_uuid(secrets, &remote[j].sync_uuid) < secrets.len();
        if known && !is_recorded(local, &remote[j]) {
            let copy = remote[j].clone();
            proof {
                lemma_past_push(out@, copy);
            }
            let ghost seen = r.take(j as int).filter(p);
            out.push(copy);
            assert(past(out@) =~= l + seen.push(copy@));
        }
        j += 1;
    }
    assert(r.take(j as int) =~= r);
    out
}

fn is_newer(h: &[HistoryEntry], i: usize, j: usize) -> (b: bool)
    requires
        i < h@.len(),
        j < h@.len(),
    ensures
        b == newer(past(h@), i as int, j as int),
{
    h[j].sync_uuid == h[i].sync_uuid && (text_before(
        h[i].replaced_at.as_str(),
        h[j].replaced_at.as_str(),
    ) || (h[i].replaced_at == h[j].replaced_at && i < j))
}

/// Keeps the newest `cap` entries of each record; of entries with the same time, the later
/// one counts as newer.
pub fn cap_history(h: &[HistoryEntry], cap: usize) -> (out: Vec<HistoryEntry>)
    ensures
        past(out@) == capped(past(h@), cap as nat),
{
    let mut out: Vec<HistoryEntry> = Vec::new();
    let ghost all = past(h@);
    let mut i: usize = 0;
    assert(past(out@) =~= newest_among(all, cap as nat, 0));
    while i < h.len()
        invariant
            i <= h@.len(),
            all == past(h@),
            past(out@) == newest_among(all, cap as nat, i as int),
        decreases h@.len() - i,
    {
        let mut count: usize = 0;
        let mut j: usize = 0;
        while j < h.len()
            invariant
                i < h@.len(),
                j <= h@.len(),
                all == past(h@),
                count == newer_among(all, i as int, j as int),
                count <= j,
            decreases h@.len() - j,
        {
            if is_newer(h, i, j) {
                count += 1;
            }
            j += 1;
        }
        if count < cap {
            let copy = h[i].clone();
            proof {
                lemma_past_push(out@, copy);
            }
            out.push(copy);
        }
        i += 1;
    }
    out
}

/// Merges the remote copy into the local vault, all or nothing.
///
/// A local record goes if the remote deleted it after its last change. A remote record comes
/// in if it is unknown here and was not deleted here at or after its last change. Where both
/// sides have a record, the version with the later change time stays, the local one on a tie.
/// Tombstones and password histories are united.
pub fn merge_vaults(local: &mut Vault, remote: &Vault, with_history: bool, cap: usize) -> (r: Result<
    (),
    String,
>)
    requires
        old(local)@.wf(),
        remote@.wf(),
    ensures
        (r is Ok) == (old(local)@.next_id + added(old(local)@, remote@).len() <= i64::MAX),
        r is Ok ==> final(local)@ == merged(old(local)@, remote@, with_history, cap as nat)
            && final(local)@.wf(),
        r matches Err(e) ==> *final(local) == *old(local) && e@
            == "Database merge transaction failed: database or disk is full"@,
{
    let ghost l = local@;
    let mut stay = kept_records(local.secrets.as_slice(), remote.tombstones.as_slice());
    let (fresh, chosen) = added_records(
        remote.secrets.as_slice(),
        stay.as_slice(),
        local.tombstones.as_slice(),
        local.next_id,
    );
    assert(chosen@ == added(l, remote@));
    match fresh {
        None => Err("Database merge transaction failed: database or disk is full".to_owned()),
        Some(mut extra) => {
            let n: i64 = extra.len() as i64;
            assert(extra@.len() == records(extra@).len());
            assert(extra@.len() == chosen@.len());
            let ghost left = records(stay@);
            let ghost right = records(extra@);
            stay.append(&mut extra);
            assert(records(stay@) =~= left + right);
            assert(records(stay@) == gathered(l, remote@));
            let secrets = refresh_records(stay.as_slice(), remote.secrets.as_slice());
            assert(records(secrets@) =~= merged_secrets(l, remote@));
            let tombstones = merge_marks(
                local.tombstones.as_slice(),
                remote.tombstones.as_slice(),
            );
            if with_history {
                let both = unite_history(
                    local.history.as_slice(),
                    remote.history.as_slice(),
                    secrets.as_slice(),
                );
                local.history = cap_history(both.as_slice(), cap);
            }
            local.secrets = secrets;
            local.tombstones = tombstones;
            local.next_id = local.next_id + n;
            proof {
                lemma_merge_keeps_wf(l, remote@, with_history, cap as nat);
            }
            Ok(())
        },
    }
}

proof fn lemma_refreshed_keeps(s: RecordView, remote: Seq<RecordView>)
    ensures
        refreshed(s, remote).uuid == s.uuid,
        refreshed(s, remote).id == s.id,
{
    lemma_find_uuid(remote, s.uuid);
}

proof fn lemma_gathered_distinct(l: VaultView, r: VaultView)
    requires
        l.wf(),
        r.wf(),
    ensures
        uuids_distinct(gathered(l, r)),
        ids_distinct(gathered(l, r)),
        ids_below(gathered(l, r), l.next_id + added(l, r).len()),
{
    let p = |s: RecordView| !buried(s, r.tombstones);
    let q = |s: RecordView| !has_uuid(kept(l, r), s.uuid) && !blocked(s, l.tombstones);
    let k = kept(l, r);
    let a = added(l, r);
    let g = gathered(l, r);
    lemma_filter_members(l.secrets, p);
    lemma_filter_members(r.secrets, q);
    lemma_filter_pairs(l.secrets, p, |x: RecordView, y: RecordView| x.uuid != y.uuid);
    lemma_filter_pairs(l.secrets, p, |x: RecordView, y: RecordView| x.id != y.id);
    lemma_filter_pairs(r.secrets, q, |x: RecordView, y: RecordView| x.uuid != y.uuid);
    assert forall|i: int| 0 <= i < k.len() implies (#[trigger] k[i]).id < l.next_id by {
        assert(k.contains(k[i]));
        let m = choose|m: int| 0 <= m < l.secrets.len() && l.secrets[m] == k[i];
        assert(l.secrets[m].id < l.next_id);
    }
    assert forall|i: int| 0 <= i < a.len() implies !has_uuid(k, (#[trigger] a[i]).uuid) by {
        assert(a.contains(a[i]));
        assert(q(a[i]));
    }
    assert forall|i: int, j: int| 0 <= i < j < g.len() implies (#[trigger] g[i]).uuid != (
    #[trigger] g[j]).uuid && g[i].id != g[j].id by {
        if j < k.len() {
            assert(g[i] == k[i] && g[j] == k[j]);
        } else if i < k.len() {
            assert(g[i] == k[i]);
            assert(g[j] == a[j - k.len()].with_id(l.next_id + (j - k.len())));
            assert(!has_uuid(k, a[j - k.len()].uuid));
        } else {
            assert(g[i] == a[i - k.len()].with_id(l.next_id + (i - k.len())));
            assert(g[j] == a[j - k.len()].with_id(l.next_id + (j - k.len())));
        }
    }
}

/// A merge of two well-formed vaults is well-formed: every record keeps an identity and an id
/// of its own, and no identity is marked deleted twice.
pub proof fn lemma_merge_keeps_wf(l: VaultView, r: VaultView, with_history: bool, cap: nat)
    requires
        l.wf(),
        r.wf(),
    ensures
        merged(l, r, with_history, cap).wf(),
{
    lemma_gathered_distinct(l, r);
    let g = gathered(l, r);
    let m = merged_secrets(l, r);
    assert forall|i: int, j: int| 0 <= i < j < m.len() implies (#[trigger] m[i]).uuid != (
    #[trigger] m[j]).uuid && m[i].id != m[j].id by {
        lemma_refreshed_keeps(g[i], r.secrets);
        lemma_refreshed_keeps(g[j], r.secrets);
        assert(g[i].uuid != g[j].uuid && g[i].id != g[j].id);
    }
    assert forall|i: int| 0 <= i < m.len() implies (#[trigger] m[i]).id < l.next_id + added(
        l,
        r,
    ).len() by {
        lemma_refreshed_keeps(g[i], r.secrets);
        assert(g[i].id < l.next_id + added(l, r).len());
    }
    let lt = l.tombstones;
    let rt = r.tombstones;
    let p = |t: TombstoneView| t.uuid is None || !marked(rt, t.uuid->0);
    let q = |t: TombstoneView| t.uuid is Some || !anonymous(lt, t);
    let rel = |x: TombstoneView, y: TombstoneView| x.uuid is Some ==> x.uuid != y.uuid;
    lemma_filter_members(lt, p);
    lemma_filter_members(rt, q);
    lemma_filter_pairs(lt, p, rel);
    lemma_filter_pairs(rt, q, rel);
    let o = own_marks(lt, rt);
    let t = taken_marks(lt, rt);
    let mm = merged_marks(lt, rt);
    assert forall|i: int, j: int|
        0 <= i < j < mm.len() && (#[trigger] mm[i]).uuid is Some implies mm[i].uuid != (
    #[trigger] mm[j]).uuid by {
        if j < o.len() {
            assert(rel(o[i], o[j]));
        } else if i < o.len() {
            assert(o.contains(o[i]));
            assert(p(o[i]));
            assert(t.contains(t[j - o.len()]));
            let k = choose|k: int| 0 <= k < rt.len() && rt[k] == t[j - o.len()];
            assert(rt[k].uuid != Some(o[i].uuid->0));
        } else {
            assert(rel(t[i - o.len()], t[j - o.len()]));
        }
    }
}

/// The live version of a record, whatever its id.
pub open spec fn live(s: Seq<RecordView>, uuid: Seq<char>) -> Option<RecordView> {
    match find_uuid(s, uuid) {
        Some(x) => Some(x.with_id(0)),
        None => None,
    }
}

/// When the identity was marked deleted, if it was.
pub open spec fn deletion(t: Seq<TombstoneView>, uuid: Seq<char>) -> Option<Seq<char>>
    decreases t.len(),
{
    if t.len() == 0 {
        None
    } else if t[0].uuid == Some(uuid) {
        Some(t[0].deleted_at)
    } else {
        deletion(t.drop_first(), uuid)
    }
}

/// Whether a deletion at `d` came after a change at `u`.
pub open spec fn deleted_after(d: Option<Seq<char>>, u: Seq<char>) -> bool {
    d matches Some(t) && lex_lt(u, t)
}

/// Whether a deletion at `d` came at or after a change at `u`.
pub open spec fn deleted_since(d: Option<Seq<char>>, u: Seq<char>) -> bool {
    d matches Some(t) && lex_le(u, t)
}

/// What a merge makes of one record: `here` and `there` are its versions on the two sides,
/// `gone_here` and `gone_there` the times of its tombstones.
pub open spec fn verdict(
    here: Option<RecordView>,
    gone_here: Option<Seq<char>>,
    there: Option<RecordView>,
    gone_there: Option<Seq<char>>,
) -> Option<RecordView> {
    if here is Some && !deleted_after(gone_there, here->0.updated_at) {
        if there is Some && lex_lt(here->0.updated_at, there->0.updated_at) {
            there
        } else {
            here
        }
    } else if there is Some && !deleted_since(gone_here, there->0.updated_at) {
        there
    } else {
        None
    }
}

/// Where no two tombstones mark the same identity, a deletion is that of its tombstone.
pub proof fn lemma_deletion(t: Seq<TombstoneView>, uuid: Seq<char>)
    requires
        marks_distinct(t),
    ensures
        deletion(t, uuid) is Some <==> marked(t, uuid),
        forall|i: int|
            0 <= i < t.len() && (#[trigger] t[i]).uuid == Some(uuid) ==> deletion(t, uuid) == Some(
                t[i].deleted_at,
            ),
    decreases t.len(),
{
    if t.len() > 0 {
        let d = t.drop_first();
        assert(marks_distinct(d)) by {
            assert forall|i: int, j: int|
                0 <= i < j < d.len() && (#[trigger] d[i]).uuid is Some implies d[i].uuid != (
            #[trigger] d[j]).uuid by {
                assert(d[i] == t[i + 1] && d[j] == t[j + 1]);
            }
        }
        lemma_deletion(d, uuid);
        assert forall|i: int| 0 <= i < t.len() && (#[trigger] t[i]).uuid == Some(uuid) implies (
        deletion(t, uuid) == Some(t[i].deleted_at)) by {
            if i > 0 {
                assert(t[0].uuid != Some(uuid));
                assert(d[i - 1] == t[i]);
            }
        }
        if marked(t, uuid) {
            let i = choose|i: int| 0 <= i < t.len() && (#[trigger] t[i]).uuid == Some(uuid);
            assert(deletion(t, uuid) == Some(t[i].deleted_at));
        }
        if marked(d, uuid) {
            let i = choose|i: int| 0 <= i < d.len() && (#[trigger] d[i]).uuid == Some(uuid);
            assert(t[i + 1] == d[i]);
        }
        if t[0].uuid == Some(uuid) {
            assert(marked(t, uuid));
        }
    }
}

proof fn lemma_buried(s: RecordView, t: Seq<TombstoneView>)
    requires
        marks_distinct(t),
    ensures
        buried(s, t) == deleted_after(deletion(t, s.uuid), s.updated_at),
        blocked(s, t) == deleted_since(deletion(t, s.uuid), s.updated_at),
{
    lemma_deletion(t, s.uuid);
    if marked(t, s.uuid) {
        let i = choose|i: int| 0 <= i < t.len() && (#[trigger] t[i]).uuid == Some(s.uuid);
        assert(deletion(t, s.uuid) == Some(t[i].deleted_at));
    }
}

/// Where an identity occurs in one place only, that record is the one found.
proof fn lemma_find_at(s: Seq<RecordView>, i: int)
    requires
        uuids_distinct(s),
        0 <= i < s.len(),
    ensures
        find_uuid(s, s[i].uuid) == Some(s[i]),
{
    crate::db::records::lemma_find_distinct(s, i);
}

/// Every record fares in a merge as its own versions and tombstones decide.
pub proof fn law_merge_decides_per_record(l: VaultView, r: VaultView, uuid: Seq<char>)
    requires
        l.wf(),
        r.wf(),
    ensures
        live(merged_secrets(l, r), uuid) == verdict(
            live(l.secrets, uuid),
            deletion(l.tombstones, uuid),
            live(r.secrets, uuid),
            deletion(r.tombstones, uuid),
        ),
{
    let p = |s: RecordView| !buried(s, r.tombstones);
    let q = |s: RecordView| !has_uuid(kept(l, r), s.uuid) && !blocked(s, l.tombstones);
    let k = kept(l, r);
    let a = added(l, r);
    let g = gathered(l, r);
    let m = merged_secrets(l, r);
    lemma_filter_members(l.secrets, p);
    lemma_filter_members(r.secrets, q);
    lemma_gathered_distinct(l, r);
    lemma_merge_keeps_wf(l, r, false, 0);
    lemma_find_uuid(l.secrets, uuid);
    lemma_find_uuid(r.secrets, uuid);
    lemma_find_uuid(m, uuid);
    let x = find_uuid(l.secrets, uuid);
    let y = find_uuid(r.secrets, uuid);
    if x is Some {
        lemma_buried(x->0, r.tombstones);
    }
    if y is Some {
        lemma_buried(y->0, l.tombstones);
    }
    // Which records of the two sides carry the identity.
    assert forall|s: RecordView| l.secrets.contains(s) && s.uuid == uuid implies x == Some(s) by {
        let i = choose|i: int| 0 <= i < l.secrets.len() && l.secrets[i] == s;
        lemma_find_at(l.secrets, i);
    }
    assert forall|s: RecordView| r.secrets.contains(s) && s.uuid == uuid implies y == Some(s) by {
        let i = choose|i: int| 0 <= i < r.secrets.len() && r.secrets[i] == s;
        lemma_find_at(r.secrets, i);
    }
    let survives = x is Some && !buried(x->0, r.tombstones);
    assert(has_uuid(k, uuid) == survives) by {
        if survives {
            assert(k.contains(x->0));
            let i = choose|i: int| 0 <= i < k.len() && k[i] == x->0;
            assert(k[i].uuid == uuid);
        }
        if has_uuid(k, uuid) {
            let i = choose|i: int| 0 <= i < k.len() && (#[trigger] k[i]).uuid == uuid;
            assert(k.contains(k[i]));
        }
    }
    if survives {
        assert(k.contains(x->0));
        let i = choose|i: int| 0 <= i < k.len() && k[i] == x->0;
        assert(g[i] == x->0);
        lemma_refreshed_keeps(g[i], r.secrets);
        assert(m[i] == refreshed(x->0, r.secrets));
        lemma_find_at(m, i);
    } else if y is Some && !blocked(y->0, l.tombstones) {
        assert(q(y->0));
        assert(a.contains(y->0));
        let i = choose|i: int| 0 <= i < a.len() && a[i] == y->0;
        let j = k.len() + i;
        assert(g[j] == y->0.with_id(l.next_id + i));
        crate::text::lemma_lex_irreflexive(y->0.updated_at);
        assert(refreshed(g[j], r.secrets) == g[j]);
        assert(m[j] == g[j]);
        lemma_find_at(m, j);
        assert(find_uuid(m, uuid) == Some(g[j]));
        assert(g[j].with_id(0) == y->0.with_id(0));
    } else {
        if has_uuid(m, uuid) {
            let i = choose|i: int| 0 <= i < m.len() && (#[trigger] m[i]).uuid == uuid;
            lemma_refreshed_keeps(g[i], r.secrets);
            if i < k.len() {
                assert(k[i].uuid == uuid);
            } else {
                assert(g[i] == a[i - k.len()].with_id(l.next_id + (i - k.len())));
                assert(a.contains(a[i - k.len()]));
                assert(q(a[i - k.len()]));
            }
        }
    }
}

/// A merge keeps the remote tombstone of an identity where there is one, else the local one.
pub proof fn law_merge_unites_deletions(l: VaultView, r: VaultView, uuid: Seq<char>)
    requires
        l.wf(),
        r.wf(),
    ensures
        deletion(merged_marks(l.tombstones, r.tombstones), uuid) == (if deletion(
            r.tombstones,
            uuid,
        ) is Some {
            deletion(r.tombstones, uuid)
        } else {
            deletion(l.tombstones, uuid)
        }),
{
    let lt = l.tombstones;
    let rt = r.tombstones;
    let m = merged_marks(lt, rt);
    let p = |t: TombstoneView| t.uuid is None || !marked(rt, t.uuid->0);
    let q = |t: TombstoneView| t.uuid is Some || !anonymous(lt, t);
    lemma_filter_members(lt, p);
    lemma_filter_members(rt, q);
    lemma_merge_keeps_wf(l, r, false, 0);
    lemma_deletion(lt, uuid);
    lemma_deletion(rt, uuid);
    lemma_deletion(m, uuid);
    let o = own_marks(lt, rt);
    let t = taken_marks(lt, rt);
    if marked(rt, uuid) {
        let i = choose|i: int| 0 <= i < rt.len() && (#[trigger] rt[i]).uuid == Some(uuid);
        assert(rt.contains(rt[i]));
        assert(q(rt[i]));
        assert(t.contains(rt[i]));
        let k = choose|k: int| 0 <= k < t.len() && t[k] == rt[i];
        assert(m[o.len() + k] == rt[i]);
    } else if marked(lt, uuid) {
        let i = choose|i: int| 0 <= i < lt.len() && (#[trigger] lt[i]).uuid == Some(uuid);
        assert(lt.contains(lt[i]));
        assert(p(lt[i]));
        assert(o.contains(lt[i]));
        let k = choose|k: int| 0 <= k < o.len() && o[k] == lt[i];
        assert(m[k] == lt[i]);
    } else if marked(m, uuid) {
        let i = choose|i: int| 0 <= i < m.len() && (#[trigger] m[i]).uuid == Some(uuid);
        if i < o.len() {
            assert(o.contains(o[i]));
            let k = choose|k: int| 0 <= k < lt.len() && lt[k] == o[i];
            assert(lt[k].uuid == Some(uuid));
        } else {
            assert(t.contains(t[i - o.len()]));
            let k = choose|k: int| 0 <= k < rt.len() && rt[k] == t[i - o.len()];
            assert(rt[k].uuid == Some(uuid));
        }
    }
}

/// A record that the remote deleted after its last local change is gone after the merge,
/// unless the remote holds a version of it that was not deleted here since.
pub proof fn law_remote_deletion_propagates(l: VaultView, r: VaultView, uuid: Seq<char>)
    requires
        l.wf(),
        r.wf(),
        live(l.secrets, uuid) is Some,
        deleted_after(deletion(r.tombstones, uuid), live(l.secrets, uuid)->0.updated_at),
        live(r.secrets, uuid) is None,
    ensures
        live(merged_secrets(l, r), uuid) is None,
{
    law_merge_decides_per_record(l, r, uuid);
}

/// A record that was deleted here at or after its last change on the remote does not come back.
pub proof fn law_deleted_record_does_not_return(l: VaultView, r: VaultView, uuid: Seq<char>)
    requires
        l.wf(),
        r.wf(),
        live(l.secrets, uuid) is None,
        live(r.secrets, uuid) is Some,
        deleted_since(deletion(l.tombstones, uuid), live(r.secrets, uuid)->0.updated_at),
    ensures
        live(merged_secrets(l, r), uuid) is None,
{
    law_merge_decides_per_record(l, r, uuid);
}

/// Of two live versions of a record the one changed later stays, with all its fields, unless
/// the remote deleted the local version.
pub proof fn law_later_change_wins(l: VaultView, r: VaultView, uuid: Seq<char>)
    requires
        l.wf(),
        r.wf(),
        live(l.secrets, uuid) is Some,
        live(r.secrets, uuid) is Some,
        !deleted_after(deletion(r.tombstones, uuid), live(l.secrets, uuid)->0.updated_at),
    ensures
        live(merged_secrets(l, r), uuid) == (if lex_lt(
            live(l.secrets, uuid)->0.updated_at,
            live(r.secrets, uuid)->0.updated_at,
        ) {
            live(r.secrets, uuid)
        } else {
            live(l.secrets, uuid)
        }),
{
    law_merge_decides_per_record(l, r, uuid);
}

/// A record that one side never had and never deleted is on both sides after the merge.
pub proof fn law_merge_loses_nothing(l: VaultView, r: VaultView, uuid: Seq<char>)
    requires
        l.wf(),
        r.wf(),
        deletion(l.tombstones, uuid) is None,
        deletion(r.tombstones, uuid) is None,
    ensures
        live(merged_secrets(l, r), uuid) is Some <==> live(l.secrets, uuid) is Some || live(
            r.secrets,
            uuid,
        ) is Some,
{
    law_merge_decides_per_record(l, r, uuid);
}

/// Whether every live record of a vault is at least as new as its tombstone.
pub open spec fn settled(v: VaultView) -> bool {
    forall|i: int| 0 <= i < v.secrets.len() ==> !buried(#[trigger] v.secrets[i], v.tombstones)
}

/// Whether taking over the remote tombstones would date back a local deletion to before the
/// remote version of the record.
pub open spec fn dates_back(l: VaultView, r: VaultView) -> bool {
    exists|i: int|
        0 <= i < r.secrets.len() && blocked(#[trigger] r.secrets[i], l.tombstones) && marked(
            r.tombstones,
            r.secrets[i].uuid,
        ) && !blocked(r.secrets[i], r.tombstones)
}

/// Merging the same remote copy a second time changes no record. Left out are a remote record
/// older than its own tombstone, and a local deletion that an older remote tombstone dates back.
pub proof fn law_merge_is_idempotent(
    l: VaultView,
    r: VaultView,
    with_history: bool,
    cap: nat,
)
    requires
        l.wf(),
        r.wf(),
        settled(r),
        !dates_back(l, r),
    ensures
        merged_secrets(merged(l, r, with_history, cap), r) == merged_secrets(l, r),
        added(merged(l, r, with_history, cap), r).len() == 0,
{
    let m = merged(l, r, with_history, cap);
    lemma_merge_keeps_wf(l, r, with_history, cap);
    let p = |s: RecordView| !buried(s, r.tombstones);
    let q = |s: RecordView| !has_uuid(kept(m, r), s.uuid) && !blocked(s, m.tombstones);
    let g = gathered(l, r);
    lemma_filter_members(l.secrets, p);
    // No record of the merge is buried by the remote, and each is up to date.
    assert forall|i: int| 0 <= i < m.secrets.len() implies !buried(
        #[trigger] m.secrets[i],
        r.tombstones,
    ) && refreshed(m.secrets[i], r.secrets) == m.secrets[i] by {
        let s = g[i];
        lemma_refreshed_keeps(s, r.secrets);
        lemma_find_uuid(r.secrets, s.uuid);
        lemma_buried(s, r.tombstones);
        lemma_buried(m.secrets[i], r.tombstones);
        let found = find_uuid(r.secrets, s.uuid);
        if found is Some {
            let y = found->0;
            crate::text::lemma_lex_irreflexive(y.updated_at);
            let k = choose|k: int| 0 <= k < r.secrets.len() && r.secrets[k] == y;
            assert(!buried(r.secrets[k], r.tombstones));
            lemma_buried(y, r.tombstones);
        }
        if i < kept(l, r).len() {
            assert(kept(l, r)[i] == s);
            assert(kept(l, r).contains(s));
            assert(p(s));
        } else {
            let a = added(l, r);
            lemma_filter_members(
                r.secrets,
                |s: RecordView| !has_uuid(kept(l, r), s.uuid) && !blocked(s, l.tombstones),
            );
            assert(a.contains(a[i - kept(l, r).len()]));
            assert(has_uuid(r.secrets, s.uuid)) by {
                let k = choose|k: int|
                    0 <= k < r.secrets.len() && r.secrets[k] == a[i - kept(l, r).len()];
                assert(r.secrets[k].uuid == s.uuid);
            }
            let k = choose|k: int|
                0 <= k < r.secrets.len() && r.secrets[k] == a[i - kept(l, r).len()];
            lemma_find_at(r.secrets, k);
        }
    }
    crate::lists::lemma_filter_all(m.secrets, p);
    assert(kept(m, r) == m.secrets);
    // Every remote record is there, or is still blocked.
    assert forall|i: int| 0 <= i < r.secrets.len() implies !q(#[trigger] r.secrets[i]) by {
        let y = r.secrets[i];
        let u = y.uuid;
        law_merge_decides_per_record(l, r, u);
        law_merge_unites_deletions(l, r, u);
        lemma_find_at(r.secrets, i);
        lemma_find_uuid(m.secrets, u);
        lemma_buried(y, l.tombstones);
        lemma_buried(y, r.tombstones);
        lemma_buried(y, m.tombstones);
        lemma_deletion(r.tombstones, u);
        if !has_uuid(m.secrets, u) {
            assert(live(m.secrets, u) is None);
            assert(live(r.secrets, u) == Some(y.with_id(0)));
            assert(blocked(y, l.tombstones));
        }
    }
    crate::lists::lemma_filter_none(r.secrets, q);
    assert(gathered(m, r) =~= m.secrets);
    assert(merged_secrets(m, r) =~= m.secrets);
}

/// Two devices agree after an exchange. `m` is what is on the remote, `x` another device: once
/// that device has merged `m` and the first one has merged the result, both hold the same
/// version of the record. Left out are a remote record older than its own tombstone, changes
/// and deletions of one record at the very same time on both sides, and a local deletion that
/// an older remote tombstone dates back.
pub proof fn law_devices_converge(x: VaultView, m: VaultView, n: VaultView, uuid: Seq<char>)
    requires
        x.wf(),
        m.wf(),
        n.wf(),
        n.secrets == merged_secrets(x, m),
        n.tombstones == merged_marks(x.tombstones, m.tombstones),
        live(m.secrets, uuid) matches Some(a) ==> !deleted_after(
            deletion(m.tombstones, uuid),
            a.updated_at,
        ),
        live(m.secrets, uuid) matches Some(a) ==> (live(x.secrets, uuid) matches Some(b) ==> (
        a.updated_at == b.updated_at ==> a == b)),
        live(x.secrets, uuid) matches Some(b) ==> (live(m.secrets, uuid) is None ==> deletion(
            m.tombstones,
            uuid,
        ) != Some(b.updated_at)),
        live(m.secrets, uuid) matches Some(a) ==> deletion(x.tombstones, uuid) != Some(
            a.updated_at,
        ),
        live(m.secrets, uuid) matches Some(a) ==> (deletion(m.tombstones, uuid) is Some
            ==> !deleted_after(deletion(x.tombstones, uuid), a.updated_at)),
    ensures
        live(merged_secrets(m, n), uuid) == live(n.secrets, uuid),
{
    law_merge_decides_per_record(x, m, uuid);
    law_merge_unites_deletions(x, m, uuid);
    law_merge_decides_per_record(m, n, uuid);
    let a = live(m.secrets, uuid);
    let b = live(x.secrets, uuid);
    if a is Some && b is Some {
        crate::text::lemma_lex_total(a->0.updated_at, b->0.updated_at);
        crate::text::lemma_lex_irreflexive(a->0.updated_at);
        if lex_lt(b->0.updated_at, a->0.updated_at) && lex_lt(a->0.updated_at, b->0.updated_at) {
            crate::text::lemma_lex_transitive(
                b->0.updated_at,
                a->0.updated_at,
                b->0.updated_at,
            );
            crate::text::lemma_lex_irreflexive(b->0.updated_at);
        }
    }
    if a is Some {
        crate::text::lemma_lex_irreflexive(a->0.updated_at);
    }
    if deletion(m.tombstones, uuid) is Some && b is Some {
        crate::text::lemma_lex_total(b->0.updated_at, deletion(m.tombstones, uuid)->0);
    }
    if deletion(x.tombstones, uuid) is Some && a is Some {
        crate::text::lemma_lex_total(a->0.updated_at, deletion(x.tombstones, uuid)->0);
    }
}

/// The number of entries of a record.
pub open spec fn entries_of(h: Seq<HistoryView>, uuid: Seq<char>) -> nat
    decreases h.len(),
{
    if h.len() == 0 {
        0
    } else {
        entries_of(h.drop_last(), uuid) + (if h.last().uuid == uuid {
            1nat
        } else {
            0nat
        })
    }
}

/// Whether entry `i` is one of the record and is kept under the cap.
spec fn survivor(h: Seq<HistoryView>, cap: nat, uuid: Seq<char>, i: int) -> bool {
    h[i].uuid == uuid && newer_among(h, i, h.len() as int) < cap
}

spec fn survivors(h: Seq<HistoryView>, cap: nat, uuid: Seq<char>, n: int) -> nat
    decreases n,
{
    if n <= 0 {
        0
    } else {
        survivors(h, cap, uuid, n - 1) + (if survivor(h, cap, uuid, n - 1) {
            1nat
        } else {
            0nat
        })
    }
}

proof fn lemma_survivors_counted(h: Seq<HistoryView>, cap: nat, uuid: Seq<char>, n: int)
    requires
        0 <= n <= h.len(),
    ensures
        entries_of(newest_among(h, cap, n), uuid) == survivors(h, cap, uuid, n),
    decreases n,
{
    if n > 0 {
        lemma_survivors_counted(h, cap, uuid, n - 1);
        let before = newest_among(h, cap, n - 1);
        if newer_among(h, n - 1, h.len() as int) < cap {
            assert(before.push(h[n - 1]).drop_last() =~= before);
        }
    }
}

proof fn lemma_newer_total(h: Seq<HistoryView>, i: int, j: int, k: int)
    ensures
        i != j && h[i].uuid == h[j].uuid ==> newer(h, i, j) || newer(h, j, i),
        newer(h, i, j) && newer(h, j, k) ==> newer(h, i, k),
        !newer(h, i, i),
{
    crate::text::lemma_lex_total(h[i].replaced_at, h[j].replaced_at);
    crate::text::lemma_lex_irreflexive(h[i].replaced_at);
    if lex_lt(h[i].replaced_at, h[j].replaced_at) && lex_lt(h[j].replaced_at, h[k].replaced_at) {
        crate::text::lemma_lex_transitive(
            h[i].replaced_at,
            h[j].replaced_at,
            h[k].replaced_at,
        );
    }
}

/// Among the survivors there is one that all others are newer than.
proof fn lemma_oldest_survivor(h: Seq<HistoryView>, cap: nat, uuid: Seq<char>, n: int) -> (m: int)
    requires
        0 <= n <= h.len(),
        survivors(h, cap, uuid, n) > 0,
    ensures
        0 <= m < n,
        survivor(h, cap, uuid, m),
        forall|j: int|
            0 <= j < n && j != m && #[trigger] survivor(h, cap, uuid, j) ==> newer(h, m, j),
    decreases n,
{
    if survivors(h, cap, uuid, n - 1) == 0 {
        assert forall|j: int| 0 <= j < n && j != n - 1 && #[trigger] survivor(h, cap, uuid, j) implies newer(
            h,
            n - 1,
            j,
        ) by {
            lemma_no_survivors(h, cap, uuid, n - 1, j);
        }
        n - 1
    } else {
        let m = lemma_oldest_survivor(h, cap, uuid, n - 1);
        if survivor(h, cap, uuid, n - 1) && !newer(h, m, n - 1) {
            assert forall|j: int|
                0 <= j < n && j != n - 1 && #[trigger] survivor(h, cap, uuid, j) implies newer(
                h,
                n - 1,
                j,
            ) by {
                lemma_newer_total(h, m, n - 1, j);
                lemma_newer_total(h, n - 1, m, j);
            }
            n - 1
        } else {
            m
        }
    }
}

proof fn lemma_no_survivors(h: Seq<HistoryView>, cap: nat, uuid: Seq<char>, n: int, j: int)
    requires
        0 <= j < n,
        survivors(h, cap, uuid, n) == 0,
    ensures
        !survivor(h, cap, uuid, j),
    decreases n,
{
    if j < n - 1 {
        lemma_no_survivors(h, cap, uuid, n - 1, j);
    }
}

proof fn lemma_newer_counts(h: Seq<HistoryView>, cap: nat, uuid: Seq<char>, m: int, n: int)
    requires
        0 <= n <= h.len(),
        forall|j: int|
            0 <= j < n && j != m && #[trigger] survivor(h, cap, uuid, j) ==> newer(h, m, j),
    ensures
        newer_among(h, m, n) + (if 0 <= m < n && survivor(h, cap, uuid, m) {
            1nat
        } else {
            0nat
        }) >= survivors(h, cap, uuid, n),
    decreases n,
{
    if n > 0 {
        lemma_newer_counts(h, cap, uuid, m, n - 1);
        if survivor(h, cap, uuid, n - 1) && n - 1 != m {
            assert(newer(h, m, n - 1));
        }
    }
}

/// Whatever two devices contribute, a record keeps at most `cap` replaced passwords.
pub proof fn law_history_is_capped(h: Seq<HistoryView>, cap: nat, uuid: Seq<char>)
    ensures
        entries_of(capped(h, cap), uuid) <= cap,
{
    let n = h.len() as int;
    lemma_survivors_counted(h, cap, uuid, n);
    if survivors(h, cap, uuid, n) > 0 {
        let m = lemma_oldest_survivor(h, cap, uuid, n);
        lemma_newer_counts(h, cap, uuid, m, n);
    }
}

/// A history in which no record has more than `cap` newer entries after any other is not cut.
pub proof fn law_short_history_is_kept(h: Seq<HistoryView>, cap: nat)
    requires
        forall|i: int| 0 <= i < h.len() ==> #[trigger] newer_among(h, i, h.len() as int) < cap,
    ensures
        capped(h, cap) == h,
{
    lemma_all_kept(h, cap, h.len() as int);
    assert(h.take(h.len() as int) =~= h);
}

proof fn lemma_all_kept(h: Seq<HistoryView>, cap: nat, n: int)
    requires
        0 <= n <= h.len(),
        forall|i: int| 0 <= i < h.len() ==> #[trigger] newer_among(h, i, h.len() as int) < cap,
    ensures
        newest_among(h, cap, n) == h.take(n),
    decreases n,
{
    if n > 0 {
        lemma_all_kept(h, cap, n - 1);
        assert(newer_among(h, n - 1, h.len() as int) < cap);
        assert(h.take(n) =~= h.take(n - 1).push(h[n - 1]));
    } else {
        assert(h.take(0) =~= Seq::empty());
    }
}

} // verus!
