//! Merging two copies of a vault, record by record.
use vstd::prelude::*;

use crate::conflicts::{identified, merge_remote, RemoteCopy};
use crate::db::records::{
    has_uuid, lemma_find_distinct, lemma_find_uuid, past, records, HistoryEntry, HistoryView,
    RecordView, SecretRecord, TombstoneView, Vault, VaultView,
};
use crate::db::store::update_secret;
use crate::legacy_merge::{
    added_by_name, christened, find_name, has_name, kept_by_name, lemma_find_name, merge_by_name,
    merge_by_name_fresh, name_blocked, name_buried, named_secrets, outdated, refreshed_by_name,
};
use crate::lists::lemma_filter_members;
use crate::merge::{
    cap_history, capped, deletion, law_merge_decides_per_record, lemma_deletion, live, marked,
    merge_vaults, merged_secrets, newer, newer_among, newest_among, own_marks, taken_marks,
    unite_history,
};
use crate::promises::records::reads;
use crate::text::{lemma_lex_irreflexive, lemma_lex_transitive, lex_lt, texts};

verus! {

/// Whether a vault has a record with all that another holds, under whatever id.
pub open spec fn has_version(v: VaultView, s: RecordView) -> bool {
    exists|k: int| 0 <= k < v.secrets.len() && (RecordView { id: s.id, ..#[trigger] v.secrets[k] }) == s
}

/// Whether a vault has no record with an identity.
pub open spec fn lacks(v: VaultView, uuid: Seq<char>) -> bool {
    forall|k: int| 0 <= k < v.secrets.len() ==> (#[trigger] v.secrets[k]).uuid != uuid
}

/// Whether a vault knows of no deletion of an identity.
pub open spec fn undeleted(v: VaultView, uuid: Seq<char>) -> bool {
    forall|k: int| 0 <= k < v.tombstones.len() ==> (#[trigger] v.tombstones[k]).uuid != Some(uuid)
}

/// Whether a merge of a copy into a vault succeeded.
pub open spec fn merged_into(
    local: &mut Vault,
    remote: &RemoteCopy,
    version: &str,
    with_history: bool,
    cap: usize,
) -> bool {
    ||| call_ensures(merge_vaults, (local, &remote.vault, with_history, cap), Ok(()))
    ||| call_ensures(merge_remote, (local, remote, version, cap), Ok(()))
}

proof fn lemma_live(s: Seq<RecordView>, uuid: Seq<char>)
    requires
        crate::db::records::uuids_distinct(s),
    ensures
        forall|i: int|
            0 <= i < s.len() && (#[trigger] s[i]).uuid == uuid ==> live(s, uuid) == Some(
                s[i].with_id(0),
            ),
        live(s, uuid) matches Some(x) ==> exists|i: int|
            0 <= i < s.len() && (#[trigger] s[i]).uuid == uuid && s[i].with_id(0) == x,
        live(s, uuid) is None ==> forall|i: int|
            0 <= i < s.len() ==> (#[trigger] s[i]).uuid != uuid,
{
    lemma_find_uuid(s, uuid);
    assert forall|i: int| 0 <= i < s.len() && (#[trigger] s[i]).uuid == uuid implies live(s, uuid)
        == Some(s[i].with_id(0)) by {
        lemma_find_distinct(s, i);
    }
    if live(s, uuid) is Some {
        let x = crate::db::records::find_uuid(s, uuid)->0;
        let i = choose|i: int| 0 <= i < s.len() && s[i] == x;
        assert(s[i].uuid == uuid);
    } else {
        assert forall|i: int| 0 <= i < s.len() implies (#[trigger] s[i]).uuid != uuid by {
            if s[i].uuid == uuid {
                assert(has_uuid(s, uuid));
            }
        }
    }
}

proof fn lemma_undeleted(v: VaultView, uuid: Seq<char>)
    requires
        v.wf(),
    ensures
        undeleted(v, uuid) <==> deletion(v.tombstones, uuid) is None,
{
    lemma_deletion(v.tombstones, uuid);
    if !undeleted(v, uuid) {
        let k = choose|k: int|
            0 <= k < v.tombstones.len() && (#[trigger] v.tombstones[k]).uuid == Some(uuid);
        assert(marked(v.tombstones, uuid));
    }
    if marked(v.tombstones, uuid) {
        let k = choose|k: int|
            0 <= k < v.tombstones.len() && (#[trigger] v.tombstones[k]).uuid == Some(uuid);
        assert(!undeleted(v, uuid));
    }
}

proof fn lemma_outcome(new: VaultView, l: VaultView, r: VaultView, uuid: Seq<char>)
    requires
        l.wf(),
        r.wf(),
        new.wf(),
        new.secrets == merged_secrets(l, r),
    ensures
        live(new.secrets, uuid) == crate::merge::verdict(
            live(l.secrets, uuid),
            deletion(l.tombstones, uuid),
            live(r.secrets, uuid),
            deletion(r.tombstones, uuid),
        ),
{
    law_merge_decides_per_record(l, r, uuid);
}

proof fn lemma_has_version(v: VaultView, s: RecordView)
    requires
        v.wf(),
    ensures
        live(v.secrets, s.uuid) == Some(s.with_id(0)) ==> has_version(v, s),
{
    lemma_live(v.secrets, s.uuid);
    if live(v.secrets, s.uuid) == Some(s.with_id(0)) {
        let i = choose|i: int|
            0 <= i < v.secrets.len() && (#[trigger] v.secrets[i]).uuid == s.uuid
                && v.secrets[i].with_id(0) == s.with_id(0);
        assert(v.secrets[i].with_id(0) == s.with_id(0));
        let m = v.secrets[i];
        assert(m.with_id(0).title == s.with_id(0).title);
        assert(m.with_id(0).category == s.with_id(0).category);
        assert(m.with_id(0).username == s.with_id(0).username);
        assert(m.with_id(0).url == s.with_id(0).url);
        assert(m.with_id(0).password == s.with_id(0).password);
        assert(m.with_id(0).notes == s.with_id(0).notes);
        assert(m.with_id(0).updated_at == s.with_id(0).updated_at);
        assert((RecordView { id: s.id, ..v.secrets[i] }) == s);
    }
}

proof fn lemma_number_stays(l: VaultView, r: VaultView, a: int)
    requires
        l.wf(),
        r.wf(),
        0 <= a < l.secrets.len(),
        undeleted(r, l.secrets[a].uuid),
    ensures
        exists|k: int|
            0 <= k < merged_secrets(l, r).len() && (#[trigger] merged_secrets(l, r)[k]).uuid
                == l.secrets[a].uuid && merged_secrets(l, r)[k].id == l.secrets[a].id,
{
    let s = l.secrets[a];
    let p = |s: RecordView| !crate::merge::buried(s, r.tombstones);
    lemma_filter_members(l.secrets, p);
    assert(!crate::merge::buried(s, r.tombstones)) by {
        if crate::merge::buried(s, r.tombstones) {
            let t = choose|t: int|
                0 <= t < r.tombstones.len() && (#[trigger] r.tombstones[t]).uuid == Some(s.uuid)
                    && lex_lt(s.updated_at, r.tombstones[t].deleted_at);
            assert(r.tombstones[t].uuid == Some(s.uuid));
        }
    }
    assert(l.secrets.contains(s));
    let kept = crate::merge::kept(l, r);
    assert(kept.contains(s));
    let i = choose|i: int| 0 <= i < kept.len() && kept[i] == s;
    let g = crate::merge::gathered(l, r);
    assert(g[i] == s);
    assert(merged_secrets(l, r)[i] == crate::merge::refreshed(s, r.secrets));
    lemma_find_uuid(r.secrets, s.uuid);
}

/// Of a record that both copies have and neither has deleted, a merge keeps the version that was
/// changed later, whole, and the local one where both were changed at once.
pub proof fn law_merge_keeps_the_later_version(
    local: &mut Vault,
    remote: &RemoteCopy,
    version: &str,
    with_history: bool,
    cap: usize,
    a: int,
    b: int,
)
    requires
        old(local)@.wf(),
        remote.vault@.wf(),
        remote.has_sync_uuid,
        merged_into(local, remote, version, with_history, cap),
        0 <= a < old(local)@.secrets.len(),
        0 <= b < remote.vault@.secrets.len(),
        old(local)@.secrets[a].uuid == remote.vault@.secrets[b].uuid,
        undeleted(remote.vault@, remote.vault@.secrets[b].uuid),
    ensures
        lex_lt(old(local)@.secrets[a].updated_at, remote.vault@.secrets[b].updated_at)
            ==> has_version(final(local)@, remote.vault@.secrets[b]),
        !lex_lt(old(local)@.secrets[a].updated_at, remote.vault@.secrets[b].updated_at)
            ==> has_version(final(local)@, old(local)@.secrets[a]),
        exists|k: int|
            0 <= k < final(local)@.secrets.len() && (#[trigger] final(local)@.secrets[k]).uuid
                == old(local)@.secrets[a].uuid && final(local)@.secrets[k].id
                == old(local)@.secrets[a].id,
{
    let l = old(local)@;
    let r = remote.vault@;
    let uuid = l.secrets[a].uuid;
    lemma_number_stays(l, r, a);
    assert(final(local)@.secrets == merged_secrets(l, r));
    lemma_outcome(final(local)@, l, r, uuid);
    lemma_live(l.secrets, uuid);
    lemma_live(r.secrets, uuid);
    lemma_undeleted(r, uuid);
    lemma_has_version(final(local)@, r.secrets[b]);
    lemma_has_version(final(local)@, l.secrets[a]);
}

/// A record that both copies have, and that the other one has also marked as deleted: a deletion
/// since its last change here leaves the version there, unless that was itself deleted here; any
/// other deletion does not matter, and the later version stays.
pub proof fn law_merge_weighs_deletions_against_changes(
    local: &mut Vault,
    remote: &RemoteCopy,
    version: &str,
    with_history: bool,
    cap: usize,
    a: int,
    b: int,
    t: int,
)
    requires
        old(local)@.wf(),
        remote.vault@.wf(),
        remote.has_sync_uuid,
        merged_into(local, remote, version, with_history, cap),
        0 <= a < old(local)@.secrets.len(),
        0 <= b < remote.vault@.secrets.len(),
        0 <= t < remote.vault@.tombstones.len(),
        old(local)@.secrets[a].uuid == remote.vault@.secrets[b].uuid,
        remote.vault@.tombstones[t].uuid == Some(remote.vault@.secrets[b].uuid),
    ensures
        !lex_lt(old(local)@.secrets[a].updated_at, remote.vault@.tombstones[t].deleted_at) && lex_lt(
            old(local)@.secrets[a].updated_at,
            remote.vault@.secrets[b].updated_at,
        ) ==> has_version(final(local)@, remote.vault@.secrets[b]),
        !lex_lt(old(local)@.secrets[a].updated_at, remote.vault@.tombstones[t].deleted_at) && !lex_lt(
            old(local)@.secrets[a].updated_at,
            remote.vault@.secrets[b].updated_at,
        ) ==> has_version(final(local)@, old(local)@.secrets[a]),
        lex_lt(old(local)@.secrets[a].updated_at, remote.vault@.tombstones[t].deleted_at) && undeleted(
            old(local)@,
            old(local)@.secrets[a].uuid,
        ) ==> has_version(final(local)@, remote.vault@.secrets[b]),
        forall|k: int|
            0 <= k < old(local)@.tombstones.len() && (#[trigger] old(local)@.tombstones[k]).uuid == Some(
                old(local)@.secrets[a].uuid,
            ) && lex_lt(old(local)@.secrets[a].updated_at, remote.vault@.tombstones[t].deleted_at) ==> (
            if lex_lt(old(local)@.tombstones[k].deleted_at, remote.vault@.secrets[b].updated_at) {
                has_version(final(local)@, remote.vault@.secrets[b])
            } else {
                lacks(final(local)@, old(local)@.secrets[a].uuid)
            }),
{
    let l = old(local)@;
    let r = remote.vault@;
    let n = final(local)@;
    let uuid = l.secrets[a].uuid;
    lemma_outcome(n, l, r, uuid);
    lemma_live(l.secrets, uuid);
    lemma_live(r.secrets, uuid);
    lemma_live(n.secrets, uuid);
    lemma_deletion(r.tombstones, uuid);
    lemma_deletion(l.tombstones, uuid);
    lemma_undeleted(l, uuid);
    lemma_has_version(n, r.secrets[b]);
    lemma_has_version(n, l.secrets[a]);
}

/// A record that only the remote copy has, and that was never deleted here, comes in whole. One
/// that only this vault has, and that was never deleted there, stays as it is.
pub proof fn law_merge_unites_the_records(
    local: &mut Vault,
    remote: &RemoteCopy,
    version: &str,
    with_history: bool,
    cap: usize,
)
    requires
        old(local)@.wf(),
        remote.vault@.wf(),
        remote.has_sync_uuid,
        merged_into(local, remote, version, with_history, cap),
    ensures
        forall|b: int|
            0 <= b < remote.vault@.secrets.len() && lacks(
                old(local)@,
                (#[trigger] remote.vault@.secrets[b]).uuid,
            ) && undeleted(old(local)@, remote.vault@.secrets[b].uuid) ==> has_version(
                final(local)@,
                remote.vault@.secrets[b],
            ),
        forall|a: int|
            0 <= a < old(local)@.secrets.len() && lacks(
                remote.vault@,
                (#[trigger] old(local)@.secrets[a]).uuid,
            ) && undeleted(remote.vault@, old(local)@.secrets[a].uuid) ==> has_version(
                final(local)@,
                old(local)@.secrets[a],
            ),
        forall|k: int|
            0 <= k < final(local)@.secrets.len() ==> has_version(
                old(local)@,
                #[trigger] final(local)@.secrets[k],
            ) || has_version(remote.vault@, final(local)@.secrets[k]),
{
    let l = old(local)@;
    let r = remote.vault@;
    let n = final(local)@;
    assert forall|b: int|
        0 <= b < r.secrets.len() && lacks(l, (#[trigger] r.secrets[b]).uuid) && undeleted(
            l,
            r.secrets[b].uuid,
        ) implies has_version(n, r.secrets[b]) by {
        let uuid = r.secrets[b].uuid;
        lemma_outcome(n, l, r, uuid);
        lemma_live(l.secrets, uuid);
        lemma_live(r.secrets, uuid);
        lemma_undeleted(l, uuid);
        lemma_has_version(n, r.secrets[b]);
    }
    assert forall|a: int|
        0 <= a < l.secrets.len() && lacks(r, (#[trigger] l.secrets[a]).uuid) && undeleted(
            r,
            l.secrets[a].uuid,
        ) implies has_version(n, l.secrets[a]) by {
        let uuid = l.secrets[a].uuid;
        lemma_outcome(n, l, r, uuid);
        lemma_live(l.secrets, uuid);
        lemma_live(r.secrets, uuid);
        lemma_undeleted(r, uuid);
        lemma_has_version(n, l.secrets[a]);
    }
    assert forall|k: int| 0 <= k < n.secrets.len() implies has_version(l, #[trigger] n.secrets[k])
        || has_version(r, n.secrets[k]) by {
        let s = n.secrets[k];
        lemma_outcome(n, l, r, s.uuid);
        lemma_live(n.secrets, s.uuid);
        assert(live(n.secrets, s.uuid) == Some(s.with_id(0)));
        lemma_has_version(l, s);
        lemma_has_version(r, s);
    }
}

/// A deletion spreads: a record that the other copy has deleted since it was last changed here,
/// and does not have, is gone after a merge; a record that was deleted here, at its last change
/// there or later, does not come back. A record that was changed after it was deleted elsewhere
/// stays.
pub proof fn law_deletions_spread(
    local: &mut Vault,
    remote: &RemoteCopy,
    version: &str,
    with_history: bool,
    cap: usize,
    t: int,
    i: int,
)
    requires
        old(local)@.wf(),
        remote.vault@.wf(),
        remote.has_sync_uuid,
        merged_into(local, remote, version, with_history, cap),
    ensures
        0 <= t < remote.vault@.tombstones.len() && 0 <= i < old(local)@.secrets.len()
            && remote.vault@.tombstones[t].uuid == Some(old(local)@.secrets[i].uuid) && lacks(
            remote.vault@,
            old(local)@.secrets[i].uuid,
        ) && lex_lt(old(local)@.secrets[i].updated_at, remote.vault@.tombstones[t].deleted_at)
            ==> lacks(final(local)@, old(local)@.secrets[i].uuid),
        0 <= t < remote.vault@.tombstones.len() && 0 <= i < old(local)@.secrets.len()
            && remote.vault@.tombstones[t].uuid == Some(old(local)@.secrets[i].uuid) && lacks(
            remote.vault@,
            old(local)@.secrets[i].uuid,
        ) && !lex_lt(old(local)@.secrets[i].updated_at, remote.vault@.tombstones[t].deleted_at)
            ==> has_version(final(local)@, old(local)@.secrets[i]),
        0 <= t < old(local)@.tombstones.len() && 0 <= i < remote.vault@.secrets.len()
            && old(local)@.tombstones[t].uuid == Some(remote.vault@.secrets[i].uuid) && lacks(
            old(local)@,
            remote.vault@.secrets[i].uuid,
        ) && !lex_lt(old(local)@.tombstones[t].deleted_at, remote.vault@.secrets[i].updated_at)
            ==> lacks(final(local)@, remote.vault@.secrets[i].uuid),
        0 <= t < old(local)@.tombstones.len() && 0 <= i < remote.vault@.secrets.len()
            && old(local)@.tombstones[t].uuid == Some(remote.vault@.secrets[i].uuid) && lacks(
            old(local)@,
            remote.vault@.secrets[i].uuid,
        ) && lex_lt(old(local)@.tombstones[t].deleted_at, remote.vault@.secrets[i].updated_at)
            ==> has_version(final(local)@, remote.vault@.secrets[i]),
{
    let l = old(local)@;
    let r = remote.vault@;
    let n = final(local)@;
    if 0 <= i < l.secrets.len() {
        let uuid = l.secrets[i].uuid;
        lemma_outcome(n, l, r, uuid);
        lemma_live(l.secrets, uuid);
        lemma_live(r.secrets, uuid);
        lemma_live(n.secrets, uuid);
        lemma_deletion(r.tombstones, uuid);
        lemma_has_version(n, l.secrets[i]);
    }
    if 0 <= i < r.secrets.len() {
        let uuid = r.secrets[i].uuid;
        lemma_outcome(n, l, r, uuid);
        lemma_live(l.secrets, uuid);
        lemma_live(r.secrets, uuid);
        lemma_live(n.secrets, uuid);
        lemma_deletion(l.tombstones, uuid);
        lemma_has_version(n, r.secrets[i]);
    }
}

/// Whether a vault knows, under no identity, of a deletion of the same name.
pub open spec fn known_nameless(v: VaultView, t: TombstoneView) -> bool {
    exists|k: int|
        0 <= k < v.tombstones.len() && (#[trigger] v.tombstones[k]).uuid is None && v.tombstones[k].title
            == t.title && v.tombstones[k].category == t.category && v.tombstones[k].username
            == t.username
}

/// Every deletion that the other copy knows of is known after a merge, and every one of this
/// vault that the other does not know of otherwise; token, floor and cached counts stay.
pub proof fn law_merge_unites_the_tombstones(
    local: &mut Vault,
    remote: &RemoteCopy,
    version: &str,
    with_history: bool,
    cap: usize,
    t: TombstoneView,
)
    requires
        remote.has_sync_uuid,
        merged_into(local, remote, version, with_history, cap),
    ensures
        remote.vault@.tombstones.contains(t) && t.uuid is Some ==> final(local)@.tombstones.contains(t),
        old(local)@.tombstones.contains(t) && (t.uuid is None || undeleted(remote.vault@, t.uuid->0))
            ==> final(local)@.tombstones.contains(t),
        remote.vault@.tombstones.contains(t) && !known_nameless(old(local)@, t)
            ==> final(local)@.tombstones.contains(t),
        final(local)@.tombstones.contains(t) ==> old(local)@.tombstones.contains(t)
            || remote.vault@.tombstones.contains(t),
        final(local)@.token == old(local)@.token,
        final(local)@.floor == old(local)@.floor,
        final(local)@.hibp == old(local)@.hibp,
{
    let l = old(local)@.tombstones;
    let r = remote.vault@.tombstones;
    let a = own_marks(l, r);
    let b = taken_marks(l, r);
    assert(final(local)@.tombstones == a + b);
    lemma_filter_members(l, |t: TombstoneView| t.uuid is None || !marked(r, t.uuid->0));
    lemma_filter_members(r, |t: TombstoneView| t.uuid is Some || !crate::merge::anonymous(l, t));
    if a.contains(t) {
        let k = choose|k: int| 0 <= k < a.len() && a[k] == t;
        assert((a + b)[k] == t);
    }
    if r.contains(t) && !known_nameless(old(local)@, t) {
        assert(!crate::merge::anonymous(l, t)) by {
            if crate::merge::anonymous(l, t) {
                let q = choose|q: int|
                    0 <= q < l.len() && (#[trigger] l[q]).uuid is None && l[q].title == t.title
                        && l[q].category == t.category && l[q].username == t.username;
                assert(l[q].uuid is None);
            }
        }
        assert(b.contains(t));
    }
    if b.contains(t) {
        let k = choose|k: int| 0 <= k < b.len() && b[k] == t;
        assert((a + b)[a.len() + k] == t);
    }
    if (a + b).contains(t) {
        let k = choose|k: int| 0 <= k < (a + b).len() && (a + b)[k] == t;
        if k < a.len() {
            assert(a[k] == t);
        } else {
            assert(b[k - a.len()] == t);
        }
    }
}

/// A copy that needs a newer program is not merged: the vault is left alone.
pub proof fn law_newer_copies_are_refused(
    local: &mut Vault,
    remote: &RemoteCopy,
    version: &str,
    cap: usize,
    r: Result<(), String>,
    floor: String,
)
    requires
        call_ensures(merge_remote, (local, remote, version, cap), r),
        remote.vault.min_app_version == Some(floor),
        !crate::db::version::satisfies(version@, floor@),
    ensures
        r is Err,
        *final(local) == *old(local),
{
}

/// Whether a merge by name of a copy into a vault succeeded.
pub open spec fn merged_by_name_into(
    local: &mut Vault,
    copy: &RemoteCopy,
    version: &str,
    fresh: &Vec<String>,
    with_history: bool,
    cap: usize,
) -> bool {
    ||| call_ensures(merge_by_name, (local, &copy.vault, fresh, with_history, cap), Ok(()))
    ||| call_ensures(merge_by_name_fresh, (local, &copy.vault, with_history, cap), Ok(()))
    ||| !copy.has_sync_uuid && call_ensures(merge_remote, (local, copy, version, cap), Ok(()))
}

/// Whether a vault is a merge by name of another and a copy, under the given identities.
pub open spec fn is_merge_by_name(n: VaultView, l: VaultView, r: VaultView, ids: Seq<Seq<char>>) -> bool {
    n.secrets == named_secrets(l, r, ids) && n.tombstones == crate::legacy_merge::named_marks(
        l.tombstones,
        r.tombstones,
    )
}

proof fn lemma_by_name(
    local: &mut Vault,
    copy: &RemoteCopy,
    version: &str,
    fresh: &Vec<String>,
    with_history: bool,
    cap: usize,
)
    requires
        merged_by_name_into(local, copy, version, fresh, with_history, cap),
    ensures
        exists|ids: Seq<Seq<char>>| #[trigger]
            is_merge_by_name(final(local)@, old(local)@, copy.vault@, ids),
{
    if call_ensures(merge_by_name, (local, &copy.vault, fresh, with_history, cap), Ok(())) {
        assert(is_merge_by_name(final(local)@, old(local)@, copy.vault@, texts(fresh@)));
    } else if call_ensures(merge_by_name_fresh, (local, &copy.vault, with_history, cap), Ok(())) {
        let ids = choose|ids: Seq<Seq<char>>| #[trigger]
            crate::legacy_merge::merges_by_name(
                true,
                final(local)@,
                old(local)@,
                copy.vault@,
                ids,
                with_history,
                cap as nat,
            );
        assert(is_merge_by_name(final(local)@, old(local)@, copy.vault@, ids));
    } else {
        let ids = choose|ids: Seq<Seq<char>>| #[trigger]
            crate::legacy_merge::merges_by_name(
                true,
                final(local)@,
                old(local)@,
                copy.vault@,
                ids,
                copy.has_history,
                cap as nat,
            );
        assert(is_merge_by_name(final(local)@, old(local)@, copy.vault@, ids));
    }
}

/// A deletion spreads in a merge by name too: a record that the other copy deleted under its name
/// since it was last changed here, and has not under that name, is gone; one that was deleted
/// here, at its last change there or later, does not come in; and every deletion here stays known.
pub proof fn law_deletions_spread_by_name(
    local: &mut Vault,
    copy: &RemoteCopy,
    version: &str,
    fresh: &Vec<String>,
    with_history: bool,
    cap: usize,
    s: RecordView,
    t: TombstoneView,
)
    requires
        merged_by_name_into(local, copy, version, fresh, with_history, cap),
        names_record(t, s),
    ensures
        copy.vault@.tombstones.contains(t) && old(local)@.secrets.contains(s) && lex_lt(
            s.updated_at,
            t.deleted_at,
        ) && (forall|j: int|
            0 <= j < copy.vault@.secrets.len() ==> !same_name(s, #[trigger] copy.vault@.secrets[j]))
            ==> !final(local)@.secrets.contains(s),
        old(local)@.tombstones.contains(t) && copy.vault@.secrets.contains(s) && !lex_lt(
            t.deleted_at,
            s.updated_at,
        ) && (forall|j: int|
            0 <= j < old(local)@.secrets.len() ==> !same_name(s, #[trigger] old(local)@.secrets[j])) && (
        forall|j: int|
            0 <= j < copy.vault@.secrets.len() && same_name(s, #[trigger] copy.vault@.secrets[j])
                ==> copy.vault@.secrets[j] == s) ==> forall|k: int|
            0 <= k < final(local)@.secrets.len() ==> !same_name(s, #[trigger] final(local)@.secrets[k]),
        old(local)@.tombstones.contains(t) ==> final(local)@.tombstones.contains(t),
        copy.vault@.tombstones.contains(t) && !known_nameless(old(local)@, t)
            ==> final(local)@.tombstones.contains(TombstoneView { uuid: None, ..t }),
        old(local)@.secrets.contains(s) && (forall|k: int|
            0 <= k < copy.vault@.tombstones.len() && names_record(#[trigger] copy.vault@.tombstones[k], s)
                ==> !lex_lt(s.updated_at, copy.vault@.tombstones[k].deleted_at)) ==> exists|k: int|
            0 <= k < final(local)@.secrets.len() && same_name(#[trigger] final(local)@.secrets[k], s)
                && final(local)@.secrets[k].uuid == s.uuid && final(local)@.secrets[k].id == s.id,
{
    lemma_by_name(local, copy, version, fresh, with_history, cap);
    let ids = choose|ids: Seq<Seq<char>>| #[trigger]
        is_merge_by_name(final(local)@, old(local)@, copy.vault@, ids);
    let l = old(local)@;
    let r = copy.vault@;
    let n = final(local)@;
    let kept = kept_by_name(l, r);
    let add = added_by_name(l, r);
    let c = christened(add, l.next_id, ids);
    let g = kept + c;
    lemma_filter_members(l.secrets, |s: RecordView| !name_buried(s, r.tombstones));
    lemma_filter_members(
        r.secrets,
        |s: RecordView| !has_name(kept, s) && !name_blocked(s, l.tombstones),
    );
    assert forall|k: int| 0 <= k < n.secrets.len() implies same_name(#[trigger] n.secrets[k], g[k])
        && n.secrets[k].uuid == g[k].uuid && n.secrets[k].id == g[k].id by {
        assert(n.secrets[k] == refreshed_by_name(g[k], r.secrets));
    }
    if r.tombstones.contains(t) && l.secrets.contains(s) && lex_lt(s.updated_at, t.deleted_at) && (
    forall|j: int| 0 <= j < r.secrets.len() ==> !same_name(s, #[trigger] r.secrets[j])) {
        let q = choose|q: int| 0 <= q < r.tombstones.len() && r.tombstones[q] == t;
        assert(crate::legacy_merge::names(r.tombstones[q], s));
        assert(name_buried(s, r.tombstones));
        if n.secrets.contains(s) {
            let k = choose|k: int| 0 <= k < n.secrets.len() && n.secrets[k] == s;
            assert(same_name(n.secrets[k], g[k]));
            if k < kept.len() {
                assert(g[k] == kept[k]);
                assert(kept.contains(kept[k]));
                assert(n.secrets[k] == refreshed_by_name(g[k], r.secrets));
                lemma_find_name(r.secrets, g[k]);
                if has_name(r.secrets, g[k]) {
                    let j = choose|j: int| 0 <= j < r.secrets.len() && g[k].same_triple(#[trigger] r.secrets[j]);
                    assert(same_name(s, r.secrets[j]));
                }
                assert(n.secrets[k] == kept[k]);
            } else {
                let x = add[k - kept.len()];
                assert(g[k] == c[k - kept.len()]);
                assert(add.contains(x));
                let j = choose|j: int| 0 <= j < r.secrets.len() && r.secrets[j] == x;
                assert(same_name(s, r.secrets[j]));
            }
        }
    }
    if l.tombstones.contains(t) && r.secrets.contains(s) && !lex_lt(t.deleted_at, s.updated_at) && (
    forall|j: int| 0 <= j < l.secrets.len() ==> !same_name(s, #[trigger] l.secrets[j])) && (forall|j: int|
        0 <= j < r.secrets.len() && same_name(s, #[trigger] r.secrets[j]) ==> r.secrets[j] == s) {
        let q = choose|q: int| 0 <= q < l.tombstones.len() && l.tombstones[q] == t;
        assert(crate::legacy_merge::names(l.tombstones[q], s));
        assert(name_blocked(s, l.tombstones));
        assert forall|k: int| 0 <= k < n.secrets.len() implies !same_name(s, #[trigger] n.secrets[k]) by {
            assert(same_name(n.secrets[k], g[k]));
            if same_name(s, n.secrets[k]) {
                if k < kept.len() {
                    assert(g[k] == kept[k]);
                    assert(kept.contains(kept[k]));
                    let j = choose|j: int| 0 <= j < l.secrets.len() && l.secrets[j] == kept[k];
                    assert(same_name(s, l.secrets[j]));
                } else {
                    let x = add[k - kept.len()];
                    assert(g[k] == c[k - kept.len()]);
                    assert(add.contains(x));
                    let j = choose|j: int| 0 <= j < r.secrets.len() && r.secrets[j] == x;
                    assert(same_name(s, r.secrets[j]));
                    assert(x == s);
                }
            }
        }
    }
    if l.tombstones.contains(t) {
        let q = choose|q: int| 0 <= q < l.tombstones.len() && l.tombstones[q] == t;
        assert(n.tombstones[q] == t);
    }
    if r.tombstones.contains(t) && !known_nameless(l, t) {
        let p = |t: TombstoneView| !crate::merge::anonymous(l.tombstones, t);
        let taken = r.tombstones.filter(p);
        lemma_filter_members(r.tombstones, p);
        assert(!crate::merge::anonymous(l.tombstones, t)) by {
            if crate::merge::anonymous(l.tombstones, t) {
                let q = choose|q: int|
                    0 <= q < l.tombstones.len() && (#[trigger] l.tombstones[q]).uuid is None
                        && l.tombstones[q].title == t.title && l.tombstones[q].category == t.category
                        && l.tombstones[q].username == t.username;
                assert(l.tombstones[q].uuid is None);
            }
        }
        assert(taken.contains(t));
        let q = choose|q: int| 0 <= q < taken.len() && taken[q] == t;
        assert(n.tombstones[l.tombstones.len() + q] == (TombstoneView { uuid: None, ..t }));
    }
    if l.secrets.contains(s) && (forall|k: int|
        0 <= k < r.tombstones.len() && names_record(#[trigger] r.tombstones[k], s) ==> !lex_lt(
            s.updated_at,
            r.tombstones[k].deleted_at,
        )) {
        assert(!name_buried(s, r.tombstones)) by {
            if name_buried(s, r.tombstones) {
                let q = choose|q: int|
                    0 <= q < r.tombstones.len() && crate::legacy_merge::names(
                        #[trigger] r.tombstones[q],
                        s,
                    ) && lex_lt(s.updated_at, r.tombstones[q].deleted_at);
                assert(names_record(r.tombstones[q], s));
            }
        }
        assert(kept.contains(s));
        let i = choose|i: int| 0 <= i < kept.len() && kept[i] == s;
        assert(g[i] == s);
        assert(n.secrets[i] == refreshed_by_name(g[i], r.secrets));
        assert(same_name(n.secrets[i], g[i]));
    }
}

/// Past passwords of both copies are united: those here stay, and those there of records that are
/// here come in unless they are known already.
pub proof fn law_histories_are_united(
    local: &[HistoryEntry],
    remote: &[HistoryEntry],
    secrets: &[SecretRecord],
    out: Vec<HistoryEntry>,
    e: HistoryView,
)
    requires
        call_ensures(unite_history, (local, remote, secrets), out),
    ensures
        past(local@).contains(e) ==> past(out@).contains(e),
        past(remote@).contains(e) && (exists|i: int|
            0 <= i < secrets@.len() && (#[trigger] secrets@[i]).sync_uuid@ == e.uuid) && (forall|i: int|
            0 <= i < local@.len() ==> !((#[trigger] local@[i]).sync_uuid@ == e.uuid
                && local@[i].replaced_at@ == e.replaced_at)) ==> past(out@).contains(e),
        past(out@).contains(e) ==> past(local@).contains(e) || past(remote@).contains(e),
{
    let l = past(local@);
    let r = past(remote@);
    let s = records(secrets@);
    let p = |e: HistoryView| has_uuid(s, e.uuid) && !crate::merge::recorded(l, e);
    let x = r.filter(p);
    lemma_filter_members(r, p);
    assert(past(out@) == l + x);
    if l.contains(e) {
        let k = choose|k: int| 0 <= k < l.len() && l[k] == e;
        assert((l + x)[k] == e);
    }
    if r.contains(e) && (exists|i: int|
        0 <= i < secrets@.len() && (#[trigger] secrets@[i]).sync_uuid@ == e.uuid) && (forall|i: int|
        0 <= i < local@.len() ==> !((#[trigger] local@[i]).sync_uuid@ == e.uuid
            && local@[i].replaced_at@ == e.replaced_at)) {
        let i = choose|i: int| 0 <= i < secrets@.len() && (#[trigger] secrets@[i]).sync_uuid@ == e.uuid;
        assert(s[i].uuid == e.uuid);
        assert(!crate::merge::recorded(l, e)) by {
            if crate::merge::recorded(l, e) {
                let q = choose|q: int|
                    0 <= q < l.len() && (#[trigger] l[q]).uuid == e.uuid && l[q].replaced_at
                        == e.replaced_at;
                assert(local@[q].sync_uuid@ == e.uuid);
            }
        }
        assert(x.contains(e));
        let k = choose|k: int| 0 <= k < x.len() && x[k] == e;
        assert((l + x)[l.len() + k] == e);
    }
    if (l + x).contains(e) {
        let k = choose|k: int| 0 <= k < (l + x).len() && (l + x)[k] == e;
        if k < l.len() {
            assert(l[k] == e);
        } else {
            assert(x[k - l.len()] == e);
            assert(x.contains(e));
        }
    }
}

/// A merge leaves the past passwords alone where the other copy has none, and else keeps of both
/// what a limit per record allows.
pub proof fn law_merge_unites_histories(
    local: &mut Vault,
    remote: &RemoteCopy,
    version: &str,
    with_history: bool,
    cap: usize,
    a: &[HistoryEntry],
    b: &[HistoryEntry],
    s: &[SecretRecord],
    both: Vec<HistoryEntry>,
    h: &[HistoryEntry],
    kept: Vec<HistoryEntry>,
)
    requires
        call_ensures(merge_vaults, (local, &remote.vault, with_history, cap), Ok(())) || (
        remote.has_sync_uuid && remote.has_history == with_history && call_ensures(
            merge_remote,
            (local, remote, version, cap),
            Ok(()),
        )),
        past(a@) == old(local)@.history,
        past(b@) == remote.vault@.history,
        records(s@) == final(local)@.secrets,
        call_ensures(unite_history, (a, b, s), both),
        h@ == both@,
        call_ensures(cap_history, (h, cap), kept),
    ensures
        !with_history ==> final(local)@.history == old(local)@.history,
        with_history ==> final(local)@.history == past(kept@),
{
}

/// Of the rows of a copy those with an identity are taken, each under it and with all it holds.
pub proof fn law_rows_with_identity_are_taken(
    rows: &Vec<(SecretRecord, Option<String>)>,
    out: Vec<SecretRecord>,
    i: int,
)
    requires
        call_ensures(identified, (rows,), out),
        0 <= i < rows@.len(),
        rows@[i].1 is Some,
    ensures
        records(out@).contains(RecordView { uuid: rows@[i].1->0@, ..rows@[i].0@ }),
        out@.len() <= rows@.len(),
{
    let s = crate::conflicts::row_views(rows@);
    lemma_identified(s);
    assert(s[i] == (rows@[i].0@, crate::db::records::text_opt(rows@[i].1)));
    assert(records(out@).len() == out@.len());
}

proof fn lemma_identified(s: Seq<(RecordView, Option<Seq<char>>)>)
    ensures
        crate::conflicts::identified_of(s).len() <= s.len(),
        forall|i: int|
            0 <= i < s.len() && (#[trigger] s[i]).1 is Some ==> crate::conflicts::identified_of(
                s,
            ).contains(RecordView { uuid: s[i].1->0, ..s[i].0 }),
    decreases s.len(),
{
    if s.len() > 0 {
        let d = s.drop_last();
        let a = crate::conflicts::identified_of(d);
        let b = crate::conflicts::identified_of(s);
        lemma_identified(d);
        assert forall|i: int| 0 <= i < s.len() && (#[trigger] s[i]).1 is Some implies b.contains(
            RecordView { uuid: s[i].1->0, ..s[i].0 },
        ) by {
            let x = RecordView { uuid: s[i].1->0, ..s[i].0 };
            if i < d.len() {
                assert(d[i] == s[i]);
                let k = choose|k: int| 0 <= k < a.len() && a[k] == x;
                assert(b[k] == x);
            } else {
                assert(b[b.len() - 1] == x);
            }
        }
    }
}

/// In a merge by name, a record of this vault that no tombstone of the other copy names stays
/// under its identity; where the one record of its name there was changed later, it takes over
/// that one's address, password, notes and time, and else it stays as it is.
pub proof fn law_merge_by_name_keeps_the_later_version(
    local: &mut Vault,
    copy: &RemoteCopy,
    remote: Vault,
    version: &str,
    fresh: &Vec<String>,
    with_history: bool,
    cap: usize,
    a: int,
    b: int,
)
    requires
        merged_by_name_into(local, copy, version, fresh, with_history, cap),
        remote == copy.vault,
        0 <= a < old(local)@.secrets.len(),
        0 <= b < remote@.secrets.len(),
        same_name(old(local)@.secrets[a], remote@.secrets[b]),
        forall|j: int|
            0 <= j < remote@.secrets.len() && same_name(
                old(local)@.secrets[a],
                #[trigger] remote@.secrets[j],
            ) ==> j == b,
        forall|t: int|
            0 <= t < remote@.tombstones.len() ==> !names_record(
                #[trigger] remote@.tombstones[t],
                old(local)@.secrets[a],
            ),
    ensures
        lex_lt(old(local)@.secrets[a].updated_at, remote@.secrets[b].updated_at)
            ==> final(local)@.secrets.contains(
            RecordView {
                url: remote@.secrets[b].url,
                password: remote@.secrets[b].password,
                notes: remote@.secrets[b].notes,
                updated_at: remote@.secrets[b].updated_at,
                ..old(local)@.secrets[a]
            },
        ),
        !lex_lt(old(local)@.secrets[a].updated_at, remote@.secrets[b].updated_at)
            ==> final(local)@.secrets.contains(old(local)@.secrets[a]),
{
    let l = old(local)@;
    let r = remote@;
    let s = l.secrets[a];
    lemma_filter_members(l.secrets, |s: RecordView| !name_buried(s, r.tombstones));
    assert(!name_buried(s, r.tombstones)) by {
        if name_buried(s, r.tombstones) {
            let t = choose|t: int|
                0 <= t < r.tombstones.len() && crate::legacy_merge::names(
                    #[trigger] r.tombstones[t],
                    s,
                ) && lex_lt(s.updated_at, r.tombstones[t].deleted_at);
            assert(names_record(r.tombstones[t], s));
        }
    }
    let k = kept_by_name(l, r);
    assert(l.secrets.contains(s));
    assert(k.contains(s));
    let i = choose|i: int| 0 <= i < k.len() && k[i] == s;
    lemma_by_name(local, copy, version, fresh, with_history, cap);
    let ids = choose|ids: Seq<Seq<char>>| #[trigger]
        is_merge_by_name(final(local)@, old(local)@, copy.vault@, ids);
    let g = k + christened(added_by_name(l, r), l.next_id, ids);
    assert(g[i] == s);
    assert(final(local)@.secrets[i] == refreshed_by_name(s, r.secrets));
    lemma_only_name(r.secrets, s, b);
    assert(s.same_triple(r.secrets[b]));
    if outdated(s, r.secrets) {
        let j = choose|j: int|
            0 <= j < r.secrets.len() && s.same_triple(#[trigger] r.secrets[j]) && lex_lt(
                s.updated_at,
                r.secrets[j].updated_at,
            );
        assert(same_name(s, r.secrets[j]));
    }
}

/// Whether two records have the same title, tags and username.
pub open spec fn same_name(a: RecordView, b: RecordView) -> bool {
    a.title == b.title && a.category == b.category && a.username == b.username
}

/// Whether a tombstone has the title, tags and username of a record.
pub open spec fn names_record(t: TombstoneView, s: RecordView) -> bool {
    t.title == s.title && t.category == s.category && t.username == s.username
}

proof fn lemma_only_name(v: Seq<RecordView>, s: RecordView, b: int)
    requires
        0 <= b < v.len(),
        same_name(s, v[b]),
        forall|j: int| 0 <= j < v.len() && same_name(s, #[trigger] v[j]) ==> j == b,
    ensures
        find_name(v, s) == Some(v[b]),
    decreases v.len(),
{
    if b > 0 {
        assert(!same_name(s, v[0]));
        let d = v.drop_first();
        assert forall|j: int| 0 <= j < d.len() && same_name(s, #[trigger] d[j]) implies j == b - 1 by {
            assert(d[j] == v[j + 1]);
        }
        assert(d[b - 1] == v[b]);
        lemma_only_name(d, s, b - 1);
    }
}

/// A record of the other copy whose name is new here, and was not deleted here, comes in with all
/// it holds and an identity of its own; one that no record of the other copy names and that was
/// not deleted there stays.
pub proof fn law_merge_by_name_unites_the_records(
    local: &mut Vault,
    copy: &RemoteCopy,
    remote: Vault,
    version: &str,
    fresh: &Vec<String>,
    with_history: bool,
    cap: usize,
    b: int,
)
    requires
        merged_by_name_into(local, copy, version, fresh, with_history, cap),
        remote == copy.vault,
        0 <= b < remote@.secrets.len(),
        forall|j: int|
            0 <= j < old(local)@.secrets.len() ==> !same_name(
                #[trigger] old(local)@.secrets[j],
                remote@.secrets[b],
            ),
        forall|t: int|
            0 <= t < old(local)@.tombstones.len() ==> !names_record(
                #[trigger] old(local)@.tombstones[t],
                remote@.secrets[b],
            ),
        forall|j: int|
            0 <= j < remote@.secrets.len() && same_name(
                remote@.secrets[b],
                #[trigger] remote@.secrets[j],
            ) ==> j == b,
    ensures
        exists|k: int|
            0 <= k < final(local)@.secrets.len() && (RecordView {
                id: remote@.secrets[b].id,
                uuid: remote@.secrets[b].uuid,
                ..#[trigger] final(local)@.secrets[k]
            }) == remote@.secrets[b],
{
    let l = old(local)@;
    let r = remote@;
    let s = r.secrets[b];
    let kept = kept_by_name(l, r);
    let add = added_by_name(l, r);
    lemma_filter_members(l.secrets, |s: RecordView| !name_buried(s, r.tombstones));
    lemma_filter_members(
        r.secrets,
        |s: RecordView| !has_name(kept, s) && !name_blocked(s, l.tombstones),
    );
    assert(!has_name(kept, s)) by {
        if has_name(kept, s) {
            let i = choose|i: int| 0 <= i < kept.len() && s.same_triple(#[trigger] kept[i]);
            assert(kept.contains(kept[i]));
            let j = choose|j: int| 0 <= j < l.secrets.len() && l.secrets[j] == kept[i];
            assert(same_name(l.secrets[j], s));
        }
    }
    assert(!name_blocked(s, l.tombstones)) by {
        if name_blocked(s, l.tombstones) {
            let t = choose|t: int|
                0 <= t < l.tombstones.len() && crate::legacy_merge::names(
                    #[trigger] l.tombstones[t],
                    s,
                ) && crate::text::lex_le(s.updated_at, l.tombstones[t].deleted_at);
            assert(names_record(l.tombstones[t], s));
        }
    }
    assert(r.secrets.contains(s));
    assert(add.contains(s));
    let i = choose|i: int| 0 <= i < add.len() && add[i] == s;
    lemma_by_name(local, copy, version, fresh, with_history, cap);
    let ids = choose|ids: Seq<Seq<char>>| #[trigger]
        is_merge_by_name(final(local)@, old(local)@, copy.vault@, ids);
    let c = christened(add, l.next_id, ids);
    let g = kept + c;
    let k = kept.len() + i;
    assert(g[k] == c[i]);
    let x = c[i];
    assert(final(local)@.secrets[k] == refreshed_by_name(x, r.secrets));
    assert(!outdated(x, r.secrets)) by {
        if outdated(x, r.secrets) {
            let j = choose|j: int|
                0 <= j < r.secrets.len() && x.same_triple(#[trigger] r.secrets[j]) && lex_lt(
                    x.updated_at,
                    r.secrets[j].updated_at,
                );
            assert(same_name(s, r.secrets[j]));
            lemma_lex_irreflexive(s.updated_at);
        }
    }
    assert((RecordView { id: s.id, uuid: s.uuid, ..final(local)@.secrets[k] }) == s);
}

proof fn lemma_newest_members(h: Seq<HistoryView>, cap: nat, n: int, x: HistoryView)
    requires
        0 <= n <= h.len(),
    ensures
        newest_among(h, cap, n).contains(x) <==> exists|p: int|
            0 <= p < n && h[p] == x && #[trigger] newer_among(h, p, h.len() as int) < cap,
    decreases n,
{
    if n > 0 {
        let a = newest_among(h, cap, n - 1);
        let b = newest_among(h, cap, n);
        lemma_newest_members(h, cap, n - 1, x);
        if a.contains(x) {
            let k = choose|k: int| 0 <= k < a.len() && a[k] == x;
            assert(b[k] == x);
            let p = choose|p: int|
                0 <= p < n - 1 && h[p] == x && #[trigger] newer_among(h, p, h.len() as int) < cap;
            assert(newer_among(h, p, h.len() as int) < cap);
        }
        if b.contains(x) {
            let k = choose|k: int| 0 <= k < b.len() && b[k] == x;
            if k < a.len() {
                assert(a[k] == x);
            } else {
                assert(newer_among(h, n - 1, h.len() as int) < cap);
            }
        }
        if exists|p: int|
            0 <= p < n && h[p] == x && #[trigger] newer_among(h, p, h.len() as int) < cap {
            let p = choose|p: int|
                0 <= p < n && h[p] == x && #[trigger] newer_among(h, p, h.len() as int) < cap;
            if p == n - 1 {
                assert(b[b.len() - 1] == x);
            } else {
                assert(a.contains(x));
            }
        }
    }
}

proof fn lemma_fewer_newer(h: Seq<HistoryView>, i: int, j: int, n: int)
    requires
        0 <= i < h.len(),
        0 <= j < h.len(),
        0 <= n <= h.len(),
        h[i].uuid == h[j].uuid,
        lex_lt(h[i].replaced_at, h[j].replaced_at),
    ensures
        newer_among(h, j, n) <= newer_among(h, i, n),
    decreases n,
{
    if n > 0 {
        lemma_fewer_newer(h, i, j, n - 1);
        let k = n - 1;
        if newer(h, j, k) {
            if lex_lt(h[j].replaced_at, h[k].replaced_at) {
                lemma_lex_transitive(h[i].replaced_at, h[j].replaced_at, h[k].replaced_at);
            }
        }
    }
}

/// Of the past passwords of a record the newest are kept: where one is, so is every later one.
/// Every entry that is kept was there.
pub proof fn law_newest_passwords_are_kept(
    h: &[HistoryEntry],
    cap: usize,
    out: Vec<HistoryEntry>,
    i: int,
    j: int,
)
    requires
        call_ensures(cap_history, (h, cap), out),
        0 <= i < h@.len(),
        0 <= j < h@.len(),
        h@[i].sync_uuid@ == h@[j].sync_uuid@,
        lex_lt(h@[i].replaced_at@, h@[j].replaced_at@),
        past(out@).contains(h@[i]@),
    ensures
        past(out@).contains(h@[j]@),
        forall|e: HistoryView| #[trigger] past(out@).contains(e) ==> past(h@).contains(e),
{
    let s = past(h@);
    let n = s.len() as int;
    assert(s[i] == h@[i]@ && s[j] == h@[j]@);
    lemma_newest_members(s, cap as nat, n, s[i]);
    let p = choose|p: int| 0 <= p < n && s[p] == s[i] && #[trigger] newer_among(s, p, n) < cap;
    lemma_fewer_newer(s, p, j, n);
    lemma_newest_members(s, cap as nat, n, s[j]);
    assert(newer_among(s, j, n) < cap);
    assert forall|e: HistoryView| #[trigger] past(out@).contains(e) implies s.contains(e) by {
        lemma_newest_members(s, cap as nat, n, e);
        let p = choose|p: int| 0 <= p < n && s[p] == e && #[trigger] newer_among(s, p, n) < cap;
        assert(s[p] == e);
    }
}

proof fn lemma_none_newer(h: Seq<HistoryView>, i: int, n: int)
    requires
        0 <= i < h.len(),
        0 <= n <= h.len(),
        forall|k: int|
            0 <= k < h.len() && (#[trigger] h[k]).uuid == h[i].uuid ==> !lex_lt(
                h[i].replaced_at,
                h[k].replaced_at,
            ),
        i == h.len() - 1,
    ensures
        newer_among(h, i, n) == 0,
    decreases n,
{
    if n > 0 {
        lemma_none_newer(h, i, n - 1);
        assert(!newer(h, i, n - 1));
    }
}

/// A password that is replaced is remembered, as it was stored, with the time, unless none are to
/// be kept or the clock has gone backwards.
pub proof fn law_replaced_password_is_remembered(
    vault: &mut Vault,
    id: i64,
    title: &str,
    category: &str,
    username: &str,
    url: &str,
    password: &str,
    notes: Option<&str>,
    key: &[u8; 32],
    now: &str,
    cap: usize,
    i: int,
)
    requires
        old(vault)@.wf(),
        call_ensures(
            update_secret,
            (vault, id, title, category, username, url, password, notes, key, now, cap),
            Ok(()),
        ),
        0 <= i < old(vault)@.secrets.len(),
        old(vault)@.secrets[i].id == id,
        !reads(old(vault)@.secrets[i].password, key@, password@),
        cap > 0,
        forall|k: int|
            0 <= k < old(vault)@.history.len() && (#[trigger] old(vault)@.history[k]).uuid
                == old(vault)@.secrets[i].uuid ==> !lex_lt(now@, old(vault)@.history[k].replaced_at),
    ensures
        final(vault)@.history.contains(
            HistoryView {
                uuid: old(vault)@.secrets[i].uuid,
                password: old(vault)@.secrets[i].password,
                replaced_at: now@,
            },
        ),
{
    let v = old(vault)@;
    let s = v.secrets[i];
    crate::promises::records::lemma_found(v.secrets, id as int, i);
    let e = HistoryView { uuid: s.uuid, password: s.password, replaced_at: now@ };
    let h = v.history.push(e);
    assert(final(vault)@.history == capped(h, cap as nat));
    let n = h.len() - 1;
    assert(h[n] == e);
    lemma_lex_irreflexive(now@);
    assert forall|k: int| 0 <= k < h.len() && (#[trigger] h[k]).uuid == h[n].uuid implies !lex_lt(
        h[n].replaced_at,
        h[k].replaced_at,
    ) by {
        if k < n {
            assert(h[k] == v.history[k]);
        }
    }
    lemma_none_newer(h, n, h.len() as int);
    lemma_newest_members(h, cap as nat, h.len() as int, e);
    assert(newer_among(h, n, h.len() as int) < cap);
}

/// A change of a password adds nothing to the history but the one entry, and takes nothing from
/// that of another record which is within the limit.
pub proof fn law_history_of_others_stays(
    vault: &mut Vault,
    id: i64,
    title: &str,
    category: &str,
    username: &str,
    url: &str,
    password: &str,
    notes: Option<&str>,
    key: &[u8; 32],
    now: &str,
    cap: usize,
    i: int,
    k: int,
)
    requires
        old(vault)@.wf(),
        call_ensures(
            update_secret,
            (vault, id, title, category, username, url, password, notes, key, now, cap),
            Ok(()),
        ),
        0 <= i < old(vault)@.secrets.len(),
        old(vault)@.secrets[i].id == id,
    ensures
        0 <= k < old(vault)@.history.len() && old(vault)@.history[k].uuid != old(vault)@.secrets[i].uuid
            && newer_among(old(vault)@.history, k, old(vault)@.history.len() as int) < cap
            ==> final(vault)@.history.contains(old(vault)@.history[k]),
        forall|e: HistoryView| #[trigger]
            final(vault)@.history.contains(e) ==> old(vault)@.history.contains(e) || e == (HistoryView {
                uuid: old(vault)@.secrets[i].uuid,
                password: old(vault)@.secrets[i].password,
                replaced_at: now@,
            }),
{
    let v = old(vault)@;
    let s = v.secrets[i];
    crate::promises::records::lemma_found(v.secrets, id as int, i);
    let x = HistoryView { uuid: s.uuid, password: s.password, replaced_at: now@ };
    let h = v.history.push(x);
    let n = h.len() as int;
    if final(vault)@.history == v.history {
    } else {
        assert(final(vault)@.history == capped(h, cap as nat));
        if 0 <= k < v.history.len() && v.history[k].uuid != s.uuid && newer_among(
            v.history,
            k,
            v.history.len() as int,
        ) < cap {
            lemma_same_newer(v.history, x, k, v.history.len() as int);
            assert(h[k] == v.history[k]);
            assert(!newer(h, k, n - 1));
            lemma_newest_members(h, cap as nat, n, h[k]);
            assert(newer_among(h, k, n) < cap);
        }
        assert forall|e: HistoryView| #[trigger] final(vault)@.history.contains(e) implies v.history.contains(
            e,
        ) || e == x by {
            lemma_newest_members(h, cap as nat, n, e);
            let p = choose|p: int| 0 <= p < n && h[p] == e && #[trigger] newer_among(h, p, n) < cap;
            if p < n - 1 {
                assert(v.history[p] == e);
            }
        }
    }
}

proof fn lemma_same_newer(h: Seq<HistoryView>, x: HistoryView, k: int, n: int)
    requires
        0 <= k < h.len(),
        0 <= n <= h.len(),
    ensures
        newer_among(h.push(x), k, n) == newer_among(h, k, n),
    decreases n,
{
    if n > 0 {
        lemma_same_newer(h, x, k, n - 1);
        assert(newer(h.push(x), k, n - 1) == newer(h, k, n - 1));
    }
}

} // verus!
