//! Bringing the tables of an older vault up to date.
use vstd::prelude::*;
use vstd::string::*;

use crate::db::records::{
    checks, hashes_distinct, ids_below, ids_distinct, lemma_marks_push, lemma_records_push, marks,
    marks_distinct, records, uuids_distinct, RecordView, HibpCheck, SecretRecord, Tombstone,
    TombstoneView, Vault, VaultView,
};
use crate::db::version::{raise_floor, raised_floor};
use crate::text::{lex_lt, text_before, texts};

verus! {

/// What the tables of a vault file lack.
#[derive(Debug, Clone, Copy, PartialEq, Eq, Structural)]
pub struct SchemaFacts {
    pub has_url: bool,
    pub has_sync_uuid: bool,
    pub has_tombstone_uuid: bool,
    /// Whether tombstones are keyed on title, category and username.
    pub tombstones_keyed_on_triple: bool,
}

/// What the tables that this program writes have.
pub open spec fn current_tables() -> SchemaFacts {
    SchemaFacts {
        has_url: true,
        has_sync_uuid: true,
        has_tombstone_uuid: true,
        tombstones_keyed_on_triple: false,
    }
}

/// What holds of the tables of every vault file, old or new.
pub open spec fn loadable(v: VaultView) -> bool {
    ids_distinct(v.secrets) && ids_below(v.secrets, v.next_id) && hashes_distinct(v.hibp) && 1
        <= v.next_id
}

/// A record with the columns that its table lacks: no address, and the given identity.
pub open spec fn completed(s: RecordView, facts: SchemaFacts, fresh: Seq<char>) -> RecordView {
    RecordView {
        url: if facts.has_url {
            s.url
        } else {
            Seq::empty()
        },
        uuid: if facts.has_sync_uuid {
            s.uuid
        } else {
            fresh
        },
        ..s
    }
}

/// The records with the columns that their table lacks.
pub open spec fn completed_records(s: Seq<RecordView>, facts: SchemaFacts, fresh: Seq<Seq<char>>) -> Seq<
    RecordView,
> {
    Seq::new(s.len(), |i: int| completed(s[i], facts, fresh[i]))
}

/// The tombstones with the column that their table lacks: none carries an identity.
pub open spec fn completed_marks(t: Seq<TombstoneView>, facts: SchemaFacts) -> Seq<TombstoneView> {
    Seq::new(
        t.len(),
        |i: int|
            if facts.has_tombstone_uuid {
                t[i]
            } else {
                TombstoneView { uuid: None, ..t[i] }
            },
    )
}

/// Whether tombstone `j` supersedes tombstone `i`: it marks the same identity, later, or at the
/// same time and in an earlier row.
pub open spec fn supersedes(t: Seq<TombstoneView>, j: int, i: int) -> bool {
    t[i].uuid is Some && t[j].uuid == t[i].uuid && (lex_lt(t[i].deleted_at, t[j].deleted_at) || (
    t[i].deleted_at == t[j].deleted_at && j < i))
}

/// Whether some tombstone supersedes tombstone `i`.
pub open spec fn superseded(t: Seq<TombstoneView>, i: int) -> bool {
    exists|j: int| 0 <= j < t.len() && #[trigger] supersedes(t, j, i)
}

/// Of the first `n` tombstones, those that none supersedes.
pub open spec fn newest_marks(t: Seq<TombstoneView>, n: int) -> Seq<TombstoneView>
    decreases n,
{
    if n <= 0 {
        Seq::empty()
    } else if superseded(t, n - 1) {
        newest_marks(t, n - 1)
    } else {
        newest_marks(t, n - 1).push(t[n - 1])
    }
}

/// The tombstones after their table is rebuilt without its key on title, category and
/// username: of each identity the newest, and all that carry none.
pub open spec fn rebuilt(t: Seq<TombstoneView>, facts: SchemaFacts) -> Seq<TombstoneView> {
    if facts.tombstones_keyed_on_triple {
        newest_marks(t, t.len() as int)
    } else {
        t
    }
}

/// The vault after its tables were brought up to date.
pub open spec fn upgraded(v: VaultView, facts: SchemaFacts, fresh: Seq<Seq<char>>) -> VaultView {
    VaultView {
        floor: Some(raised_floor(v.floor)),
        secrets: completed_records(v.secrets, facts, fresh),
        tombstones: rebuilt(completed_marks(v.tombstones, facts), facts),
        ..v
    }
}

/// The vault where bringing its tables up to date was broken off: what was done before the first
/// identity that occurs twice was found stays done.
pub open spec fn half_upgraded(v: VaultView, facts: SchemaFacts, fresh: Seq<Seq<char>>) -> VaultView {
    let u = upgraded(v, facts, fresh);
    VaultView {
        secrets: u.secrets,
        tombstones: if uuids_distinct(u.secrets) {
            u.tombstones
        } else {
            v.tombstones
        },
        ..v
    }
}

fn is_superseded(t: &[Tombstone], i: usize) -> (b: bool)
    requires
        i < t@.len(),
    ensures
        b == superseded(marks(t@), i as int),
{
    let ghost m = marks(t@);
    match &t[i].sync_uuid {
        None => {
            assert(m[i as int].uuid is None);
            false
        },
        Some(u) => {
            let mut j: usize = 0;
            while j < t.len()
                invariant
                    i < t@.len(),
                    j <= t@.len(),
                    m == marks(t@),
                    m[i as int].uuid == Some(u@),
                    forall|k: int| 0 <= k < j ==> !#[trigger] supersedes(m, k, i as int),
                decreases t@.len() - j,
            {
                assert(m[i as int] == t@[i as int]@);
                assert(m[j as int] == t@[j as int]@);
                if t[j].is_for(u) && (text_before(t[i].deleted_at.as_str(), t[j].deleted_at.as_str())
                    || (t[i].deleted_at == t[j].deleted_at && j < i)) {
                    assert(supersedes(m, j as int, i as int));
                    return true;
                }
                j += 1;
            }
            false
        },
    }
}

fn rebuild(t: &[Tombstone]) -> (out: Vec<Tombstone>)
    ensures
        marks(out@) == newest_marks(marks(t@), t@.len() as int),
{
    let mut out: Vec<Tombstone> = Vec::new();
    let mut i: usize = 0;
    assert(marks(out@) =~= newest_marks(marks(t@), 0));
    while i < t.len()
        invariant
            i <= t@.len(),
            marks(out@) == newest_marks(marks(t@), i as int),
        decreases t@.len() - i,
    {
        if !is_superseded(t, i) {
            let copy = t[i].clone();
            proof {
                lemma_marks_push(out@, copy);
                assert(marks(t@)[i as int] == copy@);
            }
            out.push(copy);
        }
        i += 1;
    }
    out
}

proof fn lemma_newest_from(t: Seq<TombstoneView>, n: int)
    requires
        0 <= n <= t.len(),
    ensures
        forall|a: int|
            0 <= a < newest_marks(t, n).len() ==> exists|i: int|
                0 <= i < n && !superseded(t, i) && t[i] == #[trigger] newest_marks(t, n)[a],
    decreases n,
{
    if n > 0 {
        lemma_newest_from(t, n - 1);
        let before = newest_marks(t, n - 1);
        let now = newest_marks(t, n);
        assert forall|a: int| 0 <= a < now.len() implies exists|i: int|
            0 <= i < n && !superseded(t, i) && t[i] == #[trigger] now[a] by {
            if a < before.len() {
                assert(now[a] == before[a]);
                let i = choose|i: int| 0 <= i < n - 1 && !superseded(t, i) && t[i] == before[a];
                assert(t[i] == now[a]);
            } else {
                assert(t[n - 1] == now[a]);
            }
        }
    }
}

proof fn lemma_newest_distinct(t: Seq<TombstoneView>, n: int)
    requires
        0 <= n <= t.len(),
    ensures
        marks_distinct(newest_marks(t, n)),
    decreases n,
{
    if n > 0 {
        lemma_newest_distinct(t, n - 1);
        lemma_newest_from(t, n - 1);
        let before = newest_marks(t, n - 1);
        let now = newest_marks(t, n);
        assert forall|a: int, b: int|
            0 <= a < b < now.len() && (#[trigger] now[a]).uuid is Some implies now[a].uuid != (
        #[trigger] now[b]).uuid by {
            assert(now[a] == before[a]);
            if b < before.len() {
                assert(now[b] == before[b]);
            } else {
                let i = choose|i: int| 0 <= i < n - 1 && !superseded(t, i) && t[i] == before[a];
                if t[i].uuid == t[n - 1].uuid {
                    crate::text::lemma_lex_total(t[i].deleted_at, t[n - 1].deleted_at);
                    assert(supersedes(t, n - 1, i) || supersedes(t, i, n - 1));
                }
            }
        }
    }
}

/// After a rebuild no identity is marked twice.
pub proof fn law_rebuild_leaves_distinct_marks(t: Seq<TombstoneView>)
    ensures
        marks_distinct(newest_marks(t, t.len() as int)),
{
    lemma_newest_distinct(t, t.len() as int);
}

proof fn lemma_newest_keeps(t: Seq<TombstoneView>, n: int, i: int)
    requires
        0 <= i < n <= t.len(),
        !superseded(t, i),
    ensures
        newest_marks(t, n).contains(t[i]),
    decreases n,
{
    let now = newest_marks(t, n);
    if i == n - 1 {
        assert(now[now.len() - 1] == t[i]);
    } else {
        lemma_newest_keeps(t, n - 1, i);
        let before = newest_marks(t, n - 1);
        let k = choose|k: int| 0 <= k < before.len() && before[k] == t[i];
        assert(now[k] == t[i]);
    }
}

/// A rebuild keeps every tombstone without an identity, and of each identity one that no other
/// is newer than.
pub proof fn law_rebuild_keeps_the_newest(t: Seq<TombstoneView>, i: int)
    requires
        0 <= i < t.len(),
    ensures
        t[i].uuid is None ==> newest_marks(t, t.len() as int).contains(t[i]),
        !superseded(t, i) ==> newest_marks(t, t.len() as int).contains(t[i]),
{
    if !superseded(t, i) {
        lemma_newest_keeps(t, t.len() as int, i);
    }
}

/// Whether no two records share an identity.
pub fn are_uuids_distinct(v: &[SecretRecord]) -> (b: bool)
    ensures
        b == uuids_distinct(records(v@)),
{
    let ghost s = records(v@);
    let mut i: usize = 0;
    while i < v.len()
        invariant
            i <= v@.len(),
            s == records(v@),
            forall|a: int, b: int| 0 <= a < b < i ==> (#[trigger] s[a]).uuid != (#[trigger] s[b]).uuid,
        decreases v@.len() - i,
    {
        let mut j: usize = 0;
        while j < i
            invariant
                j <= i < v@.len(),
                s == records(v@),
                forall|a: int| 0 <= a < j ==> (#[trigger] s[a]).uuid != s[i as int].uuid,
            decreases i - j,
        {
            assert(s[i as int] == v@[i as int]@);
            assert(s[j as int] == v@[j as int]@);
            if v[j].sync_uuid == v[i].sync_uuid {
                return false;
            }
            j += 1;
        }
        i += 1;
    }
    true
}

/// Whether no two tombstones mark the same identity.
pub fn are_marks_distinct(v: &[Tombstone]) -> (b: bool)
    ensures
        b == marks_distinct(marks(v@)),
{
    let ghost t = marks(v@);
    let mut i: usize = 0;
    while i < v.len()
        invariant
            i <= v@.len(),
            t == marks(v@),
            forall|a: int, b: int|
                0 <= a < b < i && (#[trigger] t[a]).uuid is Some ==> t[a].uuid != (
                #[trigger] t[b]).uuid,
        decreases v@.len() - i,
    {
        assert(t[i as int] == v@[i as int]@);
        if let Some(u) = &v[i].sync_uuid {
            let mut j: usize = 0;
            while j < i
                invariant
                    j <= i < v@.len(),
                    t == marks(v@),
                    t[i as int].uuid == Some(u@),
                    forall|a: int| 0 <= a < j ==> (#[trigger] t[a]).uuid != t[i as int].uuid,
                decreases i - j,
            {
                assert(t[j as int] == v@[j as int]@);
                if v[j].is_for(u) {
                    assert(t[j as int].uuid is Some && t[j as int].uuid == t[i as int].uuid);
                    return false;
                }
                j += 1;
            }
        }
        i += 1;
    }
    true
}

/// Whether the ids of the records differ and were all handed out before `next`.
fn are_ids_distinct(v: &[SecretRecord], next: i64) -> (b: bool)
    ensures
        b == (ids_distinct(records(v@)) && ids_below(records(v@), next as int)),
{
    let ghost s = records(v@);
    let mut i: usize = 0;
    while i < v.len()
        invariant
            i <= v@.len(),
            s == records(v@),
            forall|a: int, b: int| 0 <= a < b < i ==> (#[trigger] s[a]).id != (#[trigger] s[b]).id,
            forall|a: int| 0 <= a < i ==> (#[trigger] s[a]).id < next,
        decreases v@.len() - i,
    {
        assert(s[i as int] == v@[i as int]@);
        if v[i].id >= next {
            return false;
        }
        let mut j: usize = 0;
        while j < i
            invariant
                j <= i < v@.len(),
                s == records(v@),
                forall|a: int| 0 <= a < j ==> (#[trigger] s[a]).id != s[i as int].id,
            decreases i - j,
        {
            assert(s[i as int] == v@[i as int]@);
            assert(s[j as int] == v@[j as int]@);
            if v[j].id == v[i].id {
                return false;
            }
            j += 1;
        }
        i += 1;
    }
    true
}

/// Whether no two cached counts share a lookup key.
fn are_hashes_distinct(v: &[HibpCheck]) -> (b: bool)
    ensures
        b == hashes_distinct(checks(v@)),
{
    let ghost s = checks(v@);
    let mut i: usize = 0;
    while i < v.len()
        invariant
            i <= v@.len(),
            s == checks(v@),
            forall|a: int, b: int| 0 <= a < b < i ==> (#[trigger] s[a]).hash != (#[trigger] s[b]).hash,
        decreases v@.len() - i,
    {
        let mut j: usize = 0;
        while j < i
            invariant
                j <= i < v@.len(),
                s == checks(v@),
                forall|a: int| 0 <= a < j ==> (#[trigger] s[a]).hash != s[i as int].hash,
            decreases i - j,
        {
            assert(s[i as int] == v@[i as int]@);
            assert(s[j as int] == v@[j as int]@);
            if v[j].password_hash == v[i].password_hash {
                return false;
            }
            j += 1;
        }
        i += 1;
    }
    true
}

/// Whether tables that were read from a file keep what the tables of every vault file keep.
pub fn is_loadable(vault: &Vault) -> (b: bool)
    ensures
        b == loadable(vault@),
{
    vault.next_id >= 1 && are_ids_distinct(vault.secrets.as_slice(), vault.next_id)
        && are_hashes_distinct(vault.hibp_checks.as_slice())
}

/// Whether a vault keeps what every vault keeps.
pub fn is_sound(vault: &Vault) -> (b: bool)
    ensures
        b == vault@.wf(),
{
    is_loadable(vault) && are_uuids_distinct(vault.secrets.as_slice()) && are_marks_distinct(
        vault.tombstones.as_slice(),
    )
}

fn complete_records(v: &[SecretRecord], facts: SchemaFacts, fresh: &[String]) -> (out: Vec<
    SecretRecord,
>)
    requires
        fresh@.len() >= v@.len(),
    ensures
        records(out@) == completed_records(records(v@), facts, texts(fresh@)),
{
    let mut out: Vec<SecretRecord> = Vec::new();
    let ghost all = completed_records(records(v@), facts, texts(fresh@));
    let mut i: usize = 0;
    while i < v.len()
        invariant
            i <= v@.len(),
            fresh@.len() >= v@.len(),
            all == completed_records(records(v@), facts, texts(fresh@)),
            records(out@) == all.take(i as int),
        decreases v@.len() - i,
    {
        let mut copy = v[i].clone();
        if !facts.has_url {
            copy.url = String::new();
        }
        if !facts.has_sync_uuid {
            copy.sync_uuid = fresh[i].clone();
        }
        assert(copy@ == all[i as int]);
        proof {
            lemma_records_push(out@, copy);
        }
        out.push(copy);
        i += 1;
        assert(records(out@) =~= all.take(i as int));
    }
    assert(all.take(i as int) =~= all);
    out
}

fn complete_marks(v: &[Tombstone], facts: SchemaFacts) -> (out: Vec<Tombstone>)
    ensures
        marks(out@) == completed_marks(marks(v@), facts),
{
    let mut out: Vec<Tombstone> = Vec::new();
    let ghost all = completed_marks(marks(v@), facts);
    let mut i: usize = 0;
    while i < v.len()
        invariant
            i <= v@.len(),
            all == completed_marks(marks(v@), facts),
            marks(out@) == all.take(i as int),
        decreases v@.len() - i,
    {
        let mut copy = v[i].clone();
        if !facts.has_tombstone_uuid {
            copy.sync_uuid = None;
        }
        assert(copy@ == all[i as int]);
        proof {
            lemma_marks_push(out@, copy);
        }
        out.push(copy);
        i += 1;
        assert(marks(out@) =~= all.take(i as int));
    }
    assert(all.take(i as int) =~= all);
    out
}

/// Brings the tables of a vault up to date; records without an identity get those in `fresh`,
/// in order. Two records, or two tombstones, of one identity are refused; what was completed
/// before they were found stays.
pub fn ensure_schema(vault: &mut Vault, facts: SchemaFacts, fresh: &Vec<String>) -> (r: Result<
    (),
    String,
>)
    requires
        loadable(old(vault)@),
        fresh@.len() >= old(vault)@.secrets.len(),
    ensures
        (r is Ok) == (uuids_distinct(upgraded(old(vault)@, facts, texts(fresh@)).secrets)
            && marks_distinct(upgraded(old(vault)@, facts, texts(fresh@)).tombstones)),
        r is Ok ==> final(vault)@ == upgraded(old(vault)@, facts, texts(fresh@)),
        r is Ok ==> final(vault)@.wf(),
        r is Err ==> final(vault)@ == half_upgraded(old(vault)@, facts, texts(fresh@)),
        r matches Err(e) ==> e@ == (if uuids_distinct(
            upgraded(old(vault)@, facts, texts(fresh@)).secrets,
        ) {
            "UNIQUE constraint failed: deleted_secrets.sync_uuid"@
        } else {
            "UNIQUE constraint failed: secrets.sync_uuid"@
        }),
{
    let ghost before = vault@;
    let secrets = complete_records(vault.secrets.as_slice(), facts, fresh.as_slice());
    vault.secrets = secrets;
    if !are_uuids_distinct(vault.secrets.as_slice()) {
        return Err("UNIQUE constraint failed: secrets.sync_uuid".to_owned());
    }
    let full = complete_marks(vault.tombstones.as_slice(), facts);
    let tombstones = if facts.tombstones_keyed_on_triple {
        assert(full@.len() == marks(full@).len());
        rebuild(full.as_slice())
    } else {
        full
    };
    vault.tombstones = tombstones;
    if !are_marks_distinct(vault.tombstones.as_slice()) {
        return Err("UNIQUE constraint failed: deleted_secrets.sync_uuid".to_owned());
    }
    vault.min_app_version = Some(raise_floor(&vault.min_app_version));
    proof {
        let s = vault@.secrets;
        assert forall|i: int, j: int| 0 <= i < j < s.len() implies (#[trigger] s[i]).id != (
        #[trigger] s[j]).id by {
            assert(s[i].id == before.secrets[i].id && s[j].id == before.secrets[j].id);
        }
        assert forall|i: int| 0 <= i < s.len() implies (#[trigger] s[i]).id < before.next_id by {
            assert(s[i].id == before.secrets[i].id);
        }
    }
    Ok(())
}

/// Up-to-date tables stay as they are; only the floor may rise.
pub proof fn law_current_schema_is_left_alone(v: VaultView, fresh: Seq<Seq<char>>)
    ensures
        upgraded(v, current_tables(), fresh) == (VaultView {
            floor: Some(raised_floor(v.floor)),
            ..v
        }),
{
    let facts = current_tables();
    assert(completed_records(v.secrets, facts, fresh) =~= v.secrets);
    assert(completed_marks(v.tombstones, facts) =~= v.tombstones);
}

} // verus!
