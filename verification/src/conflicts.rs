//! Records that were changed on two devices since their last common state.
use vstd::prelude::*;
use vstd::string::*;

use crate::crypto::{decrypt, lossy_text, opened, text_of, wipe_bytes, wipe_text};
use crate::db::records::{
    find_uuid, lemma_records_push, position_of_uuid, records, text_opt, RecordView, SecretRecord,
    Vault,
};
use crate::db::version::{satisfies, version_satisfies, word_too_old, too_old_message};
use crate::legacy_merge::{added_by_name, merge_by_name_fresh, merges_by_name};
use crate::lists::lemma_filter_step;
use crate::merge::{added, merge_vaults, merged};

verus! {

/// A copy of the vault that was fetched from the remote.
#[derive(Debug)]
pub struct RemoteCopy {
    pub vault: Vault,
    /// Whether its records carry identities.
    pub has_sync_uuid: bool,
    /// Whether it has a password history.
    pub has_history: bool,
}

impl RemoteCopy {
    /// What holds of every copy.
    pub open spec fn wf(self) -> bool {
        self.has_sync_uuid ==> self.vault@.wf()
    }
}

/// A record that two devices changed independently.
#[derive(Debug)]
pub struct ConflictGroup {
    pub title: String,
    pub category: String,
    pub username: String,
    pub local_secret: SecretRecord,
    pub remote_secret: SecretRecord,
    pub base_secret: Option<SecretRecord>,
}

/// What a conflict holds.
pub struct ConflictView {
    pub local: RecordView,
    pub remote: RecordView,
    pub base: Option<RecordView>,
}

impl View for ConflictGroup {
    type V = ConflictView;

    open spec fn view(&self) -> ConflictView {
        ConflictView {
            local: self.local_secret@,
            remote: self.remote_secret@,
            base: match self.base_secret {
                Some(b) => Some(b@),
                None => None,
            },
        }
    }
}

impl ConflictGroup {
    /// The headings are those of the local record.
    pub open spec fn wf(self) -> bool {
        self.title@ == self.local_secret@.title && self.category@ == self.local_secret@.category
            && self.username@ == self.local_secret@.username
    }
}

/// The views of a list of conflicts.
pub open spec fn groups(v: Seq<ConflictGroup>) -> Seq<ConflictView> {
    Seq::new(v.len(), |i: int| v[i]@)
}

/// What a user sees of a record.
pub struct PlainView {
    pub title: Seq<char>,
    pub category: Seq<char>,
    pub username: Seq<char>,
    pub url: Seq<char>,
    pub password: Seq<char>,
    pub notes: Seq<char>,
}

/// The text that a payload decrypts to; nothing if it does not.
pub open spec fn shown(data: Seq<u8>, key: Seq<u8>) -> Seq<char> {
    match opened(data, key) {
        Ok(p) => text_of(p),
        Err(_) => Seq::empty(),
    }
}

/// The text of an optional payload; nothing if there is none.
pub open spec fn shown_opt(data: Option<Seq<u8>>, key: Seq<u8>) -> Seq<char> {
    match data {
        Some(d) => shown(d, key),
        None => Seq::empty(),
    }
}

/// What a user sees of a record.
pub open spec fn plain(s: RecordView, key: Seq<u8>) -> PlainView {
    PlainView {
        title: s.title,
        category: s.category,
        username: s.username,
        url: s.url,
        password: shown(s.password, key),
        notes: shown_opt(s.notes, key),
    }
}

/// Whether two versions of a record conflict: they differ, and both differ from the last
/// common version where one is known.
pub open spec fn clash(
    local: RecordView,
    remote: RecordView,
    base: Option<RecordView>,
    key: Seq<u8>,
) -> bool {
    plain(local, key) != plain(remote, key) && (base matches Some(b) ==> plain(local, key) != plain(
        b,
        key,
    ) && plain(remote, key) != plain(b, key))
}

/// Whether a local record conflicts with its remote version.
pub open spec fn conflicting(
    s: RecordView,
    remote: Seq<RecordView>,
    base: Seq<RecordView>,
    key: Seq<u8>,
) -> bool {
    find_uuid(remote, s.uuid) matches Some(r) && clash(s, r, find_uuid(base, s.uuid), key)
}

/// The conflicts among the given records, in the order of the local ones.
pub open spec fn conflicts_of(
    local: Seq<RecordView>,
    remote: Seq<RecordView>,
    base: Seq<RecordView>,
    key: Seq<u8>,
) -> Seq<ConflictView> {
    let hit = local.filter(|s: RecordView| conflicting(s, remote, base, key));
    Seq::new(
        hit.len(),
        |i: int|
            ConflictView {
                local: hit[i],
                remote: find_uuid(remote, hit[i].uuid)->0,
                base: find_uuid(base, hit[i].uuid),
            },
    )
}

/// The text that a payload decrypts to; nothing if it does not.
pub fn reveal_text(data: &[u8], key: &[u8; 32]) -> (s: String)
    ensures
        s@ == shown(data@, key@),
{
    match decrypt(data, key) {
        Ok(mut p) => {
            let s = lossy_text(p.as_slice());
            wipe_bytes(&mut p);
            s
        },
        Err(_) => String::new(),
    }
}

/// The text of an optional payload; nothing if there is none.
pub fn reveal_notes(data: &Option<Vec<u8>>, key: &[u8; 32]) -> (s: String)
    ensures
        s@ == shown_opt(crate::db::records::blob(*data), key@),
{
    match data {
        Some(d) => reveal_text(d.as_slice(), key),
        None => String::new(),
    }
}

/// Whether a user sees the same in two records.
fn looks_same(a: &SecretRecord, b: &SecretRecord, key: &[u8; 32]) -> (r: bool)
    ensures
        r == (plain(a@, key@) == plain(b@, key@)),
{
    let mut pa = reveal_text(a.encrypted_password.as_slice(), key);
    let mut pb = reveal_text(b.encrypted_password.as_slice(), key);
    let mut na = reveal_notes(&a.encrypted_notes, key);
    let mut nb = reveal_notes(&b.encrypted_notes, key);
    let same = pa == pb && na == nb && a.url == b.url && a.title == b.title && a.category
        == b.category && a.username == b.username;
    wipe_text(&mut pa);
    wipe_text(&mut pb);
    wipe_text(&mut na);
    wipe_text(&mut nb);
    same
}

/// The conflicts between the local and the remote records. `base` holds the records of their
/// last common state.
pub fn find_conflicts(
    local: &[SecretRecord],
    remote: &[SecretRecord],
    base: &[SecretRecord],
    key: &[u8; 32],
) -> (out: Vec<ConflictGroup>)
    ensures
        groups(out@) == conflicts_of(records(local@), records(remote@), records(base@), key@),
        forall|i: int| 0 <= i < out@.len() ==> (#[trigger] out@[i]).wf(),
{
    let mut out: Vec<ConflictGroup> = Vec::new();
    let ghost l = records(local@);
    let ghost r = records(remote@);
    let ghost b = records(base@);
    let ghost p = |s: RecordView| conflicting(s, r, b, key@);
    let mut i: usize = 0;
    proof {
        reveal(Seq::filter);
        assert(groups(out@) =~= conflicts_of(l.take(0), r, b, key@));
    }
    while i < local.len()
        invariant
            i <= local@.len(),
            l == records(local@),
            r == records(remote@),
            b == records(base@),
            p == (|s: RecordView| conflicting(s, r, b, key@)),
            groups(out@) == conflicts_of(l.take(i as int), r, b, key@),
            forall|k: int| 0 <= k < out@.len() ==> (#[trigger] out@[k]).wf(),
        decreases local@.len() - i,
    {
        proof {
            lemma_filter_step(l, i as int, p);
        }
        let ghost seen = l.take(i as int).filter(p);
        let ghost before = groups(out@);
        let s = &local[i];
        let at: usize = position_of_uuid(remote, &s.sync_uuid);
        if at < remote.len() && !looks_same(s, &remote[at], key) {
            let root: usize = position_of_uuid(base, &s.sync_uuid);
            let known = root < base.len();
            let hit = !known || (!looks_same(s, &base[root], key) && !looks_same(
                &remote[at],
                &base[root],
                key,
            ));
            assert(hit == p(l[i as int]));
            if hit {
                let base_secret = if known {
                    Some(base[root].clone())
                } else {
                    None
                };
                let group = ConflictGroup {
                    title: s.title.clone(),
                    category: s.category.clone(),
                    username: s.username.clone(),
                    local_secret: s.clone(),
                    remote_secret: remote[at].clone(),
                    base_secret,
                };
                let ghost new_view = group@;
                out.push(group);
                assert(groups(out@) =~= before.push(new_view));
                assert(conflicts_of(l.take(i + 1), r, b, key@) =~= before.push(new_view));
            }
        }
        i += 1;
    }
    assert(l.take(i as int) =~= l);
    out
}

/// Whether a remote copy may be read by a program of the given version.
pub open spec fn readable(floor: Option<Seq<char>>, running: Seq<char>) -> bool {
    floor matches Some(required) ==> satisfies(running, required)
}

/// Whether there is a remote copy that conflicts can be sought in: one with new commits, which
/// this version may read, and whose records carry identities.
pub open spec fn comparable(heads_equal: bool, remote: Option<RemoteCopy>, running: Seq<char>) -> bool {
    !heads_equal && (remote matches Some(c) && readable(c.vault@.floor, running) && c.has_sync_uuid)
}

/// The records of an optional vault.
pub open spec fn secrets_of(v: Option<Vault>) -> Seq<RecordView> {
    match v {
        Some(x) => x@.secrets,
        None => Seq::empty(),
    }
}

/// The conflicts that a sync would settle by change time alone. `remote` is the fetched copy,
/// `None` where there is none that opens under this vault's key; `base` is the copy at the last
/// common commit.
pub fn detect_sync_conflicts(
    heads_equal: bool,
    local: &Vault,
    remote: &Option<RemoteCopy>,
    base: &Option<Vault>,
    key: &[u8; 32],
    running_version: &str,
) -> (out: Vec<ConflictGroup>)
    ensures
        groups(out@) == (if comparable(heads_equal, *remote, running_version@) {
            conflicts_of(local@.secrets, remote->0.vault@.secrets, secrets_of(*base), key@)
        } else {
            Seq::empty()
        }),
        forall|i: int| 0 <= i < out@.len() ==> (#[trigger] out@[i]).wf(),
{
    let none: Vec<ConflictGroup> = Vec::new();
    assert(groups(none@) =~= Seq::empty());
    if heads_equal {
        return none;
    }
    match remote {
        None => none,
        Some(c) => {
            let open_to_us = match &c.vault.min_app_version {
                Some(required) => version_satisfies(running_version, required.as_str()),
                None => true,
            };
            if !open_to_us || !c.has_sync_uuid {
                return none;
            }
            match base {
                Some(b) => find_conflicts(
                    local.secrets.as_slice(),
                    c.vault.secrets.as_slice(),
                    b.secrets.as_slice(),
                    key,
                ),
                None => {
                    let empty: Vec<SecretRecord> = Vec::new();
                    assert(records(empty@) =~= Seq::<RecordView>::empty());
                    find_conflicts(
                        local.secrets.as_slice(),
                        c.vault.secrets.as_slice(),
                        empty.as_slice(),
                        key,
                    )
                },
            }
        },
    }
}

/// Rows as they are read from a copy: a record, and its identity where it has one.
pub open spec fn row_views(v: Seq<(SecretRecord, Option<String>)>) -> Seq<
    (RecordView, Option<Seq<char>>),
> {
    Seq::new(v.len(), |i: int| (v[i].0@, text_opt(v[i].1)))
}

/// The records of the rows that have an identity, in order.
pub open spec fn identified_of(s: Seq<(RecordView, Option<Seq<char>>)>) -> Seq<RecordView>
    decreases s.len(),
{
    if s.len() == 0 {
        Seq::empty()
    } else {
        match s.last().1 {
            Some(u) => identified_of(s.drop_last()).push(RecordView { uuid: u, ..s.last().0 }),
            None => identified_of(s.drop_last()),
        }
    }
}

/// The records of a copy that take part in a merge by identity: a row without one does not.
pub fn identified(rows: &Vec<(SecretRecord, Option<String>)>) -> (out: Vec<SecretRecord>)
    ensures
        records(out@) == identified_of(row_views(rows@)),
{
    let mut out: Vec<SecretRecord> = Vec::new();
    let ghost s = row_views(rows@);
    let mut i: usize = 0;
    assert(s.take(0).len() == 0);
    assert(records(out@) =~= identified_of(s.take(0)));
    while i < rows.len()
        invariant
            i <= rows@.len(),
            s == row_views(rows@),
            records(out@) == identified_of(s.take(i as int)),
        decreases rows@.len() - i,
    {
        proof {
            assert(s[i as int] == (rows@[i as int].0@, text_opt(rows@[i as int].1)));
            assert(s.take(i + 1).drop_last() =~= s.take(i as int));
            assert(s.take(i + 1).last() == s[i as int]);
        }
        if let Some(u) = &rows[i].1 {
            let mut r = rows[i].0.clone();
            r.sync_uuid = u.clone();
            proof {
                lemma_records_push(out@, r);
            }
            out.push(r);
        }
        i += 1;
    }
    assert(s.take(i as int) =~= s);
    out
}

/// Merges a fetched copy that opens under this vault's key: refused where it needs a newer
/// program, by identity where it has them, else by name.
pub fn merge_remote(local: &mut Vault, remote: &RemoteCopy, running_version: &str, cap: usize) -> (r:
    Result<(), String>)
    requires
        old(local)@.wf(),
        remote.wf(),
    ensures
        r is Err ==> *final(local) == *old(local),
        r is Ok ==> final(local)@.wf() && readable(remote.vault@.floor, running_version@),
        !readable(remote.vault@.floor, running_version@) ==> (r matches Err(e) && e@
            == too_old_message(
            "The remote vault"@,
            "sync"@,
            remote.vault@.floor->0,
            running_version@,
        )),
        readable(remote.vault@.floor, running_version@) && remote.has_sync_uuid ==> (r is Ok) == (
        old(local)@.next_id + added(old(local)@, remote.vault@).len() <= i64::MAX),
        r is Ok && remote.has_sync_uuid ==> final(local)@ == merged(
            old(local)@,
            remote.vault@,
            remote.has_history,
            cap as nat,
        ),
        readable(remote.vault@.floor, running_version@) && !remote.has_sync_uuid ==> exists|
            fresh: Seq<Seq<char>>,
        | #[trigger]
            merges_by_name(
                r is Ok,
                final(local)@,
                old(local)@,
                remote.vault@,
                fresh,
                remote.has_history,
                cap as nat,
            ),
        readable(remote.vault@.floor, running_version@) ==> (r matches Err(e) ==> e@ == (
        if remote.has_sync_uuid || old(local)@.next_id + added_by_name(
            old(local)@,
            remote.vault@,
        ).len() > i64::MAX {
            "Database merge transaction failed: database or disk is full"@
        } else {
            "UNIQUE constraint failed: secrets.sync_uuid"@
        })),
{
    match &remote.vault.min_app_version {
        Some(required) => {
            if !version_satisfies(running_version, required.as_str()) {
                return Err(
                    word_too_old("The remote vault", "sync", required.as_str(), running_version),
                );
            }
        },
        None => {},
    }
    if remote.has_sync_uuid {
        merge_vaults(local, &remote.vault, remote.has_history, cap)
    } else {
        merge_by_name_fresh(local, &remote.vault, remote.has_history, cap)
    }
}

/// A text that was encrypted is shown as it was.
pub proof fn law_sealed_text_is_shown(data: Seq<u8>, key: Seq<u8>, text: Seq<char>)
    requires
        crate::crypto::opens_to(data, key, vstd::utf8::encode_utf8(text)),
    ensures
        shown(data, key) == text,
{
    crate::crypto::lemma_text_round_trip(text);
}

/// A record that only one device changed since the last common state is no conflict.
pub proof fn law_one_sided_change_is_no_conflict(
    local: RecordView,
    remote: RecordView,
    base: RecordView,
    key: Seq<u8>,
)
    requires
        plain(local, key) == plain(base, key) || plain(remote, key) == plain(base, key),
    ensures
        !clash(local, remote, Some(base), key),
{
}

/// Whether two versions conflict does not depend on which device looks.
pub proof fn law_conflict_is_mutual(
    a: RecordView,
    b: RecordView,
    base: Option<RecordView>,
    key: Seq<u8>,
)
    ensures
        clash(a, b, base, key) == clash(b, a, base, key),
{
}

} // verus!
