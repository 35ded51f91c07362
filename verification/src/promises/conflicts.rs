//! Changes that two devices made to the same record, and how the user settles them.
use vstd::prelude::*;

use crate::conflicts::{
    conflicting, conflicts_of, find_conflicts, groups, plain, shown, shown_opt, ConflictGroup,
};
use crate::crypto::sealable;
use crate::db::records::{find_uuid, records, RecordView, SecretRecord, Vault};
use crate::keys::KeyCode;
use crate::lists::lemma_filter_members;
use crate::modals::{
    handle_sync_conflict_input, resolve_conflict, Choice, ConflictOutcome, ConflictScreen,
};
use crate::promises::records::{else_untouched, reads};

verus! {

/// Whether a record holds what a version does, payloads included, as of the given time.
pub open spec fn holds_version(n: RecordView, s: RecordView, now: Seq<char>) -> bool {
    &&& n.title == s.title
    &&& n.category == s.category
    &&& n.username == s.username
    &&& n.url == s.url
    &&& n.password == s.password
    &&& n.notes == s.notes
    &&& n.updated_at == now
}

/// Whether a record shows its user under a key what a version does.
pub open spec fn shows_version(n: RecordView, s: RecordView, key: Seq<u8>) -> bool {
    &&& n.title == s.title
    &&& n.category == s.category
    &&& n.username == s.username
    &&& n.url == s.url
    &&& shown(n.password, key) == shown(s.password, key)
    &&& shown_opt(n.notes, key) == shown_opt(s.notes, key)
}

/// A conflict that is settled for the local version leaves the record with that version, one
/// settled for the remote version with that one; either way it is newer than both, keeps its
/// identity, and no other record changes.
pub proof fn law_chosen_version_is_kept(
    vault: &mut Vault,
    c: &ConflictGroup,
    choice: Choice,
    key: &Option<[u8; 32]>,
    now: &str,
    i: int,
    k: Seq<u8>,
)
    requires
        call_ensures(resolve_conflict, (vault, c, choice, key, now), ()),
        0 <= i < old(vault)@.secrets.len(),
    ensures
        final(vault)@.secrets.len() == old(vault)@.secrets.len(),
        else_untouched(final(vault)@, old(vault)@),
        old(vault)@.secrets[i].id != c.local_secret.id ==> final(vault)@.secrets[i]
            == old(vault)@.secrets[i],
        final(vault)@.secrets[i].id == old(vault)@.secrets[i].id,
        final(vault)@.secrets[i].uuid == old(vault)@.secrets[i].uuid,
        old(vault)@.secrets[i].id == c.local_secret.id && choice == Choice::KeepLocal
            ==> holds_version(final(vault)@.secrets[i], c.local_secret@, now@) && shows_version(
            final(vault)@.secrets[i],
            c.local_secret@,
            k,
        ),
        old(vault)@.secrets[i].id == c.local_secret.id && choice == Choice::KeepRemote
            ==> holds_version(final(vault)@.secrets[i], c.remote_secret@, now@) && shows_version(
            final(vault)@.secrets[i],
            c.remote_secret@,
            k,
        ),
{
}

/// Where two versions differ in what they hold, the two choices leave different records.
pub proof fn law_the_choice_matters(
    a: &mut Vault,
    b: &mut Vault,
    c: &ConflictGroup,
    key: &Option<[u8; 32]>,
    now: &str,
    i: int,
)
    requires
        old(a)@ == old(b)@,
        call_ensures(resolve_conflict, (a, c, Choice::KeepLocal, key, now), ()),
        call_ensures(resolve_conflict, (b, c, Choice::KeepRemote, key, now), ()),
        0 <= i < old(a)@.secrets.len(),
        old(a)@.secrets[i].id == c.local_secret.id,
        !holds_version(c.local_secret@, c.remote_secret@, c.local_secret@.updated_at),
    ensures
        final(a)@.secrets[i] != final(b)@.secrets[i],
{
}

/// Merging the notes of a conflict keeps the local version, with notes that read as the local
/// ones, a rule, and the remote ones, or as the ones of the side that has some.
pub proof fn law_merged_notes_hold_both(
    vault: &mut Vault,
    c: &ConflictGroup,
    k: [u8; 32],
    now: &str,
    i: int,
    a: Seq<char>,
    b: Seq<char>,
)
    requires
        call_ensures(resolve_conflict, (vault, c, Choice::MergeNotes, &Some(k), now), ()),
        0 <= i < old(vault)@.secrets.len(),
        old(vault)@.secrets[i].id == c.local_secret.id,
        a == shown_opt(c.local_secret@.notes, k@),
        b == shown_opt(c.remote_secret@.notes, k@),
        sealable(vstd::utf8::encode_utf8(a + "\n---\n"@ + b)),
        sealable(vstd::utf8::encode_utf8(a)),
        sealable(vstd::utf8::encode_utf8(b)),
    ensures
        holds_version(
            RecordView { notes: c.local_secret@.notes, ..final(vault)@.secrets[i] },
            c.local_secret@,
            now@,
        ),
        a.len() > 0 && b.len() > 0 ==> final(vault)@.secrets[i].notes is Some && reads(
            final(vault)@.secrets[i].notes->0,
            k@,
            a + "\n---\n"@ + b,
        ),
        a.len() > 0 && b.len() == 0 ==> final(vault)@.secrets[i].notes is Some && reads(
            final(vault)@.secrets[i].notes->0,
            k@,
            a,
        ),
        a.len() == 0 && b.len() > 0 ==> final(vault)@.secrets[i].notes is Some && reads(
            final(vault)@.secrets[i].notes->0,
            k@,
            b,
        ),
        a.len() == 0 && b.len() == 0 ==> final(vault)@.secrets[i].notes is None,
{
}

/// Without the key nothing can be merged, and nothing changes.
pub proof fn law_notes_are_not_merged_without_the_key(vault: &mut Vault, c: &ConflictGroup, now: &str)
    requires
        call_ensures(resolve_conflict, (vault, c, Choice::MergeNotes, &None, now), ()),
    ensures
        final(vault)@ == old(vault)@,
{
}

/// On the conflicts screen `l` and the left arrow keep the local version of the selected
/// conflict, `r` and the right arrow the remote one; the conflict is then gone from the list, and
/// the others are still there.
pub proof fn law_keys_settle_for_their_side(
    s: &mut ConflictScreen,
    vault: &mut Vault,
    key: &Option<[u8; 32]>,
    code: KeyCode,
    now: &str,
    o: ConflictOutcome,
    i: int,
)
    requires
        old(s).wf(),
        old(s).conflicts@.len() > 0,
        call_ensures(handle_sync_conflict_input, (s, vault, key, code, now), o),
        0 <= i < old(vault)@.secrets.len(),
        old(vault)@.secrets[i].id == old(s).conflicts@[old(s).selected as int].local_secret.id,
    ensures
        code == KeyCode::Char('l') || code == KeyCode::Left ==> holds_version(
            final(vault)@.secrets[i],
            old(s).conflicts@[old(s).selected as int].local_secret@,
            now@,
        ),
        code == KeyCode::Char('r') || code == KeyCode::Right ==> holds_version(
            final(vault)@.secrets[i],
            old(s).conflicts@[old(s).selected as int].remote_secret@,
            now@,
        ),
        code == KeyCode::Char('l') || code == KeyCode::Left || code == KeyCode::Char('r') || code
            == KeyCode::Right || code == KeyCode::Char('m') ==> {
            &&& final(s).conflicts@ == old(s).conflicts@.remove(old(s).selected as int)
            &&& o == ConflictOutcome::ResolvedAll <==> final(s).conflicts@.len() == 0
        },
        code == KeyCode::Esc || code == KeyCode::Char('q') ==> *final(vault) == *old(vault) && o
            == ConflictOutcome::Postponed,
        code == KeyCode::Up || code == KeyCode::Down ==> *final(vault) == *old(vault)
            && final(s).conflicts@ == old(s).conflicts@,
{
}

/// Whether a user sees a difference between two records.
pub open spec fn differ(a: RecordView, b: RecordView, key: Seq<u8>) -> bool {
    ||| a.title != b.title
    ||| a.category != b.category
    ||| a.username != b.username
    ||| a.url != b.url
    ||| shown(a.password, key) != shown(b.password, key)
    ||| shown_opt(a.notes, key) != shown_opt(b.notes, key)
}

/// A record is in conflict exactly where the remote copy has it too, the two show different
/// things, and both differ from the last common version if there is one. Each conflict pairs
/// the versions of one record.
pub proof fn law_conflicts_are_double_changes(
    local: &[SecretRecord],
    remote: &[SecretRecord],
    base: &[SecretRecord],
    key: &[u8; 32],
    out: Vec<ConflictGroup>,
    i: int,
    j: int,
)
    requires
        call_ensures(find_conflicts, (local, remote, base, key), out),
        crate::db::records::uuids_distinct(records(remote@)),
        crate::db::records::uuids_distinct(records(base@)),
        0 <= i < local@.len(),
        0 <= j < remote@.len(),
        local@[i]@.uuid == remote@[j]@.uuid,
    ensures
        (exists|k: int|
            0 <= k < out@.len() && (#[trigger] out@[k]).local_secret@ == local@[i]@
                && out@[k].remote_secret@ == remote@[j]@) <==> differ(
            local@[i]@,
            remote@[j]@,
            key@,
        ) && forall|b: int|
            0 <= b < base@.len() && (#[trigger] base@[b])@.uuid == local@[i]@.uuid ==> differ(
                local@[i]@,
                base@[b]@,
                key@,
            ) && differ(remote@[j]@, base@[b]@, key@),
{
    let l = records(local@);
    let r = records(remote@);
    let b = records(base@);
    let s = l[i];
    let p = |s: RecordView| conflicting(s, r, b, key@);
    lemma_filter_members(l, p);
    let hit = l.filter(p);
    assert(s == local@[i]@);
    assert(r[j] == remote@[j]@);
    lemma_find_uuid(r, s.uuid, j);
    assert forall|x: int| 0 <= x < base@.len() && (#[trigger] base@[x])@.uuid == s.uuid implies find_uuid(
        b,
        s.uuid,
    ) == Some(base@[x]@) by {
        assert(b[x] == base@[x]@);
        lemma_find_uuid(b, s.uuid, x);
    }
    lemma_find_uuid_some(b, s.uuid);
    if find_uuid(b, s.uuid) is Some {
        let x = choose|x: int| 0 <= x < b.len() && #[trigger] b[x] == find_uuid(b, s.uuid)->0;
        assert(b[x] == base@[x]@);
    }
    let both = differ(s, r[j], key@) && forall|x: int|
        0 <= x < base@.len() && (#[trigger] base@[x])@.uuid == s.uuid ==> differ(
            s,
            base@[x]@,
            key@,
        ) && differ(r[j], base@[x]@, key@);
    assert(plain(s, key@) != plain(r[j], key@) <==> differ(s, r[j], key@));
    if find_uuid(b, s.uuid) is Some {
        let base_one = find_uuid(b, s.uuid)->0;
        assert(plain(s, key@) != plain(base_one, key@) <==> differ(s, base_one, key@));
        assert(plain(r[j], key@) != plain(base_one, key@) <==> differ(r[j], base_one, key@));
    }
    assert(p(s) <==> both);
    let g = groups(out@);
    assert(g == conflicts_of(l, r, b, key@));
    assert(g.len() == out@.len());
    assert(g.len() == hit.len());
    if both {
        assert(l.contains(s));
        assert(hit.contains(s));
        let k = choose|k: int| 0 <= k < hit.len() && hit[k] == s;
        assert(g[k] == out@[k]@);
    }
    if exists|k: int|
        0 <= k < out@.len() && (#[trigger] out@[k]).local_secret@ == s && out@[k].remote_secret@
            == remote@[j]@ {
        let k = choose|k: int|
            0 <= k < out@.len() && (#[trigger] out@[k]).local_secret@ == s && out@[k].remote_secret@
                == remote@[j]@;
        assert(g[k] == out@[k]@);
        assert(hit[k] == s);
        assert(hit.contains(s));
    }
}

proof fn lemma_find_uuid(s: Seq<RecordView>, uuid: Seq<char>, i: int)
    requires
        crate::db::records::uuids_distinct(s),
        0 <= i < s.len(),
        s[i].uuid == uuid,
    ensures
        find_uuid(s, uuid) == Some(s[i]),
    decreases s.len(),
{
    if i > 0 {
        assert(s[0].uuid != s[i].uuid);
        let d = s.drop_first();
        assert forall|a: int, b: int| 0 <= a < b < d.len() implies (#[trigger] d[a]).uuid != (
        #[trigger] d[b]).uuid by {
            assert(d[a] == s[a + 1] && d[b] == s[b + 1]);
        }
        assert(d[i - 1] == s[i]);
        lemma_find_uuid(d, uuid, i - 1);
    }
}

proof fn lemma_find_uuid_some(s: Seq<RecordView>, uuid: Seq<char>)
    ensures
        find_uuid(s, uuid) matches Some(x) ==> x.uuid == uuid && exists|k: int|
            0 <= k < s.len() && #[trigger] s[k] == x,
    decreases s.len(),
{
    if s.len() > 0 && s[0].uuid != uuid {
        let d = s.drop_first();
        lemma_find_uuid_some(d, uuid);
        if find_uuid(d, uuid) is Some {
            let k = choose|k: int| 0 <= k < d.len() && #[trigger] d[k] == find_uuid(d, uuid)->0;
            assert(s[k + 1] == d[k]);
        }
    } else if s.len() > 0 {
        assert(s[0] == find_uuid(s, uuid)->0);
    }
}

} // verus!
