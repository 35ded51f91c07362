//! A sync over a remote repository, step by step.
use vstd::prelude::*;

use crate::conflicts::{detect_sync_conflicts, find_conflicts, groups, ConflictGroup, RemoteCopy};
use crate::db::records::{records, HistoryView, RecordView, SecretRecord, TombstoneView, Vault};
use crate::history::{maybe_squash_history, SquashEvent, SquashSession};
use crate::lists::lemma_filter_members;
use crate::promises::unlocking::magic;
use crate::sync::{
    advance, after, after_all, begun, conclude, describe, file_head, git_args,
    git_sync_vault_with_retention, is_plaintext_magic, law_sync_keeps_its_invariant,
    prune_and_checkpoint, vault_paths_dirty, Phase, Rotation, SyncEvent, SyncResult, SyncSession,
};
use crate::sync_setup::{
    advance_setup, conclude_setup, setup_args, setup_sync_repo, SetupEvent, SetupPhase, SetupResult,
    SetupSession, SetupStep,
};
use crate::text::{decimal, lex_lt, texts, unsigned_value};

verus! {

/// Whether an event, where the session stands, settles what becomes of the remote copy: there is
/// none, or its head is this one's, or it was merged, or it is known to be older than this
/// vault's own history, or it was saved.
pub open spec fn settles(p: Phase, e: SyncEvent) -> bool {
    ||| p is Extract && (e matches SyncEvent::Extracted { has_remote, vault_exists } && !has_remote)
    ||| p is Heads && (e matches SyncEvent::HeadsSeen {
        local: Some(a),
        remote: Some(b),
        vault_exists: true,
    } && a@ == b@)
    ||| p is Merge && (e matches SyncEvent::Finished { result: Ok(_) })
    ||| p is Ancestor && (e matches SyncEvent::Answer { yes: true })
    ||| p is Backup && e is BackedUp
}

/// Whether one of the events settled what becomes of the remote copy.
pub open spec fn was_settled(retention: u64, events: Seq<SyncEvent>) -> bool {
    exists|i: int|
        0 <= i < events.len() && settles(
            after_all(begun(retention), events.take(i)).phase,
            #[trigger] events[i],
        )
}

/// Whether a session is past the point where the remote copy matters.
pub open spec fn past_remote(p: Phase) -> bool {
    p is QuickCheckpoint || p is QuickDirty || p is Reset || p is Checkpoint || p is Dirty || p is Stage
        || p is DropSidecar || p is Index || p is Commit || p is Push || p is Squash
}

/// The remote copy is never pushed over unseen: whenever a sync stages, commits or pushes, or is
/// about to, the copy was merged, or saved, or found to be older, or there is none.
pub proof fn law_remote_copy_is_never_ignored(retention: u64, events: Seq<SyncEvent>)
    ensures
        past_remote(after_all(begun(retention), events).phase) || after_all(
            begun(retention),
            events,
        ).staged || after_all(begun(retention), events).committed || after_all(
            begun(retention),
            events,
        ).pushed ==> was_settled(retention, events),
    decreases events.len(),
{
    if events.len() > 0 {
        let d = events.drop_last();
        let e = events.last();
        let n = events.len() - 1;
        law_remote_copy_is_never_ignored(retention, d);
        law_sync_keeps_its_invariant(retention, d);
        let s = after_all(begun(retention), d);
        assert(events.take(n) =~= d);
        if was_settled(retention, d) {
            let i = choose|i: int|
                0 <= i < d.len() && settles(
                    after_all(begun(retention), d.take(i)).phase,
                    #[trigger] d[i],
                );
            assert(events.take(i) =~= d.take(i));
            assert(events[i] == d[i]);
            assert(was_settled(retention, events));
        }
        if settles(s.phase, e) {
            assert(events[n] == e);
            assert(was_settled(retention, events));
        }
    }
}

/// A copy that opens under this vault's key is merged; where the merge fails, so does the sync,
/// and nothing is pushed. One that does not open is never merged.
pub proof fn law_readable_copies_are_merged(s: SyncSession, e: SyncEvent, r: SyncSession)
    requires
        call_ensures(advance, (s, e), r),
    ensures
        s.phase is Open && e == (SyncEvent::Answer { yes: true }) ==> r.phase is Merge,
        r.phase is Merge && !(s.phase is Merge) ==> s.phase is Open && e == (SyncEvent::Answer {
            yes: true,
        }),
        s.phase is Merge && (e matches SyncEvent::Finished { result: Err(x) }) ==> (
        r.phase matches Phase::Done { result: SyncResult::MergeFailed { error }, note }) && r.pushed
            == s.pushed,
        s.phase is Extract && (e matches SyncEvent::Extracted { has_remote: true, vault_exists: true })
            ==> r.phase is Open,
        s.phase is Extract && (e matches SyncEvent::Extracted { has_remote: true, vault_exists: false })
            ==> r.phase is Restore,
        s.phase is Restore && (e matches SyncEvent::Finished { result: Err(x) }) ==> (
        r.phase matches Phase::Done { result: SyncResult::RestoreFailed { error }, note }),
        s.phase is Restore && (e matches SyncEvent::Finished { result: Ok(x) }) ==> r.phase
            is RestoreSidecar,
        s.phase is RestoreSidecar && e is Performed ==> (
        r.phase matches Phase::Done { result: SyncResult::Restored, note }),
        s.phase is Open && e == (SyncEvent::Answer { yes: false }) ==> r.phase is Salts,
{
}

/// A copy that does not open and was made under another salt is one whose password was changed:
/// unless it is older than this vault's own history the sync is refused, with the device that
/// changed it. Any other copy that does not open is saved.
pub proof fn law_foreign_passwords_are_respected(s: SyncSession, e: SyncEvent, r: SyncSession)
    requires
        call_ensures(advance, (s, e), r),
    ensures
        s.phase is Salts && (e matches SyncEvent::SaltsSeen {
            remote_salt: Some(a),
            local_salt: Some(b),
        } && a@ != magic() && a@ != b@) ==> r.phase is Ancestor,
        s.phase is Salts && (e matches SyncEvent::SaltsSeen {
            remote_salt: Some(a),
            local_salt: Some(b),
        } && a@ != magic() && a@ == b@) ==> r.phase == (Phase::Backup { plaintext: false }),
        s.phase is Salts && (e matches SyncEvent::SaltsSeen { remote_salt: Some(a), local_salt } && a@
            == magic()) ==> r.phase == (Phase::Backup { plaintext: true }),
        s.phase is Ancestor && e == (SyncEvent::Answer { yes: false }) ==> r.phase is HeadSalt,
        (s.phase matches Phase::HeadSalt { remote, local } && e matches SyncEvent::HeadSaltSeen { salt })
            ==> (r.phase matches Phase::Done { result: SyncResult::Refused { rotation }, note }),
        (s.phase matches Phase::HeadSalt { remote, local } && e matches SyncEvent::HeadSaltSeen {
            salt: Some(h),
        } && h@ == local@) ==> r.phase == (Phase::Done {
            result: SyncResult::Refused { rotation: Rotation::OtherDevice },
            note: None,
        }),
        (s.phase matches Phase::HeadSalt { remote, local } && e matches SyncEvent::HeadSaltSeen {
            salt: Some(h),
        } && h@ != local@ && h@ == remote@) ==> r.phase == (Phase::Done {
            result: SyncResult::Refused { rotation: Rotation::ThisDevice },
            note: None,
        }),
        (s.phase matches Phase::HeadSalt { remote, local } && e matches SyncEvent::HeadSaltSeen {
            salt: Some(h),
        } && h@ != local@ && h@ != remote@) ==> r.phase == (Phase::Done {
            result: SyncResult::Refused { rotation: Rotation::BothDevices },
            note: None,
        }),
        (s.phase matches Phase::Backup { plaintext } && e matches SyncEvent::BackedUp { path: Some(p) })
            ==> r.phase is Reset && (r.backup matches Some(b) && b.0 == e->path->0),
{
}

/// What has changed is staged, committed and pushed, in this order, and a step that fails ends
/// the sync; what has not changed is not committed.
pub proof fn law_changes_are_pushed(s: SyncSession, e: SyncEvent, r: SyncSession)
    requires
        call_ensures(advance, (s, e), r),
    ensures
        s.phase is Dirty && e == (SyncEvent::DirtySeen { outcome: Ok(true) }) ==> r.phase is Stage,
        s.phase is Dirty && e == (SyncEvent::DirtySeen { outcome: Ok(false) }) ==> r.phase is Push,
        s.phase is QuickDirty && e == (SyncEvent::DirtySeen { outcome: Ok(true) }) ==> r.phase
            is Dirty,
        s.phase is QuickDirty && e == (SyncEvent::DirtySeen { outcome: Ok(false) }) ==> r.phase == (
        Phase::Squash { result: SyncResult::UpToDate }),
        s.phase is Stage && e == (SyncEvent::Ran { outcome: Ok(true) }) ==> r.phase is DropSidecar
            && r.staged,
        s.phase is Index && e == (SyncEvent::Answer { yes: false }) ==> r.phase is Commit,
        s.phase is Index && e == (SyncEvent::Answer { yes: true }) ==> r.phase is Push,
        s.phase is Commit && e == (SyncEvent::Ran { outcome: Ok(true) }) ==> r.phase is Push
            && r.committed,
        s.phase is Push && e == (SyncEvent::Ran { outcome: Ok(true) }) ==> r.phase is Squash && r.pushed,
        (s.phase is Stage || s.phase is Commit || s.phase is Push || s.phase is Reset) && e == (
        SyncEvent::Ran { outcome: Ok(false) }) ==> r.phase is Done && r.pushed == s.pushed,
        s.phase is Fetch && e == (SyncEvent::Ran { outcome: Ok(true) }) ==> r.phase is Heads,
        s.phase is Fetch && e == (SyncEvent::Ran { outcome: Ok(false) }) ==> r.phase is Probe,
        s.phase is Probe && e == (SyncEvent::Answer { yes: false }) ==> r.phase == (Phase::Done {
            result: SyncResult::Unreachable,
            note: None,
        }),
        s.phase is Reset && e == (SyncEvent::Ran { outcome: Ok(true) }) ==> r.phase is Checkpoint,
        r.pushed && !s.pushed ==> s.phase is Push,
        r.committed && !s.committed ==> s.phase is Commit,
{
}

/// A sync starts by looking at the directory: without one, or without a repository, it ends
/// there.
pub proof fn law_sync_needs_a_repository(
    keep: u64,
    s: SyncSession,
    dir: Option<String>,
    configured: bool,
    ignored: bool,
    r: SyncSession,
)
    requires
        call_ensures(git_sync_vault_with_retention, (keep,), s),
        call_ensures(advance, (s, SyncEvent::SetupSeen { dir, configured, ignored }), r),
    ensures
        s.retention == keep,
        !s.pushed && !s.committed && !s.staged && s.backup is None,
        dir is None ==> r.phase == (Phase::Done { result: SyncResult::NoDirectory, note: None }),
        dir matches Some(d) ==> (!configured ==> r.phase == (Phase::Done {
            result: SyncResult::NotConfigured { dir: d },
            note: None,
        })),
        dir is Some && configured && !ignored ==> r.phase is WriteIgnore,
        dir is Some && configured && ignored ==> r.phase is Fetch,
{
}

/// A sync that succeeded is reported as a success, any other as an error; a note follows the
/// report.
pub proof fn law_reports_tell_success_from_failure(
    result: &SyncResult,
    note: &Option<String>,
    r: Result<String, String>,
    text: String,
)
    requires
        call_ensures(conclude, (result, note), r),
        call_ensures(describe, (result,), text),
    ensures
        r is Ok <==> *result is UpToDate || *result is Restored || *result is Merged || *result
            is PushedOverRemote,
        r matches Err(e) ==> e@ == text@,
        r matches Ok(t) ==> t@ == (match *note {
            Some(n) => text@ + n@,
            None => text@,
        }),
{
}

/// Before a sync, tombstones from before the given time and past passwords of no record go; the
/// records stay.
pub proof fn law_housekeeping_spares_the_records(vault: &mut Vault, cutoff: &str, t: TombstoneView, h: HistoryView)
    requires
        call_ensures(prune_and_checkpoint, (vault, cutoff), ()),
    ensures
        final(vault)@.secrets == old(vault)@.secrets,
        final(vault)@.tombstones.contains(t) <==> old(vault)@.tombstones.contains(t) && !lex_lt(
            t.deleted_at,
            cutoff@,
        ),
        final(vault)@.history.contains(h) <==> old(vault)@.history.contains(h) && exists|i: int|
            0 <= i < old(vault)@.secrets.len() && (#[trigger] old(vault)@.secrets[i]).uuid == h.uuid,
{
    let v = old(vault)@;
    lemma_filter_members(v.tombstones, |t: TombstoneView| !lex_lt(t.deleted_at, cutoff@));
    lemma_filter_members(
        v.history,
        |e: HistoryView| crate::db::records::has_uuid(v.secrets, e.uuid),
    );
    assert(crate::db::records::has_uuid(v.secrets, h.uuid) <==> exists|i: int|
        0 <= i < v.secrets.len() && (#[trigger] v.secrets[i]).uuid == h.uuid);
}

/// No conflicts are sought where nothing is new, where there is no copy, or where the copy needs
/// a newer program or has no identities.
pub proof fn law_conflicts_need_a_newer_copy(
    same: bool,
    local: &Vault,
    remote: &Option<RemoteCopy>,
    base: &Option<Vault>,
    key: &[u8; 32],
    version: &str,
    out: Vec<ConflictGroup>,
)
    requires
        call_ensures(detect_sync_conflicts, (same, local, remote, base, key, version), out),
    ensures
        same || *remote is None || !(*remote)->0.has_sync_uuid ==> out@.len() == 0,
        *remote is Some && ((*remote)->0.vault.min_app_version matches Some(f)
            && !crate::db::version::satisfies(version@, f@)) ==> out@.len() == 0,
{
    assert(groups(out@).len() == out@.len());
}

/// Only the vault's file is ever staged, only `main` of `origin` is fetched and pushed, and a
/// sync never forces a push.
pub proof fn law_git_is_asked_for_the_vault_only(p: &Phase, v: Option<Vec<String>>)
    requires
        call_ensures(git_args, (p,), v),
    ensures
        *p is Stage ==> v is Some && texts(v->0@) == seq!["add"@, "vault.db"@],
        *p is Push ==> v is Some && texts(v->0@) == seq!["push"@, "origin"@, "main"@],
        *p is Fetch ==> v is Some && texts(v->0@) == seq!["fetch"@, "origin"@, "main"@],
        *p is Extract ==> v is Some && texts(v->0@) == seq!["show"@, "origin/main:vault.db"@],
        *p is Reset ==> v is Some && texts(v->0@) == seq!["reset"@, "origin/main"@],
        *p is HeadSalt ==> v is Some && texts(v->0@) == seq!["show"@, "HEAD:vault.db"@],
        *p is Ancestor ==> v is Some && texts(v->0@) == seq![
            "merge-base"@,
            "--is-ancestor"@,
            "origin/main"@,
            "HEAD"@,
        ],
        *p is Dirty || *p is QuickDirty ==> v is Some && texts(v->0@) == seq![
            "status"@,
            "--porcelain"@,
            "--"@,
            "vault.db"@,
            "vault.salt"@,
        ],
        *p is DropSidecar ==> v is Some && texts(v->0@) == seq![
            "rm"@,
            "--cached"@,
            "--ignore-unmatch"@,
            "-f"@,
            "vault.salt"@,
        ],
        *p is Index ==> v is Some && texts(v->0@) == seq!["diff"@, "--cached"@, "--quiet"@],
        *p is Commit ==> v is Some && v->0@.len() == 3 && texts(v->0@)[0] == "commit"@,
        *p is Restore || *p is Merge || *p is Backup || *p is Done ==> v is None,
{
    if v is Some {
        assert(texts(v->0@).len() == v->0@.len());
    }
}

/// The changes that a status names are changes, and nothing is none; a head is the first sixteen
/// bytes of a file that has as many, and an unencrypted one is known by them.
pub proof fn law_files_are_told_by_their_heads(
    stdout: &[u8],
    dirty: bool,
    h: Option<[u8; 16]>,
    head: &[u8; 16],
    plain: bool,
)
    requires
        call_ensures(vault_paths_dirty, (stdout,), dirty),
        call_ensures(file_head, (stdout,), h),
        call_ensures(is_plaintext_magic, (head,), plain),
    ensures
        dirty <==> stdout@.len() > 0,
        h is Some <==> stdout@.len() >= 16,
        h matches Some(x) ==> x@ == stdout@.subrange(0, 16),
        plain <==> head@ == magic(),
{
    if h is Some {
        assert(stdout@.take(16) =~= stdout@.subrange(0, 16));
    }
}

/// History is squashed only where a limit is set and there are more snapshots than it; what
/// cannot be counted is left alone.
pub proof fn law_history_is_squashed_beyond_the_limit_only(
    keep: u64,
    s: SquashSession,
    r: &mut SquashSession,
    text: String,
)
    requires
        call_ensures(maybe_squash_history, (keep,), s),
        *old(r) == s,
        call_ensures(
            SquashSession::step,
            (r, SquashEvent::Output { text: Some(text) }),
            (),
        ),
    ensures
        s.keep == keep,
        keep == 0 ==> s.phase is Done && final(r).phase is Done,
        keep > 0 ==> s.phase is Count,
        keep > 0 ==> (final(r).phase is OldHead <==> (unsigned_value(text@, u64::MAX as nat) matches Some(n)
            && n > keep)),
        keep > 0 && !(final(r).phase is OldHead) ==> final(r).phase is Done && final(r).note is None,
{
    assert(s@.phase == s.phase && final(r)@.phase == final(r).phase);
    assert(crate::db::records::text_opt(final(r).note) == final(r)@.note);
}

/// A history that the remote refuses is restored: what was noted as the head is reset to. One
/// that it takes holds the newest snapshots, as many as were asked for.
pub proof fn law_refused_history_is_restored(
    s: &mut SquashSession,
    r: SquashSession,
    v: Vec<String>,
)
    requires
        old(s)@.wf(),
        old(s).phase is ForcePush,
        call_ensures(SquashSession::step, (s, SquashEvent::Answer { yes: false }), ()),
        r == *final(s),
        call_ensures(SquashSession::git_args, (&r,), v),
    ensures
        r.phase is Undo,
        texts(v@) == seq!["reset"@, "--soft"@, old(s).old_head@],
{
    assert(r@ == final(s)@);
    assert(r@.phase == r.phase);
}

/// The commit behind which history is cut is the oldest of those to keep, and each commit after
/// it is made again, one upon the other.
pub proof fn law_squashing_keeps_the_newest_snapshots(s: &SquashSession, v: Vec<String>)
    requires
        s@.wf(),
        call_ensures(SquashSession::git_args, (s,), v),
    ensures
        s.phase is Horizon ==> texts(v@) == seq!["rev-parse"@, "HEAD~"@ + decimal((s.keep - 1) as nat)],
        s.phase is Newer ==> texts(v@) == seq!["rev-list"@, "--reverse"@, s.horizon@ + "..HEAD"@],
        s.phase is Rebuild ==> v@.len() == 6 && texts(v@)[0] == "commit-tree"@ && texts(v@)[1]
            == s.commits@[s.done as int]@ + "^{tree}"@ && texts(v@)[2] == "-p"@ && texts(v@)[3]
            == s.parent@ && texts(v@)[5] == s.subject@,
        s.phase is SoftReset ==> texts(v@) == seq!["reset"@, "--soft"@, s.parent@],
        s.phase is ForcePush ==> texts(v@) == seq!["push"@, "--force-with-lease"@, "origin"@, "main"@],
{
    assert(texts(v@).len() == v@.len());
    if s.phase is Rebuild {
        assert(s@.commits[s@.done] == s.commits@[s.done as int]@);
    }
}

/// The setup of a sync pushes from the first device and pulls on any other, never touches an
/// existing repository, and ends where a step fails.
pub proof fn law_setup_follows_the_device(
    url: String,
    first: bool,
    s: SetupSession,
    has_dir: bool,
    has_git: bool,
    vault: bool,
    r: SetupSession,
)
    requires
        call_ensures(setup_sync_repo, (url, first), s),
        call_ensures(
            advance_setup,
            (s, SetupEvent::Seen { has_dir, has_git, vault_exists: vault }),
            r,
        ),
    ensures
        r.first_device == first && r.remote_url == url,
        !has_dir ==> r.phase == (SetupPhase::Done { result: SetupResult::NoDirectory }),
        has_dir && has_git ==> r.phase == (SetupPhase::Done { result: SetupResult::AlreadyRepository }),
        has_dir && !has_git && first && !vault ==> r.phase == (SetupPhase::Done {
            result: SetupResult::NoVault,
        }),
        has_dir && !has_git && !first && vault ==> r.phase == (SetupPhase::Done {
            result: SetupResult::VaultExists,
        }),
        has_dir && !has_git && first == vault ==> r.phase == (SetupPhase::Run { step: SetupStep::Init }),
{
}

/// Behind a remote that answers the first device adds, commits and pushes its vault, and any
/// other pulls one.
pub proof fn law_setup_pushes_or_pulls(s: SetupSession, e: SetupEvent, r: SetupSession)
    requires
        call_ensures(advance_setup, (s, e), r),
    ensures
        s.phase is Probe && e == (SetupEvent::Ran { outcome: Ok(true) }) ==> r.phase == (
        SetupPhase::Run {
            step: if s.first_device {
                SetupStep::Add
            } else {
                SetupStep::Pull
            },
        }),
        s.phase is Probe && e == (SetupEvent::Ran { outcome: Ok(false) }) ==> (
        r.phase matches SetupPhase::Done { result: SetupResult::Unreachable { url } }),
        s.phase == (SetupPhase::Run { step: SetupStep::Add }) && e == (SetupEvent::Ran {
            outcome: Ok(true),
        }) ==> r.phase == (SetupPhase::Run { step: SetupStep::Commit }),
        s.phase == (SetupPhase::Run { step: SetupStep::Commit }) && e == (SetupEvent::Ran {
            outcome: Ok(true),
        }) ==> r.phase == (SetupPhase::Run { step: SetupStep::Push }),
        s.phase == (SetupPhase::Run { step: SetupStep::Push }) && e == (SetupEvent::Ran {
            outcome: Ok(true),
        }) ==> r.phase == (SetupPhase::Done { result: SetupResult::FirstDeviceReady }),
        s.phase == (SetupPhase::Run { step: SetupStep::Pull }) && e == (SetupEvent::Ran {
            outcome: Ok(true),
        }) ==> r.phase is CheckVault,
        s.phase is CheckVault && e == (SetupEvent::Answer { yes: true }) ==> r.phase == (
        SetupPhase::Done { result: SetupResult::AdditionalDeviceReady }),
        s.phase is CheckVault && e == (SetupEvent::Answer { yes: false }) ==> r.phase == (
        SetupPhase::Done { result: SetupResult::NothingPulled }),
        s.phase is Run && e == (SetupEvent::Ran { outcome: Ok(false) }) ==> r.phase is Done && !(
        r.phase == (SetupPhase::Done { result: SetupResult::FirstDeviceReady }) || r.phase == (
        SetupPhase::Done { result: SetupResult::AdditionalDeviceReady })),
{
}

/// A setup that went through is reported as a success, any other as an error.
pub proof fn law_setup_reports_success(result: &SetupResult, r: Result<String, String>)
    requires
        call_ensures(conclude_setup, (result,), r),
    ensures
        r is Ok <==> *result is FirstDeviceReady || *result is AdditionalDeviceReady,
{
}

/// A history is squashed step by step: the head is noted, the oldest commit to keep is found, a
/// new root is made of it, the commits behind it are listed and made again one upon the other,
/// and the last of them becomes the head. Where a step fails all is left as it is.
pub proof fn law_squashing_goes_step_by_step(
    s: &mut SquashSession,
    text: Option<String>,
    before: SquashSession,
)
    requires
        *old(s) == before,
        before@.wf(),
        call_ensures(SquashSession::step, (s, SquashEvent::Output { text }), ()),
    ensures
        text is Some && before.phase is OldHead ==> final(s).phase is Horizon && final(s).old_head@
            == text->0@,
        text is Some && before.phase is Horizon ==> final(s).phase is Root && final(s).horizon@
            == text->0@ && final(s).old_head@ == before.old_head@,
        text is Some && before.phase is Root ==> final(s).phase is Newer && final(s).parent@ == text->0@,
        text is Some && before.phase is Newer ==> texts(final(s).commits@) == crate::text::lines(
            text->0@,
        ) && final(s).done == 0,
        text is Some && before.phase is Subject ==> final(s).phase is Rebuild && final(s).subject@
            == text->0@,
        text is Some && before.phase is Rebuild ==> final(s).parent@ == text->0@ && final(s).done
            == before.done + 1 && (final(s).phase is SoftReset <==> before.done + 1
            == before.commits@.len()),
        text is None && (before.phase is OldHead || before.phase is Horizon || before.phase is Root
            || before.phase is Newer || before.phase is Rebuild) ==> final(s).phase is Done
            && final(s).note is None,
{
    let a = before@;
    let b = final(s)@;
    assert(a.phase == before.phase && b.phase == final(s).phase);
    assert(b.old_head == final(s).old_head@ && b.horizon == final(s).horizon@ && b.parent
        == final(s).parent@);
    assert(a.old_head == before.old_head@);
    assert(b.subject == final(s).subject@ && b.done == final(s).done && a.done == before.done);
    assert(b.commits == texts(final(s).commits@) && a.commits.len() == before.commits@.len());
    assert(b.note == crate::db::records::text_opt(final(s).note));
}

/// Only a history that the remote has taken is reported as squashed.
pub proof fn law_squashing_is_reported_when_done(
    s: &mut SquashSession,
    yes: bool,
    before: SquashSession,
)
    requires
        *old(s) == before,
        before@.wf(),
        call_ensures(SquashSession::step, (s, SquashEvent::Answer { yes }), ()),
    ensures
        before.phase is SoftReset && yes ==> final(s).phase is ForcePush,
        before.phase is SoftReset && !yes ==> final(s).phase is Done,
        before.phase is ForcePush && yes ==> final(s).phase is Housekeeping,
        before.phase is ForcePush && !yes ==> final(s).phase is Undo,
        before.phase is Housekeeping ==> final(s).phase is Done && (final(s).note matches Some(n) && n@
            == " History squashed to the most recent "@ + decimal(before.keep as nat)
            + " snapshots."@),
        before.phase is Undo ==> final(s).phase is Done && final(s).note is Some,
{
    let a = before@;
    let b = final(s)@;
    assert(a.phase == before.phase && b.phase == final(s).phase);
    assert(b.note == crate::db::records::text_opt(final(s).note) && a.keep == before.keep);
}

/// A repository is made, told to track the vault alone, and given its remote, its branch and an
/// author where it has none, before the remote is asked.
pub proof fn law_setup_prepares_the_repository(s: SetupSession, e: SetupEvent, r: SetupSession)
    requires
        call_ensures(advance_setup, (s, e), r),
    ensures
        s.phase == (SetupPhase::Run { step: SetupStep::Init }) && e == (SetupEvent::Ran {
            outcome: Ok(true),
        }) ==> r.phase is WriteIgnore,
        s.phase is WriteIgnore && e == (SetupEvent::Wrote { error: None }) ==> r.phase == (
        SetupPhase::Run { step: SetupStep::AddRemote }),
        s.phase is WriteIgnore && (e matches SetupEvent::Wrote { error: Some(x) }) ==> r.phase is Done,
        s.phase == (SetupPhase::Run { step: SetupStep::AddRemote }) && e == (SetupEvent::Ran {
            outcome: Ok(true),
        }) ==> r.phase == (SetupPhase::Run { step: SetupStep::Branch }),
        s.phase == (SetupPhase::Run { step: SetupStep::Branch }) && e == (SetupEvent::Ran {
            outcome: Ok(true),
        }) ==> r.phase is Identity,
        s.phase is Identity && e == (SetupEvent::Answer { yes: true }) ==> r.phase is Probe,
        s.phase is Identity && e == (SetupEvent::Answer { yes: false }) ==> r.phase == (
        SetupPhase::Run { step: SetupStep::UserName }),
        s.phase == (SetupPhase::Run { step: SetupStep::UserName }) && e == (SetupEvent::Ran {
            outcome: Ok(true),
        }) ==> r.phase == (SetupPhase::Run { step: SetupStep::UserEmail }),
        s.phase == (SetupPhase::Run { step: SetupStep::UserEmail }) && e == (SetupEvent::Ran {
            outcome: Ok(true),
        }) ==> r.phase is Probe,
{
}

/// What git is asked for in a setup.
pub proof fn law_setup_asks_git_for_its_step(step: SetupStep, url: &str, v: Vec<String>)
    requires
        call_ensures(setup_args, (step, url), v),
    ensures
        step is AddRemote ==> texts(v@) == seq!["remote"@, "add"@, "origin"@, url@],
        step is Branch ==> texts(v@) == seq!["branch"@, "-M"@, "main"@],
        step is Add ==> texts(v@) == seq!["add"@, "vault.db"@],
        step is Push ==> texts(v@) == seq!["push"@, "-u"@, "origin"@, "main"@],
        step is Pull ==> texts(v@) == seq!["pull"@, "origin"@, "main"@],
        step is Init ==> texts(v@) == seq!["init"@],
{
}

/// The conflicts of a sync are those between this vault, the fetched copy and the last common
/// one.
pub proof fn law_sync_conflicts_are_those_of_the_copies(
    local: &Vault,
    remote: &Option<RemoteCopy>,
    base: &Option<Vault>,
    key: &[u8; 32],
    version: &str,
    out: Vec<ConflictGroup>,
    l: &[SecretRecord],
    r: &[SecretRecord],
    b: &[SecretRecord],
    found: Vec<ConflictGroup>,
)
    requires
        call_ensures(detect_sync_conflicts, (false, local, remote, base, key, version), out),
        remote matches Some(c) && c.has_sync_uuid && c.vault.min_app_version is None && r@
            == c.vault.secrets@,
        l@ == local.secrets@,
        base matches Some(x) ==> b@ == x.secrets@,
        base is None ==> b@.len() == 0,
        call_ensures(find_conflicts, (l, r, b, key), found),
    ensures
        groups(out@) == groups(found@),
{
    if base is None {
        assert(records(b@) =~= Seq::<RecordView>::empty());
    }
}

} // verus!
