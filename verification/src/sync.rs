//! The course of a sync: which git command or file operation comes next, and what the outcome
//! of each leads to.
use vstd::prelude::*;
use vstd::string::*;

pub use crate::conflicts::{detect_sync_conflicts, ConflictGroup};
use crate::db::records::{has_uuid, HistoryView, TombstoneView, Vault, VaultView};
use crate::db::store::{prune_old_tombstones, prune_orphaned_history};
use crate::text::{debug_text, lex_lt, quoted, texts};

verus! {

/// The file by which git leaves alone everything but the vault. A sync and the set-up write it.
pub const IGNORE_TEXT: &'static str = "*\n!vault.db\n";

/// The first bytes of an unencrypted database file.
pub open spec fn plaintext_magic() -> Seq<u8> {
    seq![83, 81, 76, 105, 116, 101, 32, 102, 111, 114, 109, 97, 116, 32, 51, 0]
}

/// Whether the head of a file is that of an unencrypted database.
pub fn is_plaintext_magic(head: &[u8; 16]) -> (b: bool)
    ensures
        b == (head@ == plaintext_magic()),
{
    let magic: [u8; 16] = [83, 81, 76, 105, 116, 101, 32, 102, 111, 114, 109, 97, 116, 32, 51, 0];
    assert(magic@ =~= plaintext_magic());
    crate::text::same_bytes(head.as_slice(), magic.as_slice())
}

/// A git command that may fail to start.
#[derive(Debug, Clone, Copy, PartialEq, Eq, Structural)]
pub enum GitStep {
    Fetch,
    Status,
    Reset,
    Add,
    Commit,
    Push,
}

/// Which device changed the master password since this device last synced.
#[derive(Debug, Clone, Copy, PartialEq, Eq, Structural)]
pub enum Rotation {
    ThisDevice,
    BothDevices,
    OtherDevice,
}

/// How a sync ended.
#[derive(Debug)]
pub enum SyncResult {
    UpToDate,
    Restored,
    Merged,
    /// The remote copy could not be merged; it was saved to `backup`.
    PushedOverRemote { backup: String, plaintext: bool },
    NoDirectory,
    NotConfigured { dir: String },
    GitUnavailable { step: GitStep, error: String },
    Unreachable,
    RestoreFailed { error: String },
    MergeFailed { error: String },
    Refused { rotation: Rotation },
    ResetFailed,
    AddFailed,
    CommitFailed,
    PushFailed,
}

impl SyncResult {
    /// Whether the sync succeeded.
    pub open spec fn good(self) -> bool {
        self is UpToDate || self is Restored || self is Merged || self is PushedOverRemote
    }
}

/// What is to be done next.
#[derive(Debug)]
pub enum Phase {
    /// Look at the vault's directory.
    Setup,
    /// Write a `.gitignore` that tracks nothing but the vault.
    WriteIgnore,
    Fetch,
    /// Ask whether the remote is reachable and has no branch yet.
    Probe,
    /// Compare the local and the remote head commit.
    Heads,
    /// Prune and checkpoint before the quick dirtiness check.
    QuickCheckpoint,
    QuickDirty,
    /// Extract the remote's copy of the vault.
    Extract,
    /// Copy the remote's vault into place.
    Restore,
    /// Fetch the salt file of an old remote, if it has one and none is here.
    RestoreSidecar,
    /// Try to open the remote's copy under this vault's key.
    Open,
    Merge,
    /// Read the first bytes of both files.
    Salts,
    /// Ask whether the remote head is an ancestor of the local one.
    Ancestor { remote: [u8; 16], local: [u8; 16] },
    /// Read the salt of the vault at the local head commit.
    HeadSalt { remote: [u8; 16], local: [u8; 16] },
    /// Save the remote copy that cannot be merged.
    Backup { plaintext: bool },
    Reset,
    /// Prune and checkpoint before staging.
    Checkpoint,
    Dirty,
    Stage,
    /// Drop a tracked salt file from the index.
    DropSidecar,
    /// Ask whether the index holds no change.
    Index,
    Commit,
    Push,
    /// Apply the history retention.
    Squash { result: SyncResult },
    Done { result: SyncResult, note: Option<String> },
}

/// What came of the last phase.
#[derive(Debug)]
pub enum SyncEvent {
    /// The vault's directory, whether it is a repository, and whether it has a `.gitignore`.
    SetupSeen { dir: Option<String>, configured: bool, ignored: bool },
    Performed,
    /// Whether a git command succeeded, or why it did not start.
    Ran { outcome: Result<bool, String> },
    Answer { yes: bool },
    HeadsSeen { local: Option<String>, remote: Option<String>, vault_exists: bool },
    DirtySeen { outcome: Result<bool, String> },
    Extracted { has_remote: bool, vault_exists: bool },
    Finished { result: Result<(), String> },
    SaltsSeen { remote_salt: Option<[u8; 16]>, local_salt: Option<[u8; 16]> },
    HeadSaltSeen { salt: Option<[u8; 16]> },
    BackedUp { path: Option<String> },
    Noted { note: Option<String> },
}

/// A sync under way.
#[derive(Debug)]
pub struct SyncSession {
    pub phase: Phase,
    /// How many snapshots of history to keep; 0 keeps all.
    pub retention: u64,
    /// Where the unmergeable remote copy was saved, and whether it was unencrypted.
    pub backup: Option<(String, bool)>,
    pub staged: bool,
    pub committed: bool,
    pub pushed: bool,
}

/// Whether two commits are known and the same.
pub open spec fn same_head(local: Option<String>, remote: Option<String>) -> bool {
    match (local, remote) {
        (Some(a), Some(b)) => a@ == b@,
        _ => false,
    }
}

/// Whether the two files carry different salts, so that one of them was encrypted under a
/// master password that the other was not.
pub open spec fn rotated(remote: Option<[u8; 16]>, local: Option<[u8; 16]>) -> bool {
    match (remote, local) {
        (Some(r), Some(l)) => r@ != plaintext_magic() && r@ != l@,
        _ => false,
    }
}

/// Whose rotation it was: a side whose salt is no longer that of the last synced state has
/// rotated. Without that state the rotation is taken to have happened elsewhere.
pub open spec fn blame(head: Option<[u8; 16]>, local: Seq<u8>, remote: Seq<u8>) -> Rotation {
    match head {
        Some(h) => if h@ != local && h@ == remote {
            Rotation::ThisDevice
        } else if h@ != local {
            Rotation::BothDevices
        } else {
            Rotation::OtherDevice
        },
        None => Rotation::OtherDevice,
    }
}

/// How a sync that was pushed ends.
pub open spec fn pushed_result(backup: Option<(String, bool)>, committed: bool) -> SyncResult {
    match backup {
        Some((path, plaintext)) => SyncResult::PushedOverRemote { backup: path, plaintext },
        None => if committed {
            SyncResult::Merged
        } else {
            SyncResult::UpToDate
        },
    }
}

/// The end of a sync without a note.
pub open spec fn ended(result: SyncResult) -> Phase {
    Phase::Done { result, note: None }
}

/// Where a git command leads: on if it succeeded, else to the given failure.
pub open spec fn after_git(
    outcome: Result<bool, String>,
    step: GitStep,
    on: Phase,
    failed: SyncResult,
) -> Phase {
    match outcome {
        Err(error) => ended(SyncResult::GitUnavailable { step, error }),
        Ok(true) => on,
        Ok(false) => ended(failed),
    }
}

/// Where the phase and its event lead.
pub open spec fn next_phase(s: SyncSession, e: SyncEvent) -> Phase {
    match (s.phase, e) {
        (Phase::Setup, SyncEvent::SetupSeen { dir, configured, ignored }) => match dir {
            None => ended(SyncResult::NoDirectory),
            Some(dir) => if !configured {
                ended(SyncResult::NotConfigured { dir })
            } else if !ignored {
                Phase::WriteIgnore
            } else {
                Phase::Fetch
            },
        },
        (Phase::WriteIgnore, SyncEvent::Performed) => Phase::Fetch,
        (Phase::Fetch, SyncEvent::Ran { outcome }) => match outcome {
            Err(error) => ended(SyncResult::GitUnavailable { step: GitStep::Fetch, error }),
            Ok(true) => Phase::Heads,
            Ok(false) => Phase::Probe,
        },
        (Phase::Probe, SyncEvent::Answer { yes }) => if yes {
            Phase::Heads
        } else {
            ended(SyncResult::Unreachable)
        },
        (Phase::Heads, SyncEvent::HeadsSeen { local, remote, vault_exists }) => if vault_exists
            && same_head(local, remote) {
            Phase::QuickCheckpoint
        } else {
            Phase::Extract
        },
        (Phase::QuickCheckpoint, SyncEvent::Performed) => Phase::QuickDirty,
        (Phase::QuickDirty, SyncEvent::DirtySeen { outcome }) => match outcome {
            Err(error) => ended(SyncResult::GitUnavailable { step: GitStep::Status, error }),
            Ok(true) => Phase::Dirty,
            Ok(false) => Phase::Squash { result: SyncResult::UpToDate },
        },
        (Phase::Extract, SyncEvent::Extracted { has_remote, vault_exists }) => if !has_remote {
            Phase::Checkpoint
        } else if !vault_exists {
            Phase::Restore
        } else {
            Phase::Open
        },
        (Phase::Restore, SyncEvent::Finished { result }) => match result {
            Err(error) => ended(SyncResult::RestoreFailed { error }),
            Ok(_) => Phase::RestoreSidecar,
        },
        (Phase::RestoreSidecar, SyncEvent::Performed) => ended(SyncResult::Restored),
        (Phase::Open, SyncEvent::Answer { yes }) => if yes {
            Phase::Merge
        } else {
            Phase::Salts
        },
        (Phase::Merge, SyncEvent::Finished { result }) => match result {
            Err(error) => ended(SyncResult::MergeFailed { error }),
            Ok(_) => Phase::Reset,
        },
        (Phase::Salts, SyncEvent::SaltsSeen { remote_salt, local_salt }) => if rotated(
            remote_salt,
            local_salt,
        ) {
            Phase::Ancestor { remote: remote_salt->0, local: local_salt->0 }
        } else {
            Phase::Backup { plaintext: remote_salt matches Some(r) && r@ == plaintext_magic() }
        },
        (Phase::Ancestor { remote, local }, SyncEvent::Answer { yes }) => if yes {
            Phase::Reset
        } else {
            Phase::HeadSalt { remote, local }
        },
        (Phase::HeadSalt { remote, local }, SyncEvent::HeadSaltSeen { salt }) => ended(
            SyncResult::Refused { rotation: blame(salt, local@, remote@) },
        ),
        (Phase::Backup { plaintext }, SyncEvent::BackedUp { path }) => Phase::Reset,
        (Phase::Reset, SyncEvent::Ran { outcome }) => after_git(
            outcome,
            GitStep::Reset,
            Phase::Checkpoint,
            SyncResult::ResetFailed,
        ),
        (Phase::Checkpoint, SyncEvent::Performed) => Phase::Dirty,
        (Phase::Dirty, SyncEvent::DirtySeen { outcome }) => match outcome {
            Err(error) => ended(SyncResult::GitUnavailable { step: GitStep::Status, error }),
            Ok(true) => Phase::Stage,
            Ok(false) => Phase::Push,
        },
        (Phase::Stage, SyncEvent::Ran { outcome }) => after_git(
            outcome,
            GitStep::Add,
            Phase::DropSidecar,
            SyncResult::AddFailed,
        ),
        (Phase::DropSidecar, SyncEvent::Performed) => Phase::Index,
        (Phase::Index, SyncEvent::Answer { yes }) => if yes {
            Phase::Push
        } else {
            Phase::Commit
        },
        (Phase::Commit, SyncEvent::Ran { outcome }) => after_git(
            outcome,
            GitStep::Commit,
            Phase::Push,
            SyncResult::CommitFailed,
        ),
        (Phase::Push, SyncEvent::Ran { outcome }) => after_git(
            outcome,
            GitStep::Push,
            Phase::Squash { result: pushed_result(s.backup, s.committed) },
            SyncResult::PushFailed,
        ),
        (Phase::Squash { result }, SyncEvent::Noted { note }) => Phase::Done { result, note },
        (phase, _) => phase,
    }
}

/// Whether the event reports a command that succeeded.
pub open spec fn succeeded(e: SyncEvent) -> bool {
    e matches SyncEvent::Ran { outcome } && outcome == Ok::<bool, String>(true)
}

/// The session after an event. An event that does not belong to the phase changes nothing.
pub open spec fn after(s: SyncSession, e: SyncEvent) -> SyncSession {
    SyncSession {
        phase: next_phase(s, e),
        backup: match (s.phase, e) {
            (Phase::Backup { plaintext }, SyncEvent::BackedUp { path: Some(p) }) => Some(
                (p, plaintext),
            ),
            _ => s.backup,
        },
        staged: s.staged || (s.phase is Stage && succeeded(e)),
        committed: s.committed || (s.phase is Commit && succeeded(e)),
        pushed: s.pushed || (s.phase is Push && succeeded(e)),
        ..s
    }
}

/// The session at its start.
pub open spec fn begun(retention: u64) -> SyncSession {
    SyncSession {
        phase: Phase::Setup,
        retention,
        backup: None,
        staged: false,
        committed: false,
        pushed: false,
    }
}

/// Whether the phase comes before anything was written to the repository's history.
pub open spec fn early(p: Phase) -> bool {
    !(p is DropSidecar || p is Index || p is Commit || p is Push || p is Squash || p is Done)
}

impl SyncSession {
    /// What holds throughout a sync.
    pub open spec fn inv(self) -> bool {
        &&& early(self.phase) ==> !self.staged
        &&& self.phase is DropSidecar || self.phase is Index || self.phase is Commit ==> self.staged
        &&& self.committed ==> self.staged
        &&& self.committed ==> self.phase is Push || self.phase is Squash || self.phase is Done
        &&& self.pushed ==> self.phase is Squash || self.phase is Done
        &&& self.phase matches Phase::Squash { result } ==> {
            &&& result is UpToDate || result is Merged || result is PushedOverRemote
            &&& !(result is UpToDate) ==> self.pushed
            &&& result is Merged ==> self.committed
        }
        &&& self.phase matches Phase::Done { result, note } ==> {
            &&& !result.good() ==> !self.pushed && note is None
            &&& result is Restored ==> !self.staged && !self.committed && !self.pushed
            &&& result is Refused ==> !self.staged && !self.committed
            &&& result is Merged ==> self.committed && self.pushed
            &&& result is PushedOverRemote ==> self.pushed
        }
    }
}

/// A sync that keeps the whole history.
pub fn git_sync_vault() -> (s: SyncSession)
    ensures
        s == begun(0),
        s.inv(),
{
    git_sync_vault_with_retention(0)
}

/// A sync that keeps the newest `history_retention` snapshots, or all if that is 0.
pub fn git_sync_vault_with_retention(history_retention: u64) -> (s: SyncSession)
    ensures
        s == begun(history_retention),
        s.inv(),
{
    SyncSession {
        phase: Phase::Setup,
        retention: history_retention,
        backup: None,
        staged: false,
        committed: false,
        pushed: false,
    }
}

fn end(result: SyncResult) -> (p: Phase)
    ensures
        p == ended(result),
{
    Phase::Done { result, note: None }
}

fn git_leads(outcome: Result<bool, String>, step: GitStep, on: Phase, failed: SyncResult) -> (p: Phase)
    ensures
        p == after_git(outcome, step, on, failed),
{
    match outcome {
        Err(error) => end(SyncResult::GitUnavailable { step, error }),
        Ok(ok) => if ok {
            on
        } else {
            end(failed)
        },
    }
}

fn has_same_head(local: &Option<String>, remote: &Option<String>) -> (b: bool)
    ensures
        b == same_head(*local, *remote),
{
    match (local, remote) {
        (Some(a), Some(b)) => *a == *b,
        _ => false,
    }
}

fn blames(head: Option<[u8; 16]>, local: &[u8; 16], remote: &[u8; 16]) -> (r: Rotation)
    ensures
        r == blame(head, local@, remote@),
{
    match head {
        None => Rotation::OtherDevice,
        Some(h) => {
            let local_same = crate::text::same_bytes(h.as_slice(), local.as_slice());
            let remote_same = crate::text::same_bytes(h.as_slice(), remote.as_slice());
            if !local_same && remote_same {
                Rotation::ThisDevice
            } else if !local_same {
                Rotation::BothDevices
            } else {
                Rotation::OtherDevice
            }
        },
    }
}

fn after_salts(remote: Option<[u8; 16]>, local: Option<[u8; 16]>) -> (p: Phase)
    ensures
        p == (if rotated(remote, local) {
            Phase::Ancestor { remote: remote->0, local: local->0 }
        } else {
            Phase::Backup { plaintext: remote matches Some(r) && r@ == plaintext_magic() }
        }),
{
    match remote {
        None => Phase::Backup { plaintext: false },
        Some(r) => {
            if is_plaintext_magic(&r) {
                return Phase::Backup { plaintext: true };
            }
            match local {
                Some(l) => if !crate::text::same_bytes(r.as_slice(), l.as_slice()) {
                    Phase::Ancestor { remote: r, local: l }
                } else {
                    Phase::Backup { plaintext: false }
                },
                None => Phase::Backup { plaintext: false },
            }
        },
    }
}

/// Takes the outcome of the current phase and moves on to the next one.
pub fn advance(s: SyncSession, e: SyncEvent) -> (r: SyncSession)
    ensures
        r == after(s, e),
        s.inv() ==> r.inv(),
{
    let SyncSession { phase, retention, backup, staged, committed, pushed } = s;
    let mut backup = backup;
    let mut staged = staged;
    let mut committed = committed;
    let mut pushed = pushed;
    let phase = match (phase, e) {
        (Phase::Setup, SyncEvent::SetupSeen { dir, configured, ignored }) => match dir {
            None => end(SyncResult::NoDirectory),
            Some(dir) => if !configured {
                end(SyncResult::NotConfigured { dir })
            } else if !ignored {
                Phase::WriteIgnore
            } else {
                Phase::Fetch
            },
        },
        (Phase::WriteIgnore, SyncEvent::Performed) => Phase::Fetch,
        (Phase::Fetch, SyncEvent::Ran { outcome }) => match outcome {
            Err(error) => end(SyncResult::GitUnavailable { step: GitStep::Fetch, error }),
            Ok(ok) => if ok {
                Phase::Heads
            } else {
                Phase::Probe
            },
        },
        (Phase::Probe, SyncEvent::Answer { yes }) => if yes {
            Phase::Heads
        } else {
            end(SyncResult::Unreachable)
        },
        (Phase::Heads, SyncEvent::HeadsSeen { local, remote, vault_exists }) => if vault_exists
            && has_same_head(&local, &remote) {
            Phase::QuickCheckpoint
        } else {
            Phase::Extract
        },
        (Phase::QuickCheckpoint, SyncEvent::Performed) => Phase::QuickDirty,
        (Phase::QuickDirty, SyncEvent::DirtySeen { outcome }) => match outcome {
            Err(error) => end(SyncResult::GitUnavailable { step: GitStep::Status, error }),
            Ok(dirty) => if dirty {
                Phase::Dirty
            } else {
                Phase::Squash { result: SyncResult::UpToDate }
            },
        },
        (Phase::Extract, SyncEvent::Extracted { has_remote, vault_exists }) => if !has_remote {
            Phase::Checkpoint
        } else if !vault_exists {
            Phase::Restore
        } else {
            Phase::Open
        },
        (Phase::Restore, SyncEvent::Finished { result }) => match result {
            Err(error) => end(SyncResult::RestoreFailed { error }),
            Ok(_) => Phase::RestoreSidecar,
        },
        (Phase::RestoreSidecar, SyncEvent::Performed) => end(SyncResult::Restored),
        (Phase::Open, SyncEvent::Answer { yes }) => if yes {
            Phase::Merge
        } else {
            Phase::Salts
        },
        (Phase::Merge, SyncEvent::Finished { result }) => match result {
            Err(error) => end(SyncResult::MergeFailed { error }),
            Ok(_) => Phase::Reset,
        },
        (Phase::Salts, SyncEvent::SaltsSeen { remote_salt, local_salt }) => after_salts(
            remote_salt,
            local_salt,
        ),
        (Phase::Ancestor { remote, local }, SyncEvent::Answer { yes }) => if yes {
            Phase::Reset
        } else {
            Phase::HeadSalt { remote, local }
        },
        (Phase::HeadSalt { remote, local }, SyncEvent::HeadSaltSeen { salt }) => end(
            SyncResult::Refused { rotation: blames(salt, &local, &remote) },
        ),
        (Phase::Backup { plaintext }, SyncEvent::BackedUp { path }) => {
            if let Some(p) = path {
                backup = Some((p, plaintext));
            }
            Phase::Reset
        },
        (Phase::Reset, SyncEvent::Ran { outcome }) => git_leads(
            outcome,
            GitStep::Reset,
            Phase::Checkpoint,
            SyncResult::ResetFailed,
        ),
        (Phase::Checkpoint, SyncEvent::Performed) => Phase::Dirty,
        (Phase::Dirty, SyncEvent::DirtySeen { outcome }) => match outcome {
            Err(error) => end(SyncResult::GitUnavailable { step: GitStep::Status, error }),
            Ok(dirty) => if dirty {
                Phase::Stage
            } else {
                Phase::Push
            },
        },
        (Phase::Stage, SyncEvent::Ran { outcome }) => {
            staged = staged || matches!(outcome, Ok(true));
            git_leads(outcome, GitStep::Add, Phase::DropSidecar, SyncResult::AddFailed)
        },
        (Phase::DropSidecar, SyncEvent::Performed) => Phase::Index,
        (Phase::Index, SyncEvent::Answer { yes }) => if yes {
            Phase::Push
        } else {
            Phase::Commit
        },
        (Phase::Commit, SyncEvent::Ran { outcome }) => {
            committed = committed || matches!(outcome, Ok(true));
            git_leads(outcome, GitStep::Commit, Phase::Push, SyncResult::CommitFailed)
        },
        (Phase::Push, SyncEvent::Ran { outcome }) => {
            let ok = matches!(outcome, Ok(true));
            if ok {
                pushed = true;
                let result = match &backup {
                    Some((path, plaintext)) => SyncResult::PushedOverRemote {
                        backup: path.clone(),
                        plaintext: *plaintext,
                    },
                    None => if committed {
                        SyncResult::Merged
                    } else {
                        SyncResult::UpToDate
                    },
                };
                Phase::Squash { result }
            } else {
                git_leads(outcome, GitStep::Push, Phase::Push, SyncResult::PushFailed)
            }
        },
        (Phase::Squash { result }, SyncEvent::Noted { note }) => Phase::Done { result, note },
        (phase, _) => phase,
    };
    SyncSession { phase, retention, backup, staged, committed, pushed }
}

/// The session after a series of events.
pub open spec fn after_all(s: SyncSession, events: Seq<SyncEvent>) -> SyncSession
    decreases events.len(),
{
    if events.len() == 0 {
        s
    } else {
        after(after_all(s, events.drop_last()), events.last())
    }
}

/// What holds throughout a sync holds after every event.
pub proof fn lemma_after_keeps_inv(s: SyncSession, e: SyncEvent)
    requires
        s.inv(),
    ensures
        after(s, e).inv(),
{
}

/// What holds throughout a sync holds after every series of events.
pub proof fn law_sync_keeps_its_invariant(retention: u64, events: Seq<SyncEvent>)
    ensures
        after_all(begun(retention), events).inv(),
    decreases events.len(),
{
    if events.len() > 0 {
        law_sync_keeps_its_invariant(retention, events.drop_last());
        lemma_after_keeps_inv(after_all(begun(retention), events.drop_last()), events.last());
    }
}

/// A sync that ends in an error has pushed nothing.
pub proof fn law_failed_sync_pushed_nothing(retention: u64, events: Seq<SyncEvent>)
    requires
        after_all(begun(retention), events).phase matches Phase::Done { result, note }
            && !result.good(),
    ensures
        !after_all(begun(retention), events).pushed,
{
    law_sync_keeps_its_invariant(retention, events);
}

/// A sync that restored the local vault has staged, committed and pushed nothing.
pub proof fn law_restore_leaves_the_repository_alone(retention: u64, events: Seq<SyncEvent>)
    requires
        after_all(begun(retention), events).phase matches Phase::Done { result, note }
            && result is Restored,
    ensures
        !after_all(begun(retention), events).staged,
        !after_all(begun(retention), events).committed,
        !after_all(begun(retention), events).pushed,
{
    law_sync_keeps_its_invariant(retention, events);
}

/// A sync that reports a merge has committed and pushed it.
pub proof fn law_reported_merge_was_pushed(retention: u64, events: Seq<SyncEvent>)
    requires
        after_all(begun(retention), events).phase matches Phase::Done { result, note }
            && result is Merged,
    ensures
        after_all(begun(retention), events).committed,
        after_all(begun(retention), events).pushed,
{
    law_sync_keeps_its_invariant(retention, events);
}

/// Whether a session has found a rotation elsewhere and not seen the remote's commits.
pub open spec fn refusing(s: SyncSession) -> bool {
    s.phase is HeadSalt || (s.phase matches Phase::Done { result, note } && result is Refused)
}

/// Once a foreign rotation is found, nothing that happens makes the sync push.
pub proof fn law_foreign_rotation_is_never_overwritten(s: SyncSession, events: Seq<SyncEvent>)
    requires
        refusing(s),
        !s.pushed,
    ensures
        refusing(after_all(s, events)),
        !after_all(s, events).pushed,
    decreases events.len(),
{
    if events.len() > 0 {
        law_foreign_rotation_is_never_overwritten(s, events.drop_last());
    }
}

/// A finished sync stays finished.
pub proof fn law_done_is_final(s: SyncSession, e: SyncEvent)
    requires
        s.phase is Done,
    ensures
        after(s, e) == s,
{
}

/// A vault that is missing here is restored from the remote, whatever the heads are: its deletion
/// is never taken for a change to push.
pub proof fn law_missing_vault_is_restored(
    s: SyncSession,
    local: Option<String>,
    remote: Option<String>,
)
    requires
        s.phase is Heads,
    ensures
        ({
            let seen = after(s, SyncEvent::HeadsSeen { local, remote, vault_exists: false });
            &&& seen.phase is Extract
            &&& after(
                seen,
                SyncEvent::Extracted { has_remote: true, vault_exists: false },
            ).phase is Restore
        }),
{
}

/// What a sync finds where there is nothing to do: the remote is reached, both heads are the
/// same, and the vault is the committed one. Where the ignore file is missing it is written.
pub open spec fn quiet_events(
    dir: String,
    ignored: bool,
    local: String,
    remote: String,
    note: Option<String>,
) -> Seq<SyncEvent> {
    seq![SyncEvent::SetupSeen { dir: Some(dir), configured: true, ignored }] + (if ignored {
        Seq::empty()
    } else {
        seq![SyncEvent::Performed]
    }) + seq![
        SyncEvent::Ran { outcome: Ok(true) },
        SyncEvent::HeadsSeen { local: Some(local), remote: Some(remote), vault_exists: true },
        SyncEvent::Performed,
        SyncEvent::DirtySeen { outcome: Ok(false) },
        SyncEvent::Noted { note },
    ]
}

proof fn lemma_after_all_push(s: SyncSession, events: Seq<SyncEvent>, e: SyncEvent)
    ensures
        after_all(s, events.push(e)) == after(after_all(s, events), e),
{
    assert(events.push(e).drop_last() =~= events);
}

/// A sync with nothing to do says so, and neither stages nor commits nor pushes. It comes to the
/// same whether the ignore file was there or not, and so does the next sync, which finds it.
pub proof fn law_quiet_sync_changes_nothing(
    retention: u64,
    dir: String,
    ignored: bool,
    local: String,
    remote: String,
    note: Option<String>,
)
    requires
        local@ == remote@,
    ensures
        ({
            let s = after_all(begun(retention), quiet_events(dir, ignored, local, remote, note));
            &&& s.phase == (Phase::Done { result: SyncResult::UpToDate, note })
            &&& !s.staged && !s.committed && !s.pushed && s.backup is None
        }),
        SyncResult::UpToDate.good(),
        result_text(SyncResult::UpToDate)
            == "Sync complete: Vault is already up-to-date with remote."@,
{
    let s = begun(retention);
    let seen = SyncEvent::SetupSeen { dir: Some(dir), configured: true, ignored };
    let e0 = Seq::<SyncEvent>::empty();
    let e1 = e0.push(seen);
    let e2 = if ignored {
        e1
    } else {
        e1.push(SyncEvent::Performed)
    };
    let e3 = e2.push(SyncEvent::Ran { outcome: Ok(true) });
    let heads = SyncEvent::HeadsSeen {
        local: Some(local),
        remote: Some(remote),
        vault_exists: true,
    };
    let e4 = e3.push(heads);
    let e5 = e4.push(SyncEvent::Performed);
    let e6 = e5.push(SyncEvent::DirtySeen { outcome: Ok(false) });
    let e7 = e6.push(SyncEvent::Noted { note });
    lemma_after_all_push(s, e0, seen);
    lemma_after_all_push(s, e1, SyncEvent::Performed);
    lemma_after_all_push(s, e2, SyncEvent::Ran { outcome: Ok(true) });
    lemma_after_all_push(s, e3, heads);
    lemma_after_all_push(s, e4, SyncEvent::Performed);
    lemma_after_all_push(s, e5, SyncEvent::DirtySeen { outcome: Ok(false) });
    lemma_after_all_push(s, e6, SyncEvent::Noted { note });
    assert(quiet_events(dir, ignored, local, remote, note) =~= e7);
}

/// An ignore file that is there is never rewritten, whatever happens in the course of the sync.
pub proof fn law_existing_ignore_file_is_left_alone(
    retention: u64,
    dir: Option<String>,
    configured: bool,
    events: Seq<SyncEvent>,
)
    requires
        events.len() > 0,
        events[0] == (SyncEvent::SetupSeen { dir, configured, ignored: true }),
    ensures
        !(after_all(begun(retention), events).phase is WriteIgnore),
        !(after_all(begun(retention), events).phase is Setup),
    decreases events.len(),
{
    let before = events.drop_last();
    if events.len() > 1 {
        assert(before[0] == events[0]);
        law_existing_ignore_file_is_left_alone(retention, dir, configured, before);
    } else {
        assert(before =~= Seq::<SyncEvent>::empty());
        assert(after_all(begun(retention), before) == begun(retention));
        assert(events.last() == events[0]);
    }
    assert(after_all(begun(retention), events) == after(
        after_all(begun(retention), before),
        events.last(),
    ));
}

/// Bounding the history never turns a sync into a failure: whatever is noted of it, the result is
/// that of the push.
pub proof fn law_retention_keeps_the_result(s: SyncSession, result: SyncResult, note: Option<String>)
    requires
        s.inv(),
        s.phase == (Phase::Squash { result }),
    ensures
        after(s, SyncEvent::Noted { note }).phase == (Phase::Done { result, note }),
        result.good(),
{
}

/// The git command of a phase: its arguments, if the phase is one of a fixed command.
pub open spec fn git_words(p: Phase) -> Option<Seq<Seq<char>>> {
    match p {
        Phase::Fetch => Some(seq!["fetch"@, "origin"@, "main"@]),
        Phase::Probe => Some(seq!["ls-remote"@, "origin"@, "main"@]),
        Phase::Extract => Some(seq!["show"@, "origin/main:vault.db"@]),
        Phase::RestoreSidecar => Some(seq!["show"@, "origin/main:vault.salt"@]),
        Phase::Ancestor { remote, local } => Some(
            seq!["merge-base"@, "--is-ancestor"@, "origin/main"@, "HEAD"@],
        ),
        Phase::HeadSalt { remote, local } => Some(seq!["show"@, "HEAD:vault.db"@]),
        Phase::Reset => Some(seq!["reset"@, "origin/main"@]),
        Phase::QuickDirty => Some(
            seq!["status"@, "--porcelain"@, "--"@, "vault.db"@, "vault.salt"@],
        ),
        Phase::Dirty => Some(seq!["status"@, "--porcelain"@, "--"@, "vault.db"@, "vault.salt"@]),
        Phase::Stage => Some(seq!["add"@, "vault.db"@]),
        Phase::DropSidecar => Some(
            seq!["rm"@, "--cached"@, "--ignore-unmatch"@, "-f"@, "vault.salt"@],
        ),
        Phase::Index => Some(seq!["diff"@, "--cached"@, "--quiet"@]),
        Phase::Commit => Some(seq!["commit"@, "-m"@, "sync: auto-merge vault updates"@]),
        Phase::Push => Some(seq!["push"@, "origin"@, "main"@]),
        _ => None,
    }
}

/// The texts of an optional list of strings.
pub open spec fn texts_opt(v: Option<Vec<String>>) -> Option<Seq<Seq<char>>> {
    match v {
        Some(w) => Some(texts(w@)),
        None => None,
    }
}

/// A list of two words.
pub fn two(a: &str, b: &str) -> (v: Vec<String>)
    ensures
        texts(v@) == seq![a@, b@],
{
    let v = vec![a.to_owned(), b.to_owned()];
    assert(texts(v@) =~= seq![a@, b@]);
    v
}

/// A list of three words.
pub fn three(a: &str, b: &str, c: &str) -> (v: Vec<String>)
    ensures
        texts(v@) == seq![a@, b@, c@],
{
    let v = vec![a.to_owned(), b.to_owned(), c.to_owned()];
    assert(texts(v@) =~= seq![a@, b@, c@]);
    v
}

/// A list of four words.
pub fn four(a: &str, b: &str, c: &str, d: &str) -> (v: Vec<String>)
    ensures
        texts(v@) == seq![a@, b@, c@, d@],
{
    let v = vec![a.to_owned(), b.to_owned(), c.to_owned(), d.to_owned()];
    assert(texts(v@) =~= seq![a@, b@, c@, d@]);
    v
}

/// A list of five words.
pub fn five(a: &str, b: &str, c: &str, d: &str, e: &str) -> (v: Vec<String>)
    ensures
        texts(v@) == seq![a@, b@, c@, d@, e@],
{
    let v = vec![a.to_owned(), b.to_owned(), c.to_owned(), d.to_owned(), e.to_owned()];
    assert(texts(v@) =~= seq![a@, b@, c@, d@, e@]);
    v
}

/// The git command of a phase: its arguments, if the phase is one of a fixed command.
pub fn git_args(p: &Phase) -> (v: Option<Vec<String>>)
    ensures
        texts_opt(v) == git_words(*p),
{
    match p {
        Phase::Fetch => Some(three("fetch", "origin", "main")),
        Phase::Probe => Some(three("ls-remote", "origin", "main")),
        Phase::Extract => Some(two("show", "origin/main:vault.db")),
        Phase::RestoreSidecar => Some(two("show", "origin/main:vault.salt")),
        Phase::Ancestor { .. } => Some(four("merge-base", "--is-ancestor", "origin/main", "HEAD")),
        Phase::HeadSalt { .. } => Some(two("show", "HEAD:vault.db")),
        Phase::Reset => Some(two("reset", "origin/main")),
        Phase::QuickDirty => Some(five("status", "--porcelain", "--", "vault.db", "vault.salt")),
        Phase::Dirty => Some(five("status", "--porcelain", "--", "vault.db", "vault.salt")),
        Phase::Stage => Some(two("add", "vault.db")),
        Phase::DropSidecar => Some(five("rm", "--cached", "--ignore-unmatch", "-f", "vault.salt")),
        Phase::Index => Some(three("diff", "--cached", "--quiet")),
        Phase::Commit => Some(three("commit", "-m", "sync: auto-merge vault updates")),
        Phase::Push => Some(three("push", "origin", "main")),
        _ => None,
    }
}

/// The head of a file, if it is long enough to hold a salt.
pub fn file_head(bytes: &[u8]) -> (r: Option<[u8; 16]>)
    ensures
        (r is Some) == (bytes@.len() >= 16),
        r matches Some(h) ==> h@ == bytes@.take(16),
{
    if bytes.len() < 16 {
        None
    } else {
        Some(crate::crypto::array_of::<16>(bytes))
    }
}

/// What a git command wrote, without white space at its ends.
pub fn command_text(stdout: &[u8]) -> (s: String)
    ensures
        s@ == crate::text::trimmed(crate::crypto::text_of(stdout@)),
{
    crate::text::trim_text(crate::crypto::lossy_text(stdout).as_str())
}

/// Whether the files that sync manages have changes: `git status` then lists them.
pub fn vault_paths_dirty(stdout: &[u8]) -> (b: bool)
    ensures
        b == (stdout@.len() > 0),
{
    stdout.len() > 0
}

/// Drops what a vault need not carry any longer before it is pushed: old tombstones, and the
/// history of records that are gone.
pub fn prune_and_checkpoint(vault: &mut Vault, cutoff: &str)
    requires
        old(vault)@.wf(),
    ensures
        final(vault)@.wf(),
        final(vault)@ == (VaultView {
            tombstones: old(vault)@.tombstones.filter(
                |t: TombstoneView| !lex_lt(t.deleted_at, cutoff@),
            ),
            history: old(vault)@.history.filter(
                |e: HistoryView| has_uuid(old(vault)@.secrets, e.uuid),
            ),
            ..old(vault)@
        }),
{
    prune_old_tombstones(vault, cutoff);
    prune_orphaned_history(vault);
}

/// Whether a vault's directory is set up for syncing.
pub fn is_git_configured(dir: &Option<String>, has_git: bool) -> (b: bool)
    ensures
        b == (dir is Some && has_git),
{
    dir.is_some() && has_git
}

/// What keeps a git command from starting, by step.
pub open spec fn step_name(s: GitStep) -> Seq<char> {
    match s {
        GitStep::Fetch => "git fetch failed: "@,
        GitStep::Status => "git status failed: "@,
        GitStep::Reset => "git reset failed: "@,
        GitStep::Add => "git add failed: "@,
        GitStep::Commit => "git commit failed: "@,
        GitStep::Push => "git push failed: "@,
    }
}

/// The refusal of a sync after a rotation: what happened, how to go on, and that nothing was
/// pushed.
pub open spec fn refusal(r: Rotation) -> Seq<char> {
    match r {
        Rotation::ThisDevice => "Sync refused: this device recently changed its master password, but the remote has since received other changes still encrypted under the OLD master password -- pushing now would erase them.\n\nTo combine both safely:\n1. Back up this device's vault:   keystash export ~/keystash-backup.csv\n2. Delete the local vault file:   ~/.config/keystash/vault.db\n3. Run `keystash sync` to restore the remote vault, and unlock it with the OLD master password.\n4. Re-import the backup, then run `keystash change-password` to redo the rotation -- it will push to all devices this time.\n5. Delete the backup file securely.\n\nNothing was pushed."@,
        Rotation::BothDevices => "Sync refused: the master password was changed on this device AND on another device independently -- the two vaults are now encrypted under different new passwords, and pushing either would erase the other's rotation.\n\nPick which rotation wins (the remote's is what other devices will pull), then on this device:\n1. Back up this device's vault:   keystash export ~/keystash-backup.csv\n2. Delete the local vault file:   ~/.config/keystash/vault.db\n3. Run `keystash sync` to restore the remote vault, and unlock it with the master password set on the OTHER device.\n4. Re-import the backup if needed, and rotate again if this device's new password is the one you wanted.\n5. Delete the backup file securely.\n\nNothing was pushed."@,
        Rotation::OtherDevice => "Sync refused: the remote vault is encrypted under a different master password -- it was rotated (or re-initialized) on another device, and pushing this device's vault would undo that change.\n\nTo adopt the rotated vault on this device:\n1. Back up any local changes:   keystash export ~/keystash-backup.csv\n2. Delete the local vault file: ~/.config/keystash/vault.db (and vault.salt, if present)\n3. Run `keystash sync` to restore the vault from the remote.\n4. Unlock with the NEW master password, re-import the backup if needed, then delete it securely.\n\nNothing was pushed."@,
    }
}

/// What the user is told at the end of a sync, before any note on the history.
pub open spec fn result_text(r: SyncResult) -> Seq<char> {
    match r {
        SyncResult::UpToDate => "Sync complete: Vault is already up-to-date with remote."@,
        SyncResult::Restored => "Sync complete: Local vault restored from remote repository!"@,
        SyncResult::Merged => "Sync complete: Local and remote vaults merged and updated!"@,
        SyncResult::PushedOverRemote { backup, plaintext } => "Sync complete: the remote vault was "@
            + (if plaintext {
            "an outdated pre-encryption copy"@
        } else {
            "unreadable under the current key despite carrying the same salt -- most likely corrupted"@
        })
            + " and could not be merged. Your local vault was pushed as the new source of truth; the old remote copy was saved to "@
            + quoted(backup@) + " in case you need anything from it."@,
        SyncResult::NoDirectory => "Invalid database directory"@,
        SyncResult::NotConfigured { dir } => "Sync not configured. Run `keystash sync setup` (or set up git in "@
            + dir@ + ") to enable syncing."@,
        SyncResult::GitUnavailable { step, error } => step_name(step) + error@,
        SyncResult::Unreachable => "Could not reach git remote 'origin/main'. Check network or SSH configuration."@,
        SyncResult::RestoreFailed { error } => "Failed to restore vault.db from remote: "@ + error@,
        SyncResult::MergeFailed { error } => error@,
        SyncResult::Refused { rotation } => refusal(rotation),
        SyncResult::ResetFailed => "git reset failed to align local history with the remote before committing. Nothing was pushed; the repository may need manual inspection."@,
        SyncResult::AddFailed => "git add failed to stage the merged vault. Nothing was committed or pushed."@,
        SyncResult::CommitFailed => "git commit failed while finalizing the merge -- local changes are staged but not committed, and nothing was pushed. Check `git commit` manually in the vault directory (a missing user.name/user.email is a common cause) and re-run sync."@,
        SyncResult::PushFailed => "Git push failed. You might have conflicts or remote changes that couldn't rebase automatically."@,
    }
}

fn refusal_text(r: Rotation) -> (s: String)
    ensures
        s@ == refusal(r),
{
    match r {
        Rotation::ThisDevice => "Sync refused: this device recently changed its master password, but the remote has since received other changes still encrypted under the OLD master password -- pushing now would erase them.\n\nTo combine both safely:\n1. Back up this device's vault:   keystash export ~/keystash-backup.csv\n2. Delete the local vault file:   ~/.config/keystash/vault.db\n3. Run `keystash sync` to restore the remote vault, and unlock it with the OLD master password.\n4. Re-import the backup, then run `keystash change-password` to redo the rotation -- it will push to all devices this time.\n5. Delete the backup file securely.\n\nNothing was pushed.".to_owned(),
        Rotation::BothDevices => "Sync refused: the master password was changed on this device AND on another device independently -- the two vaults are now encrypted under different new passwords, and pushing either would erase the other's rotation.\n\nPick which rotation wins (the remote's is what other devices will pull), then on this device:\n1. Back up this device's vault:   keystash export ~/keystash-backup.csv\n2. Delete the local vault file:   ~/.config/keystash/vault.db\n3. Run `keystash sync` to restore the remote vault, and unlock it with the master password set on the OTHER device.\n4. Re-import the backup if needed, and rotate again if this device's new password is the one you wanted.\n5. Delete the backup file securely.\n\nNothing was pushed.".to_owned(),
        Rotation::OtherDevice => "Sync refused: the remote vault is encrypted under a different master password -- it was rotated (or re-initialized) on another device, and pushing this device's vault would undo that change.\n\nTo adopt the rotated vault on this device:\n1. Back up any local changes:   keystash export ~/keystash-backup.csv\n2. Delete the local vault file: ~/.config/keystash/vault.db (and vault.salt, if present)\n3. Run `keystash sync` to restore the vault from the remote.\n4. Unlock with the NEW master password, re-import the backup if needed, then delete it securely.\n\nNothing was pushed.".to_owned(),
    }
}

fn join_three(a: &str, b: &str, c: &str) -> (s: String)
    ensures
        s@ == a@ + b@ + c@,
{
    let mut s = a.to_owned();
    s.append(b);
    s.append(c);
    s
}

/// What the user is told at the end of a sync, before any note on the history.
pub fn describe(r: &SyncResult) -> (s: String)
    ensures
        s@ == result_text(*r),
{
    match r {
        SyncResult::UpToDate => "Sync complete: Vault is already up-to-date with remote.".to_owned(),
        SyncResult::Restored => "Sync complete: Local vault restored from remote repository!".to_owned(),
        SyncResult::Merged => "Sync complete: Local and remote vaults merged and updated!".to_owned(),
        SyncResult::PushedOverRemote { backup, plaintext } => {
            let reason = if *plaintext {
                "an outdated pre-encryption copy"
            } else {
                "unreadable under the current key despite carrying the same salt -- most likely corrupted"
            };
            let mut s = join_three(
                "Sync complete: the remote vault was ",
                reason,
                " and could not be merged. Your local vault was pushed as the new source of truth; the old remote copy was saved to ",
            );
            s.append(debug_text(backup.as_str()).as_str());
            s.append(" in case you need anything from it.");
            s
        },
        SyncResult::NoDirectory => "Invalid database directory".to_owned(),
        SyncResult::NotConfigured { dir } => join_three(
            "Sync not configured. Run `keystash sync setup` (or set up git in ",
            dir.as_str(),
            ") to enable syncing.",
        ),
        SyncResult::GitUnavailable { step, error } => {
            let what = match *step {
                GitStep::Fetch => "git fetch failed: ",
                GitStep::Status => "git status failed: ",
                GitStep::Reset => "git reset failed: ",
                GitStep::Add => "git add failed: ",
                GitStep::Commit => "git commit failed: ",
                GitStep::Push => "git push failed: ",
            };
            let mut s = what.to_owned();
            s.append(error.as_str());
            s
        },
        SyncResult::Unreachable => "Could not reach git remote 'origin/main'. Check network or SSH configuration.".to_owned(),
        SyncResult::RestoreFailed { error } => {
            let mut s = "Failed to restore vault.db from remote: ".to_owned();
            s.append(error.as_str());
            s
        },
        SyncResult::MergeFailed { error } => error.clone(),
        SyncResult::Refused { rotation } => refusal_text(*rotation),
        SyncResult::ResetFailed => "git reset failed to align local history with the remote before committing. Nothing was pushed; the repository may need manual inspection.".to_owned(),
        SyncResult::AddFailed => "git add failed to stage the merged vault. Nothing was committed or pushed.".to_owned(),
        SyncResult::CommitFailed => "git commit failed while finalizing the merge -- local changes are staged but not committed, and nothing was pushed. Check `git commit` manually in the vault directory (a missing user.name/user.email is a common cause) and re-run sync.".to_owned(),
        SyncResult::PushFailed => "Git push failed. You might have conflicts or remote changes that couldn't rebase automatically.".to_owned(),
    }
}

/// What a finished sync returns: the message with the note on the history, or the error.
pub fn conclude(result: &SyncResult, note: &Option<String>) -> (r: Result<String, String>)
    ensures
        (r is Ok) == result.good(),
        r matches Ok(s) ==> s@ == (match *note {
            Some(n) => result_text(*result) + n@,
            None => result_text(*result),
        }),
        r matches Err(e) ==> e@ == result_text(*result),
{
    let text = describe(result);
    match result {
        SyncResult::UpToDate
        | SyncResult::Restored
        | SyncResult::Merged
        | SyncResult::PushedOverRemote { .. } => {
            let mut s = text;
            if let Some(n) = note {
                s.append(n.as_str());
            }
            Ok(s)
        },
        _ => Err(text),
    }
}

} // verus!
