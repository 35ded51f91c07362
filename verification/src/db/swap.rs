//! Putting a newly built vault file in the place of the old one.
use vstd::prelude::*;
use vstd::string::*;

use crate::db::layout::{
    embedded_salt, pre_rekey_backup_path, pre_sqlcipher_backup_path, sibling, verify_embedded_salt,
    wrong_header, HeadRead,
};
use crate::text::{debug_text, quoted};

verus! {

/// Why a vault file is replaced.
#[derive(Debug, Clone, Copy, PartialEq, Eq, Structural)]
pub enum SwapKind {
    /// The salt moves from its own file into the head of the database file.
    Conversion,
    /// An unencrypted vault is replaced by an encrypted one.
    Migration,
    /// The master password was changed.
    Rotation,
}

/// How a replacement failed.
#[derive(Debug)]
pub enum SwapError {
    BuildFailed { error: String },
    /// The new file does not carry its salt.
    BadHeader { error: String },
    CheckpointFailed { error: String },
    BackupFailed { error: String },
    MoveFailed { error: String },
    ReopenFailed { error: String },
}

/// What is to be done next.
#[derive(Debug)]
pub enum SwapPhase {
    /// Build the new file beside the old one.
    Build,
    /// Read the head of the new file.
    VerifyHeader,
    /// Remove the new file again.
    RemoveTemp { reason: String },
    /// Empty the old file's write-ahead log.
    Checkpoint,
    /// Rename the old file to its backup name.
    BackUp,
    /// Rename the new file to the vault's name.
    MoveIn,
    /// Remove a salt file left from an older layout, before the new vault is opened.
    DropStaleSidecar,
    /// Open the new vault.
    Reopen,
    /// Remove the salt file.
    DropSidecar,
    /// Remove the backup.
    DropBackup,
    Done { error: Option<SwapError> },
}

/// What came of the last phase.
#[derive(Debug)]
pub enum SwapEvent {
    Finished { error: Option<String> },
    HeadSeen { read: HeadRead },
    Performed,
}

/// A replacement under way, with what has become of the files.
#[derive(Debug)]
pub struct SwapSession {
    pub phase: SwapPhase,
    pub kind: SwapKind,
    /// The salt that the new file must carry.
    pub salt: [u8; 16],
    /// Whether the head of the new file was found to be that salt.
    pub verified: bool,
    /// Whether the old file has been moved away.
    pub moved_away: bool,
    /// Whether the new vault was opened.
    pub reopened: bool,
    /// Whether the backup was removed.
    pub backup_dropped: bool,
}

/// Whether the head is the salt that the new file must carry.
pub open spec fn carries(read: HeadRead, salt: Seq<u8>) -> bool {
    embedded_salt(read) matches Ok(s) && s == salt
}

/// The end of a failed replacement.
pub open spec fn swap_failed(error: SwapError) -> SwapPhase {
    SwapPhase::Done { error: Some(error) }
}

/// Whether the phase and its event lead to the phase `p`.
pub open spec fn leads_to(p: SwapPhase, s: SwapSession, e: SwapEvent) -> bool {
    match (s.phase, e) {
        (SwapPhase::Build, SwapEvent::Finished { error }) => match error {
            Some(error) => p == swap_failed(SwapError::BuildFailed { error }),
            None => p == SwapPhase::VerifyHeader,
        },
        (SwapPhase::VerifyHeader, SwapEvent::HeadSeen { read }) => if carries(read, s.salt@) {
            p == (if s.kind == SwapKind::Migration {
                SwapPhase::BackUp
            } else {
                SwapPhase::Checkpoint
            })
        } else {
            p matches SwapPhase::RemoveTemp { reason } && reason@ == (match embedded_salt(read) {
                Ok(_) => wrong_header(),
                Err(t) => t,
            })
        },
        (SwapPhase::RemoveTemp { reason }, SwapEvent::Performed) => p == swap_failed(
            SwapError::BadHeader { error: reason },
        ),
        (SwapPhase::Checkpoint, SwapEvent::Finished { error }) => match error {
            Some(error) => p == swap_failed(SwapError::CheckpointFailed { error }),
            None => p == SwapPhase::BackUp,
        },
        (SwapPhase::BackUp, SwapEvent::Finished { error }) => match error {
            Some(error) => p == swap_failed(SwapError::BackupFailed { error }),
            None => p == SwapPhase::MoveIn,
        },
        (SwapPhase::MoveIn, SwapEvent::Finished { error }) => match error {
            Some(error) => p == swap_failed(SwapError::MoveFailed { error }),
            None => p == (if s.kind == SwapKind::Migration {
                SwapPhase::DropStaleSidecar
            } else {
                SwapPhase::Reopen
            }),
        },
        (SwapPhase::DropStaleSidecar, SwapEvent::Performed) => p == SwapPhase::Reopen,
        (SwapPhase::Reopen, SwapEvent::Finished { error }) => match error {
            Some(error) => p == swap_failed(SwapError::ReopenFailed { error }),
            None => p == (if s.kind == SwapKind::Migration {
                SwapPhase::Done { error: None }
            } else {
                SwapPhase::DropSidecar
            }),
        },
        (SwapPhase::DropSidecar, SwapEvent::Performed) => p == SwapPhase::DropBackup,
        (SwapPhase::DropBackup, SwapEvent::Performed) => p == (SwapPhase::Done { error: None }),
        (phase, _) => p == phase,
    }
}

/// Whether the event reports success.
pub open spec fn fine(e: SwapEvent) -> bool {
    e matches SwapEvent::Finished { error } && error is None
}

impl SwapSession {
    /// What holds throughout a replacement: the old file is moved away only once the new one is
    /// known to carry its salt, and the backup goes only once the new vault was opened.
    pub open spec fn inv(self) -> bool {
        &&& self.moved_away ==> self.verified
        &&& self.reopened ==> self.moved_away
        &&& self.backup_dropped ==> self.reopened
        &&& (self.phase is Checkpoint || self.phase is BackUp) ==> self.verified
        &&& (self.phase is Build || self.phase is VerifyHeader || self.phase is RemoveTemp
            || self.phase is Checkpoint || self.phase is BackUp) ==> !self.moved_away
        &&& (self.phase is MoveIn || self.phase is DropStaleSidecar || self.phase is Reopen
            || self.phase is DropSidecar || self.phase is DropBackup) ==> self.moved_away
        &&& (self.phase is DropSidecar || self.phase is DropBackup) ==> self.reopened && self.kind
            != SwapKind::Migration
        &&& self.backup_dropped ==> self.phase is Done && self.kind != SwapKind::Migration
        &&& self.phase matches SwapPhase::Done { error } ==> {
            &&& error is None ==> self.reopened && (self.backup_dropped <==> self.kind
                != SwapKind::Migration)
            &&& error is Some ==> !self.backup_dropped && !self.reopened
            &&& (error matches Some(x) && !(x is MoveFailed || x is ReopenFailed))
                ==> !self.moved_away
        }
        &&& self.reopened ==> self.phase is DropSidecar || self.phase is DropBackup || self.phase
            is Done
    }
}

/// Starts replacing a vault file by one that must carry the given salt.
pub fn begin_swap(kind: SwapKind, salt: [u8; 16]) -> (s: SwapSession)
    ensures
        s == (SwapSession {
            phase: SwapPhase::Build,
            kind,
            salt,
            verified: false,
            moved_away: false,
            reopened: false,
            backup_dropped: false,
        }),
        s.inv(),
{
    SwapSession {
        phase: SwapPhase::Build,
        kind,
        salt,
        verified: false,
        moved_away: false,
        reopened: false,
        backup_dropped: false,
    }
}

fn fail(error: SwapError) -> (p: SwapPhase)
    ensures
        p == swap_failed(error),
{
    SwapPhase::Done { error: Some(error) }
}

/// Takes the outcome of the current phase and moves on to the next one. An event that does not
/// belong to the phase changes nothing.
pub fn advance_swap(s: SwapSession, e: SwapEvent) -> (r: SwapSession)
    ensures
        leads_to(r.phase, s, e),
        r.kind == s.kind,
        r.salt == s.salt,
        r.verified == (s.verified || (s.phase is VerifyHeader && (e matches SwapEvent::HeadSeen {
            read,
        } && carries(read, s.salt@)))),
        r.moved_away == (s.moved_away || (s.phase is BackUp && fine(e))),
        r.reopened == (s.reopened || (s.phase is Reopen && fine(e))),
        r.backup_dropped == (s.backup_dropped || (s.phase is DropBackup && e is Performed)),
        s.inv() ==> r.inv(),
{
    let SwapSession { phase, kind, salt, verified, moved_away, reopened, backup_dropped } = s;
    let mut verified = verified;
    let mut moved_away = moved_away;
    let mut reopened = reopened;
    let mut backup_dropped = backup_dropped;
    let phase = match (phase, e) {
        (SwapPhase::Build, SwapEvent::Finished { error }) => match error {
            Some(error) => fail(SwapError::BuildFailed { error }),
            None => SwapPhase::VerifyHeader,
        },
        (SwapPhase::VerifyHeader, SwapEvent::HeadSeen { read }) => match verify_embedded_salt(
            &read,
            &salt,
        ) {
            Ok(_) => {
                verified = true;
                if kind == SwapKind::Migration {
                    SwapPhase::BackUp
                } else {
                    SwapPhase::Checkpoint
                }
            },
            Err(reason) => SwapPhase::RemoveTemp { reason },
        },
        (SwapPhase::RemoveTemp { reason }, SwapEvent::Performed) => fail(
            SwapError::BadHeader { error: reason },
        ),
        (SwapPhase::Checkpoint, SwapEvent::Finished { error }) => match error {
            Some(error) => fail(SwapError::CheckpointFailed { error }),
            None => SwapPhase::BackUp,
        },
        (SwapPhase::BackUp, SwapEvent::Finished { error }) => match error {
            Some(error) => fail(SwapError::BackupFailed { error }),
            None => {
                moved_away = true;
                SwapPhase::MoveIn
            },
        },
        (SwapPhase::MoveIn, SwapEvent::Finished { error }) => match error {
            Some(error) => fail(SwapError::MoveFailed { error }),
            None => if kind == SwapKind::Migration {
                SwapPhase::DropStaleSidecar
            } else {
                SwapPhase::Reopen
            },
        },
        (SwapPhase::DropStaleSidecar, SwapEvent::Performed) => SwapPhase::Reopen,
        (SwapPhase::Reopen, SwapEvent::Finished { error }) => match error {
            Some(error) => fail(SwapError::ReopenFailed { error }),
            None => {
                reopened = true;
                if kind == SwapKind::Migration {
                    SwapPhase::Done { error: None }
                } else {
                    SwapPhase::DropSidecar
                }
            },
        },
        (SwapPhase::DropSidecar, SwapEvent::Performed) => SwapPhase::DropBackup,
        (SwapPhase::DropBackup, SwapEvent::Performed) => {
            backup_dropped = true;
            SwapPhase::Done { error: None }
        },
        (phase, _) => phase,
    };
    SwapSession { phase, kind, salt, verified, moved_away, reopened, backup_dropped }
}

/// A replacement that fails before the renames leaves the old file in place, and one that fails
/// at all leaves the backup.
pub proof fn law_failed_swap_loses_nothing(s: SwapSession)
    requires
        s.inv(),
        s.phase matches SwapPhase::Done { error } && error is Some,
    ensures
        !s.backup_dropped,
        s.moved_away ==> (s.phase matches SwapPhase::Done { error } && (error->0 is MoveFailed
            || error->0 is ReopenFailed)),
{
}

/// What the replacement is called in messages.
pub open spec fn swap_noun(kind: SwapKind) -> Seq<char> {
    match kind {
        SwapKind::Conversion => "salt conversion"@,
        SwapKind::Migration => "migration"@,
        SwapKind::Rotation => "key rotation"@,
    }
}

/// What the user is told of a failed replacement.
pub open spec fn swap_text(kind: SwapKind, error: SwapError, db_path: Seq<char>) -> Seq<char> {
    match error {
        SwapError::BuildFailed { error } => error@,
        SwapError::BadHeader { error } => error@,
        SwapError::CheckpointFailed { error } => "Failed to checkpoint vault before "@ + swap_noun(
            kind,
        ) + ": "@ + error@,
        SwapError::BackupFailed { error } => match kind {
            SwapKind::Migration => "Failed to back up legacy vault: "@ + error@,
            _ => "Failed to back up vault before "@ + swap_noun(kind) + ": "@ + error@,
        },
        SwapError::MoveFailed { error } => match kind {
            SwapKind::Conversion => "Failed to move converted vault into place: "@ + error@,
            SwapKind::Migration => "Failed to move migrated vault into place: "@ + error@,
            SwapKind::Rotation => "Failed to move re-keyed vault into place: "@ + error@,
        },
        SwapError::ReopenFailed { error } => match kind {
            SwapKind::Conversion => "Salt conversion produced a vault that failed to reopen ("@
                + error@ + "). The pre-conversion backup was kept at "@ + quoted(
                sibling(db_path, "vault.db.pre-rekey-backup"@),
            ) + " and the salt file was left in place."@,
            SwapKind::Migration => error@,
            SwapKind::Rotation => "Key rotation produced a vault that failed to reopen ("@ + error@
                + "). The pre-rotation backup was kept at "@ + quoted(
                sibling(db_path, "vault.db.pre-rekey-backup"@),
            ) + "."@,
        },
    }
}

fn pair(a: &str, b: &str) -> (s: String)
    ensures
        s@ == a@ + b@,
{
    let mut s = a.to_owned();
    s.append(b);
    s
}

fn swap_noun_text(kind: SwapKind) -> (s: String)
    ensures
        s@ == swap_noun(kind),
{
    match kind {
        SwapKind::Conversion => "salt conversion".to_owned(),
        SwapKind::Migration => "migration".to_owned(),
        SwapKind::Rotation => "key rotation".to_owned(),
    }
}

/// Words what the user is told of a failed replacement.
pub fn describe_swap(kind: SwapKind, error: &SwapError, db_path: &str) -> (s: String)
    ensures
        s@ == swap_text(kind, *error, db_path@),
{
    match error {
        SwapError::BuildFailed { error } => error.clone(),
        SwapError::BadHeader { error } => error.clone(),
        SwapError::CheckpointFailed { error } => {
            let mut s = pair(
                "Failed to checkpoint vault before ",
                swap_noun_text(kind).as_str(),
            );
            s.append(": ");
            s.append(error.as_str());
            s
        },
        SwapError::BackupFailed { error } => match kind {
            SwapKind::Migration => pair("Failed to back up legacy vault: ", error.as_str()),
            _ => {
                let mut s = pair(
                    "Failed to back up vault before ",
                    swap_noun_text(kind).as_str(),
                );
                s.append(": ");
                s.append(error.as_str());
                s
            },
        },
        SwapError::MoveFailed { error } => match kind {
            SwapKind::Conversion => pair(
                "Failed to move converted vault into place: ",
                error.as_str(),
            ),
            SwapKind::Migration => pair("Failed to move migrated vault into place: ", error.as_str()),
            SwapKind::Rotation => pair("Failed to move re-keyed vault into place: ", error.as_str()),
        },
        SwapError::ReopenFailed { error } => match kind {
            SwapKind::Conversion => {
                let mut s = pair(
                    "Salt conversion produced a vault that failed to reopen (",
                    error.as_str(),
                );
                s.append("). The pre-conversion backup was kept at ");
                s.append(debug_text(pre_rekey_backup_path(db_path).as_str()).as_str());
                s.append(" and the salt file was left in place.");
                s
            },
            SwapKind::Migration => error.clone(),
            SwapKind::Rotation => {
                let mut s = pair(
                    "Key rotation produced a vault that failed to reopen (",
                    error.as_str(),
                );
                s.append("). The pre-rotation backup was kept at ");
                s.append(debug_text(pre_rekey_backup_path(db_path).as_str()).as_str());
                s.append(".");
                s
            },
        },
    }
}

/// Where the old file is kept while it is replaced.
pub fn swap_backup_path(kind: SwapKind, db_path: &str) -> (s: String)
    ensures
        s@ == sibling(
            db_path@,
            if kind == SwapKind::Migration {
                "vault.db.pre-sqlcipher-backup"@
            } else {
                "vault.db.pre-rekey-backup"@
            },
        ),
{
    if kind == SwapKind::Migration {
        pre_sqlcipher_backup_path(db_path)
    } else {
        pre_rekey_backup_path(db_path)
    }
}

} // verus!
