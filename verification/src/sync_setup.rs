//! The course of setting up a repository for syncing.
use vstd::prelude::*;
use vstd::string::*;

use crate::sync::{three, two};
use crate::text::texts;

verus! {

/// A git command of the set-up that must succeed.
#[derive(Debug, Clone, Copy, PartialEq, Eq, Structural)]
pub enum SetupStep {
    Init,
    AddRemote,
    Branch,
    UserName,
    UserEmail,
    Add,
    Commit,
    Push,
    Pull,
}

/// How the set-up ended.
#[derive(Debug)]
pub enum SetupResult {
    FirstDeviceReady,
    AdditionalDeviceReady,
    NoDirectory,
    AlreadyRepository,
    NoVault,
    VaultExists,
    IgnoreFailed { error: String },
    StepFailed { step: SetupStep },
    StepUnavailable { step: SetupStep, error: String },
    ProbeUnavailable { error: String },
    Unreachable { url: String },
    NothingPulled,
}

/// What is to be done next.
#[derive(Debug)]
pub enum SetupPhase {
    /// Look at the vault's directory.
    Look,
    Run { step: SetupStep },
    /// Write a `.gitignore` that tracks nothing but the vault.
    WriteIgnore,
    /// Ask whether commits have an author already.
    Identity,
    /// Ask whether the remote answers.
    Probe,
    /// Ask whether a vault has come.
    CheckVault,
    Done { result: SetupResult },
}

/// What came of the last phase.
#[derive(Debug)]
pub enum SetupEvent {
    Seen { has_dir: bool, has_git: bool, vault_exists: bool },
    /// Whether a git command succeeded, or why it did not start.
    Ran { outcome: Result<bool, String> },
    Wrote { error: Option<String> },
    Answer { yes: bool },
}

/// A set-up under way.
#[derive(Debug)]
pub struct SetupSession {
    pub phase: SetupPhase,
    pub remote_url: String,
    /// Whether this device has the vault that the others are to get.
    pub first_device: bool,
}

/// What follows a step that succeeded.
pub open spec fn following(step: SetupStep, first_device: bool) -> SetupPhase {
    match step {
        SetupStep::Init => SetupPhase::WriteIgnore,
        SetupStep::AddRemote => SetupPhase::Run { step: SetupStep::Branch },
        SetupStep::Branch => SetupPhase::Identity,
        SetupStep::UserName => SetupPhase::Run { step: SetupStep::UserEmail },
        SetupStep::UserEmail => SetupPhase::Probe,
        SetupStep::Add => SetupPhase::Run { step: SetupStep::Commit },
        SetupStep::Commit => SetupPhase::Run { step: SetupStep::Push },
        SetupStep::Push => SetupPhase::Done { result: SetupResult::FirstDeviceReady },
        SetupStep::Pull => SetupPhase::CheckVault,
    }
}

/// Where the phase and its event lead. An event that does not belong to the phase changes
/// nothing.
pub open spec fn next_setup(s: SetupSession, e: SetupEvent) -> SetupPhase {
    match (s.phase, e) {
        (SetupPhase::Look, SetupEvent::Seen { has_dir, has_git, vault_exists }) => if !has_dir {
            SetupPhase::Done { result: SetupResult::NoDirectory }
        } else if has_git {
            SetupPhase::Done { result: SetupResult::AlreadyRepository }
        } else if s.first_device && !vault_exists {
            SetupPhase::Done { result: SetupResult::NoVault }
        } else if !s.first_device && vault_exists {
            SetupPhase::Done { result: SetupResult::VaultExists }
        } else {
            SetupPhase::Run { step: SetupStep::Init }
        },
        (SetupPhase::Run { step }, SetupEvent::Ran { outcome }) => match outcome {
            Ok(true) => following(step, s.first_device),
            Ok(false) => SetupPhase::Done { result: SetupResult::StepFailed { step } },
            Err(error) => SetupPhase::Done { result: SetupResult::StepUnavailable { step, error } },
        },
        (SetupPhase::WriteIgnore, SetupEvent::Wrote { error }) => match error {
            Some(error) => SetupPhase::Done { result: SetupResult::IgnoreFailed { error } },
            None => SetupPhase::Run { step: SetupStep::AddRemote },
        },
        (SetupPhase::Identity, SetupEvent::Answer { yes }) => if yes {
            SetupPhase::Probe
        } else {
            SetupPhase::Run { step: SetupStep::UserName }
        },
        (SetupPhase::Probe, SetupEvent::Ran { outcome }) => match outcome {
            Ok(true) => if s.first_device {
                SetupPhase::Run { step: SetupStep::Add }
            } else {
                SetupPhase::Run { step: SetupStep::Pull }
            },
            Ok(false) => SetupPhase::Done { result: SetupResult::Unreachable { url: s.remote_url } },
            Err(error) => SetupPhase::Done { result: SetupResult::ProbeUnavailable { error } },
        },
        (SetupPhase::CheckVault, SetupEvent::Answer { yes }) => if yes {
            SetupPhase::Done { result: SetupResult::AdditionalDeviceReady }
        } else {
            SetupPhase::Done { result: SetupResult::NothingPulled }
        },
        (phase, _) => phase,
    }
}

/// Starts setting up syncing with the given remote.
pub fn setup_sync_repo(remote_url: String, first_device: bool) -> (s: SetupSession)
    ensures
        s == (SetupSession { phase: SetupPhase::Look, remote_url, first_device }),
{
    SetupSession { phase: SetupPhase::Look, remote_url, first_device }
}

fn follow(step: SetupStep) -> (p: SetupPhase)
    ensures
        p == following(step, true),
        p == following(step, false),
{
    match step {
        SetupStep::Init => SetupPhase::WriteIgnore,
        SetupStep::AddRemote => SetupPhase::Run { step: SetupStep::Branch },
        SetupStep::Branch => SetupPhase::Identity,
        SetupStep::UserName => SetupPhase::Run { step: SetupStep::UserEmail },
        SetupStep::UserEmail => SetupPhase::Probe,
        SetupStep::Add => SetupPhase::Run { step: SetupStep::Commit },
        SetupStep::Commit => SetupPhase::Run { step: SetupStep::Push },
        SetupStep::Push => SetupPhase::Done { result: SetupResult::FirstDeviceReady },
        SetupStep::Pull => SetupPhase::CheckVault,
    }
}

fn finish(result: SetupResult) -> (p: SetupPhase)
    ensures
        p == (SetupPhase::Done { result }),
{
    SetupPhase::Done { result }
}

/// Takes the outcome of the current phase and moves on to the next one.
pub fn advance_setup(s: SetupSession, e: SetupEvent) -> (r: SetupSession)
    ensures
        r == (SetupSession { phase: next_setup(s, e), ..s }),
{
    let SetupSession { phase, remote_url, first_device } = s;
    let phase = match (phase, e) {
        (SetupPhase::Look, SetupEvent::Seen { has_dir, has_git, vault_exists }) => if !has_dir {
            finish(SetupResult::NoDirectory)
        } else if has_git {
            finish(SetupResult::AlreadyRepository)
        } else if first_device && !vault_exists {
            finish(SetupResult::NoVault)
        } else if !first_device && vault_exists {
            finish(SetupResult::VaultExists)
        } else {
            SetupPhase::Run { step: SetupStep::Init }
        },
        (SetupPhase::Run { step }, SetupEvent::Ran { outcome }) => match outcome {
            Ok(ok) => if ok {
                follow(step)
            } else {
                finish(SetupResult::StepFailed { step })
            },
            Err(error) => finish(SetupResult::StepUnavailable { step, error }),
        },
        (SetupPhase::WriteIgnore, SetupEvent::Wrote { error }) => match error {
            Some(error) => finish(SetupResult::IgnoreFailed { error }),
            None => SetupPhase::Run { step: SetupStep::AddRemote },
        },
        (SetupPhase::Identity, SetupEvent::Answer { yes }) => if yes {
            SetupPhase::Probe
        } else {
            SetupPhase::Run { step: SetupStep::UserName }
        },
        (SetupPhase::Probe, SetupEvent::Ran { outcome }) => match outcome {
            Ok(ok) => if !ok {
                finish(SetupResult::Unreachable { url: remote_url.clone() })
            } else if first_device {
                SetupPhase::Run { step: SetupStep::Add }
            } else {
                SetupPhase::Run { step: SetupStep::Pull }
            },
            Err(error) => finish(SetupResult::ProbeUnavailable { error }),
        },
        (SetupPhase::CheckVault, SetupEvent::Answer { yes }) => if yes {
            finish(SetupResult::AdditionalDeviceReady)
        } else {
            finish(SetupResult::NothingPulled)
        },
        (phase, _) => phase,
    };
    SetupSession { phase, remote_url, first_device }
}

/// The arguments of a step's git command.
pub open spec fn setup_words(step: SetupStep, url: Seq<char>) -> Seq<Seq<char>> {
    match step {
        SetupStep::Init => seq!["init"@],
        SetupStep::AddRemote => seq!["remote"@, "add"@, "origin"@, url],
        SetupStep::Branch => seq!["branch"@, "-M"@, "main"@],
        SetupStep::UserName => seq!["config"@, "user.name"@, "KeyStash"@],
        SetupStep::UserEmail => seq!["config"@, "user.email"@, "keystash@localhost"@],
        SetupStep::Add => seq!["add"@, "vault.db"@],
        SetupStep::Commit => seq!["commit"@, "-m"@, "Initial vault backup"@],
        SetupStep::Push => seq!["push"@, "-u"@, "origin"@, "main"@],
        SetupStep::Pull => seq!["pull"@, "origin"@, "main"@],
    }
}

/// The arguments of a step's git command.
pub fn setup_args(step: SetupStep, url: &str) -> (v: Vec<String>)
    ensures
        texts(v@) == setup_words(step, url@),
{
    match step {
        SetupStep::Init => {
            let v = vec!["init".to_owned()];
            assert(texts(v@) =~= seq!["init"@]);
            v
        },
        SetupStep::AddRemote => crate::sync::four("remote", "add", "origin", url),
        SetupStep::Branch => three("branch", "-M", "main"),
        SetupStep::UserName => three("config", "user.name", "KeyStash"),
        SetupStep::UserEmail => three("config", "user.email", "keystash@localhost"),
        SetupStep::Add => two("add", "vault.db"),
        SetupStep::Commit => three("commit", "-m", "Initial vault backup"),
        SetupStep::Push => crate::sync::four("push", "-u", "origin", "main"),
        SetupStep::Pull => three("pull", "origin", "main"),
    }
}

/// What is said where a step fails.
pub open spec fn step_failure(step: SetupStep) -> Seq<char> {
    match step {
        SetupStep::Init => "git init failed"@,
        SetupStep::AddRemote => "git remote add failed"@,
        SetupStep::Branch => "git branch -M main failed"@,
        SetupStep::UserName => "git config user.name failed"@,
        SetupStep::UserEmail => "git config user.email failed"@,
        SetupStep::Add => "git add vault.db failed"@,
        SetupStep::Commit => "git commit failed"@,
        SetupStep::Push => "git push failed -- if the remote already contains a vault, this device isn't the first one: move the local vault aside and re-run setup as an additional device"@,
        SetupStep::Pull => "git pull failed -- the remote may be empty (set up the first device before adding more) or unreachable"@,
    }
}

/// What the user is told at the end of the set-up.
pub open spec fn setup_text(r: SetupResult) -> Seq<char> {
    match r {
        SetupResult::FirstDeviceReady => "Sync configured: the local vault was pushed as the initial backup. Other devices can now run `keystash sync setup` as additional devices."@,
        SetupResult::AdditionalDeviceReady => "Sync configured: the vault was pulled from the remote. Run `keystash` and unlock with the vault's master password."@,
        SetupResult::NoDirectory => "Invalid database directory"@,
        SetupResult::AlreadyRepository => "This directory is already a git repository. To point it at a different remote, run `git remote set-url origin <url>` in it manually -- setup won't touch an existing repo."@,
        SetupResult::NoVault => "No local vault found to push. Run `keystash init` (or the TUI first-run setup) to create one first, then re-run `keystash sync setup`."@,
        SetupResult::VaultExists => "A local vault already exists here, but additional-device setup expects to pull the vault from the remote. If this device's vault is the one to keep, choose first-device setup; otherwise move ~/.config/keystash/vault.db aside and re-run."@,
        SetupResult::IgnoreFailed { error } => "Could not write .gitignore: "@ + error@,
        SetupResult::StepFailed { step } => step_failure(step),
        SetupResult::StepUnavailable { step, error } => step_failure(step) + ": "@ + error@,
        SetupResult::ProbeUnavailable { error } => "Could not run git ls-remote: "@ + error@,
        SetupResult::Unreachable { url } => "The remote '"@ + url@
            + "' is not reachable (check the URL, your SSH keys/credentials, and that the repository exists). Nothing was pushed or pulled; fix the URL with `git remote set-url origin <url>` and re-run `keystash sync`."@,
        SetupResult::NothingPulled => "The remote was pulled but contains no vault.db -- set up the first device (the one that already has a vault) before adding this one."@,
    }
}

fn failure_text(step: SetupStep) -> (s: String)
    ensures
        s@ == step_failure(step),
{
    match step {
        SetupStep::Init => "git init failed".to_owned(),
        SetupStep::AddRemote => "git remote add failed".to_owned(),
        SetupStep::Branch => "git branch -M main failed".to_owned(),
        SetupStep::UserName => "git config user.name failed".to_owned(),
        SetupStep::UserEmail => "git config user.email failed".to_owned(),
        SetupStep::Add => "git add vault.db failed".to_owned(),
        SetupStep::Commit => "git commit failed".to_owned(),
        SetupStep::Push => "git push failed -- if the remote already contains a vault, this device isn't the first one: move the local vault aside and re-run setup as an additional device".to_owned(),
        SetupStep::Pull => "git pull failed -- the remote may be empty (set up the first device before adding more) or unreachable".to_owned(),
    }
}

/// What a finished set-up returns.
pub fn conclude_setup(r: &SetupResult) -> (s: Result<String, String>)
    ensures
        (s is Ok) == (*r is FirstDeviceReady || *r is AdditionalDeviceReady),
        s matches Ok(t) ==> t@ == setup_text(*r),
        s matches Err(t) ==> t@ == setup_text(*r),
{
    match r {
        SetupResult::FirstDeviceReady => Ok("Sync configured: the local vault was pushed as the initial backup. Other devices can now run `keystash sync setup` as additional devices.".to_owned()),
        SetupResult::AdditionalDeviceReady => Ok("Sync configured: the vault was pulled from the remote. Run `keystash` and unlock with the vault's master password.".to_owned()),
        SetupResult::NoDirectory => Err("Invalid database directory".to_owned()),
        SetupResult::AlreadyRepository => Err("This directory is already a git repository. To point it at a different remote, run `git remote set-url origin <url>` in it manually -- setup won't touch an existing repo.".to_owned()),
        SetupResult::NoVault => Err("No local vault found to push. Run `keystash init` (or the TUI first-run setup) to create one first, then re-run `keystash sync setup`.".to_owned()),
        SetupResult::VaultExists => Err("A local vault already exists here, but additional-device setup expects to pull the vault from the remote. If this device's vault is the one to keep, choose first-device setup; otherwise move ~/.config/keystash/vault.db aside and re-run.".to_owned()),
        SetupResult::IgnoreFailed { error } => {
            let mut t = "Could not write .gitignore: ".to_owned();
            t.append(error.as_str());
            Err(t)
        },
        SetupResult::StepFailed { step } => Err(failure_text(*step)),
        SetupResult::StepUnavailable { step, error } => {
            let mut t = failure_text(*step);
            t.append(": ");
            t.append(error.as_str());
            Err(t)
        },
        SetupResult::ProbeUnavailable { error } => {
            let mut t = "Could not run git ls-remote: ".to_owned();
            t.append(error.as_str());
            Err(t)
        },
        SetupResult::Unreachable { url } => {
            let mut t = "The remote '".to_owned();
            t.append(url.as_str());
            t.append("' is not reachable (check the URL, your SSH keys/credentials, and that the repository exists). Nothing was pushed or pulled; fix the URL with `git remote set-url origin <url>` and re-run `keystash sync`.");
            Err(t)
        },
        SetupResult::NothingPulled => Err("The remote was pulled but contains no vault.db -- set up the first device (the one that already has a vault) before adding this one.".to_owned()),
    }
}

/// An existing repository or a vault in the wrong place ends the set-up before any git command.
pub proof fn law_setup_guards_come_first(s: SetupSession, has_dir: bool, has_git: bool, vault_exists: bool)
    requires
        s.phase is Look,
        !has_dir || has_git || s.first_device != vault_exists,
    ensures
        next_setup(s, SetupEvent::Seen { has_dir, has_git, vault_exists }) is Done,
{
}

/// Whether a phase belongs to a device with this role: only a first device pushes, only an
/// additional one pulls.
pub open spec fn proper(p: SetupPhase, first_device: bool) -> bool {
    &&& p matches SetupPhase::Run { step } ==> {
        &&& (step is Add || step is Commit || step is Push) ==> first_device
        &&& step is Pull ==> !first_device
    }
    &&& p is CheckVault ==> !first_device
    &&& p matches SetupPhase::Done { result } ==> (result is FirstDeviceReady ==> first_device) && (
    result is AdditionalDeviceReady ==> !first_device)
}

/// A device keeps its role throughout the set-up.
pub proof fn law_setup_keeps_roles(s: SetupSession, e: SetupEvent)
    requires
        proper(s.phase, s.first_device),
    ensures
        proper(next_setup(s, e), s.first_device),
{
}

} // verus!
