//! Devices that share a vault through a repository.
use keystash::conflicts::{
    detect_sync_conflicts, identified, merge_remote, ConflictGroup, RemoteCopy,
};
use keystash::crypto;
use keystash::db::schema::SchemaFacts;
use keystash::db::unlock::StoredVault;
use keystash::db::{
    add_secret, change_master_password, create_vault, delete_secret, get_password_history,
    get_secrets, open_vault, update_secret, update_secret_raw, SecretRecord, Tombstone, Vault,
    VaultFiles, PASSWORD_HISTORY_CAP,
};
use keystash::history::{maybe_squash_history, SquashEvent, SquashPhase};
use keystash::merge::{cap_history, merge_vaults};
use keystash::sync::{
    advance, command_text, conclude, file_head, git_args, git_sync_vault,
    git_sync_vault_with_retention, is_git_configured, is_plaintext_magic, prune_and_checkpoint,
    vault_paths_dirty, Phase, SyncEvent, SyncResult, IGNORE_TEXT,
};
use keystash::sync_setup::{
    advance_setup, conclude_setup, setup_args, setup_sync_repo, SetupEvent, SetupPhase, SetupStep,
};

const VERSION: &str = "0.3.6";
const CUTOFF: &str = "2025-01-01 00:00:00.000";

/// A time of day, later for every larger number.
fn at(n: u32) -> String {
    format!("2026-02-01 10:{:02}:{:02}.000", n / 60, n % 60)
}

/// A vault as it lies on disk: readable under one key, with one salt in its header.
#[derive(Clone, Debug)]
struct Copy {
    vault: Vault,
    salt: [u8; 16],
    key: [u8; 32],
    has_sync_uuid: bool,
    has_history: bool,
}

impl Copy {
    fn text(&self) -> String {
        format!("{:?}", self)
    }
}

struct Commit {
    parent: Option<usize>,
    tree: Copy,
    subject: String,
}

struct Origin {
    commits: Vec<Commit>,
    main: Option<usize>,
}

struct Device {
    disk: Option<Copy>,
    head: Option<usize>,
    fetched: Option<usize>,
    ignored: bool,
}

fn empty_origin() -> Origin {
    Origin { commits: vec![], main: None }
}

fn no_files() -> VaultFiles {
    VaultFiles {
        exists: false,
        head: None,
        migrating: false,
        pre_sqlcipher_backup: false,
        rekeying: false,
        pre_rekey_backup: false,
    }
}

fn new_device(password: &str) -> (Device, [u8; 32]) {
    let (vault, keys) = create_vault(&no_files(), password).unwrap();
    let disk = Copy {
        vault,
        salt: keys.salt,
        key: keys.master_key,
        has_sync_uuid: true,
        has_history: true,
    };
    (Device { disk: Some(disk), head: None, fetched: None, ignored: true }, keys.master_key)
}

fn pulled(o: &Origin) -> Device {
    let head = o.main;
    Device {
        disk: Some(o.commits[head.unwrap()].tree.clone()),
        head,
        fetched: head,
        ignored: true,
    }
}

fn vault_of(d: &mut Device) -> &mut Vault {
    &mut d.disk.as_mut().unwrap().vault
}

/// Commits and pushes what is on disk, as the set-up of the first device does.
fn push_initial(o: &mut Origin, d: &mut Device) {
    o.commits.push(Commit {
        parent: d.head,
        tree: d.disk.clone().unwrap(),
        subject: "Initial vault backup".to_string(),
    });
    d.head = Some(o.commits.len() - 1);
    o.main = d.head;
    d.fetched = d.head;
}

fn ancestors(o: &Origin, from: Option<usize>) -> Vec<usize> {
    let mut out = vec![];
    let mut at = from;
    while let Some(c) = at {
        out.push(c);
        at = o.commits[c].parent;
    }
    out
}

fn squash(o: &mut Origin, d: &mut Device, keep: u64) -> Option<String> {
    let mut s = maybe_squash_history(keep);
    while s.phase != SquashPhase::Done {
        let a = s.git_args();
        let id = |w: &str| -> usize { w.trim_end_matches("^{tree}").parse().unwrap() };
        let e = match s.phase {
            SquashPhase::Count => SquashEvent::Output {
                text: Some(ancestors(o, d.head).len().to_string()),
            },
            SquashPhase::OldHead => SquashEvent::Output { text: d.head.map(|h| h.to_string()) },
            SquashPhase::Horizon => {
                let n: usize = a[1].trim_start_matches("HEAD~").parse().unwrap();
                SquashEvent::Output { text: Some(ancestors(o, d.head)[n].to_string()) }
            }
            SquashPhase::Root => {
                let tree = o.commits[id(&a[1])].tree.clone();
                o.commits.push(Commit { parent: None, tree, subject: a[3].clone() });
                SquashEvent::Output { text: Some((o.commits.len() - 1).to_string()) }
            }
            SquashPhase::Newer => {
                let horizon: usize = a[2].trim_end_matches("..HEAD").parse().unwrap();
                let old = ancestors(o, Some(horizon));
                let mut newer: Vec<String> = ancestors(o, d.head)
                    .into_iter()
                    .filter(|c| !old.contains(c))
                    .map(|c| c.to_string())
                    .collect();
                newer.reverse();
                SquashEvent::Output { text: Some(newer.join("\n")) }
            }
            SquashPhase::Subject => SquashEvent::Output {
                text: Some(o.commits[id(&a[3])].subject.clone()),
            },
            SquashPhase::Rebuild => {
                let tree = o.commits[id(&a[1])].tree.clone();
                let parent = Some(id(&a[3]));
                o.commits.push(Commit { parent, tree, subject: a[5].clone() });
                SquashEvent::Output { text: Some((o.commits.len() - 1).to_string()) }
            }
            SquashPhase::SoftReset | SquashPhase::Undo => {
                d.head = Some(id(&a[2]));
                SquashEvent::Answer { yes: true }
            }
            SquashPhase::ForcePush => {
                let current = o.main == d.fetched;
                if current {
                    o.main = d.head;
                    d.fetched = d.head;
                }
                SquashEvent::Answer { yes: current }
            }
            _ => SquashEvent::Answer { yes: true },
        };
        s.step(e);
    }
    s.note
}

fn remote_copy(c: &Copy) -> RemoteCopy {
    RemoteCopy {
        vault: c.vault.clone(),
        has_sync_uuid: c.has_sync_uuid,
        has_history: c.has_history,
    }
}

fn sync(o: &mut Origin, d: &mut Device, key: &[u8; 32], keep: u64) -> Result<String, String> {
    let mut s = git_sync_vault_with_retention(keep);
    loop {
        let e = match &s.phase {
            Phase::Done { result, note } => return conclude(result, note),
            Phase::Setup => SyncEvent::SetupSeen {
                dir: Some("/vault".to_string()),
                configured: true,
                ignored: d.ignored,
            },
            Phase::WriteIgnore => {
                d.ignored = true;
                SyncEvent::Performed
            }
            Phase::Fetch => {
                d.fetched = o.main;
                SyncEvent::Ran { outcome: Ok(o.main.is_some()) }
            }
            Phase::Probe => SyncEvent::Answer { yes: true },
            Phase::Heads => SyncEvent::HeadsSeen {
                local: d.head.map(|h| h.to_string()),
                remote: d.fetched.map(|h| h.to_string()),
                vault_exists: d.disk.is_some(),
            },
            Phase::QuickCheckpoint | Phase::Checkpoint => {
                prune_and_checkpoint(vault_of(d), CUTOFF);
                SyncEvent::Performed
            }
            Phase::QuickDirty | Phase::Dirty => {
                let head = d.head.map(|h| o.commits[h].tree.text());
                SyncEvent::DirtySeen { outcome: Ok(d.disk.as_ref().map(|c| c.text()) != head) }
            }
            Phase::Extract => SyncEvent::Extracted {
                has_remote: d.fetched.is_some(),
                vault_exists: d.disk.is_some(),
            },
            Phase::Restore => {
                d.disk = Some(o.commits[d.fetched.unwrap()].tree.clone());
                SyncEvent::Finished { result: Ok(()) }
            }
            Phase::Open => SyncEvent::Answer { yes: o.commits[d.fetched.unwrap()].tree.key == *key },
            Phase::Merge => {
                let remote = remote_copy(&o.commits[d.fetched.unwrap()].tree);
                let result = merge_remote(vault_of(d), &remote, VERSION, PASSWORD_HISTORY_CAP);
                SyncEvent::Finished { result }
            }
            Phase::Salts => SyncEvent::SaltsSeen {
                remote_salt: Some(o.commits[d.fetched.unwrap()].tree.salt),
                local_salt: d.disk.as_ref().map(|c| c.salt),
            },
            Phase::Ancestor { .. } => SyncEvent::Answer {
                yes: ancestors(o, d.head).contains(&d.fetched.unwrap()),
            },
            Phase::HeadSalt { .. } => SyncEvent::HeadSaltSeen {
                salt: d.head.map(|h| o.commits[h].tree.salt),
            },
            Phase::Backup { .. } => SyncEvent::BackedUp { path: Some("/vault/backup".to_string()) },
            Phase::Reset => {
                d.head = d.fetched;
                SyncEvent::Ran { outcome: Ok(true) }
            }
            Phase::Index => SyncEvent::Answer {
                yes: d.head.map(|h| o.commits[h].tree.text()) == d.disk.as_ref().map(|c| c.text()),
            },
            Phase::Commit => {
                o.commits.push(Commit {
                    parent: d.head,
                    tree: d.disk.clone().unwrap(),
                    subject: "sync: auto-merge vault updates".to_string(),
                });
                d.head = Some(o.commits.len() - 1);
                SyncEvent::Ran { outcome: Ok(true) }
            }
            Phase::Push => {
                let fits = match o.main {
                    Some(m) => ancestors(o, d.head).contains(&m),
                    None => true,
                };
                if fits {
                    o.main = d.head;
                    d.fetched = d.head;
                }
                SyncEvent::Ran { outcome: Ok(fits) }
            }
            Phase::Squash { .. } => SyncEvent::Noted { note: squash(o, d, keep) },
            Phase::Stage => SyncEvent::Ran { outcome: Ok(true) },
            Phase::RestoreSidecar | Phase::DropSidecar => SyncEvent::Performed,
        };
        s = advance(s, e);
    }
}

fn conflicts_on(o: &Origin, d: &mut Device, key: &[u8; 32]) -> Vec<ConflictGroup> {
    d.fetched = o.main;
    let theirs = ancestors(o, d.fetched);
    let base = ancestors(o, d.head).into_iter().find(|c| theirs.contains(c));
    let remote = d.fetched.map(|t| remote_copy(&o.commits[t].tree));
    let base = base.map(|b| o.commits[b].tree.vault.clone());
    detect_sync_conflicts(d.head == d.fetched, vault_of(d), &remote, &base, key, VERSION)
}

fn password(s: &SecretRecord, key: &[u8; 32]) -> Vec<u8> {
    crypto::decrypt(&s.encrypted_password, key).unwrap()
}

fn find_secret<'a>(secrets: &'a [SecretRecord], title: &str) -> &'a SecretRecord {
    secrets.iter().find(|s| s.title == title).unwrap()
}

fn add(d: &mut Device, title: &str, pw: &str, key: &[u8; 32], n: u32) {
    add_secret(vault_of(d), title, "Cat", "user", "", pw, None, key, &at(n)).unwrap();
}

fn change(d: &mut Device, old: &str, new: &str, pw: &str, key: &[u8; 32], n: u32) {
    let id = find_secret(&vault_of(d).secrets, old).id;
    update_secret(vault_of(d), id, new, "Cat", "user", "", pw, None, key, &at(n), PASSWORD_HISTORY_CAP)
        .unwrap();
}

fn accept_remote(d: &mut Device, c: &ConflictGroup, n: u32) {
    let r = &c.remote_secret;
    update_secret_raw(
        vault_of(d),
        c.local_secret.id,
        &r.title,
        &r.category,
        &r.username,
        &r.url,
        &r.encrypted_password,
        &r.encrypted_notes,
        &at(n),
    );
}

#[test]
fn conflict_resolution_preserves_unrelated_remote_changes() {
    let mut o = empty_origin();
    let (mut a, key) = new_device("shared-master-password");
    add(&mut a, "Alpha", "alpha-v1", &key, 1);
    add(&mut a, "Common", "common-v1", &key, 1);
    push_initial(&mut o, &mut a);
    let mut b = pulled(&o);
    assert_eq!(get_secrets(vault_of(&mut b)).len(), 2);

    add(&mut b, "Bravo", "bravo-v1", &key, 2);
    change(&mut b, "Common", "Common", "common-v2-from-B", &key, 2);
    assert!(sync(&mut o, &mut b, &key, 0).is_ok());

    change(&mut a, "Common", "Common", "common-v2-from-A", &key, 3);
    let conflicts = conflicts_on(&o, &mut a, &key);
    assert_eq!(conflicts.len(), 1);
    assert_eq!(conflicts[0].title, "Common");
    accept_remote(&mut a, &conflicts[0], 4);
    assert!(sync(&mut o, &mut a, &key, 0).is_ok());

    let all = get_secrets(vault_of(&mut a));
    assert_eq!(all.len(), 3);
    assert_eq!(password(find_secret(&all, "Alpha"), &key), b"alpha-v1");
    assert_eq!(password(find_secret(&all, "Common"), &key), b"common-v2-from-B");
    assert_eq!(password(find_secret(&all, "Bravo"), &key), b"bravo-v1");
}

#[test]
fn duplicate_triple_records_both_survive_a_merge() {
    let mut o = empty_origin();
    let (mut a, key) = new_device("shared-master-password");
    add(&mut a, "Dup", "dup-v1-from-A", &key, 1);
    push_initial(&mut o, &mut a);
    let mut b = pulled(&o);
    add(&mut b, "Dup", "dup-v2-from-B", &key, 2);
    assert!(sync(&mut o, &mut b, &key, 0).is_ok());
    assert!(sync(&mut o, &mut a, &key, 0).is_ok());

    let all = get_secrets(vault_of(&mut a));
    assert_eq!(all.len(), 2);
    let pws: Vec<Vec<u8>> = all.iter().map(|s| password(s, &key)).collect();
    assert!(pws.contains(&b"dup-v1-from-A".to_vec()));
    assert!(pws.contains(&b"dup-v2-from-B".to_vec()));
    assert_ne!(all[0].sync_uuid, all[1].sync_uuid);
}

#[test]
fn dedup_deletions_of_shared_triple_records_propagate_to_other_devices() {
    let mut o = empty_origin();
    let (mut a, key) = new_device("shared-master-password");
    for pw in ["dup-v1", "dup-v2", "dup-keep"] {
        add(&mut a, "Dup", pw, &key, 1);
    }
    push_initial(&mut o, &mut a);
    let mut b = pulled(&o);
    assert_eq!(get_secrets(vault_of(&mut b)).len(), 3);

    let all = get_secrets(vault_of(&mut a));
    let keep = all.iter().find(|s| password(s, &key) == b"dup-keep").unwrap().clone();
    for s in all.iter().filter(|s| s.id != keep.id) {
        delete_secret(vault_of(&mut a), s.id, &at(2));
    }
    update_secret_raw(
        vault_of(&mut a),
        keep.id,
        &keep.title,
        &keep.category,
        &keep.username,
        &keep.url,
        &keep.encrypted_password,
        &keep.encrypted_notes,
        &at(2),
    );
    assert!(sync(&mut o, &mut a, &key, 0).is_ok());
    assert!(sync(&mut o, &mut b, &key, 0).is_ok());

    let left = get_secrets(vault_of(&mut b));
    assert_eq!(left.len(), 1);
    assert_eq!(left[0].sync_uuid, keep.sync_uuid);
    assert_eq!(password(&left[0], &key), b"dup-keep");
    for d in [&mut a, &mut b] {
        let marks: Vec<Option<String>> =
            vault_of(d).tombstones.iter().map(|t| t.sync_uuid.clone()).collect();
        assert_eq!(marks.len(), 2);
        assert!(marks.iter().all(|m| m.is_some()));
        assert_ne!(marks[0], marks[1]);
        assert!(!marks.contains(&Some(keep.sync_uuid.clone())));
    }
}

fn rotate(d: &mut Device, key: &[u8; 32], new_password: &str, n: u32) -> [u8; 32] {
    let (vault, keys) = change_master_password(vault_of(d), key, new_password, &at(n)).unwrap();
    d.disk = Some(Copy {
        vault,
        salt: keys.salt,
        key: keys.master_key,
        has_sync_uuid: true,
        has_history: true,
    });
    keys.master_key
}

#[test]
fn stale_device_refuses_to_push_over_a_rotated_remote() {
    let mut o = empty_origin();
    let (mut a, key) = new_device("old-master-password");
    add(&mut a, "Alpha", "alpha-v1", &key, 1);
    push_initial(&mut o, &mut a);
    let mut b = pulled(&o);
    let stale_salt = b.disk.as_ref().unwrap().salt;

    let new_key = rotate(&mut a, &key, "new-master-password", 2);
    let rotated_salt = a.disk.as_ref().unwrap().salt;
    assert_ne!(rotated_salt, stale_salt);
    assert!(sync(&mut o, &mut a, &new_key, 0).is_ok());

    let err = sync(&mut o, &mut b, &key, 0).unwrap_err();
    assert!(err.contains("different master password"), "{}", err);
    assert_eq!(b.disk.as_ref().unwrap().salt, stale_salt);
    assert_eq!(o.commits[o.main.unwrap()].tree.salt, rotated_salt);

    b.disk = None;
    assert!(sync(&mut o, &mut b, &key, 0).is_ok());
    let all = get_secrets(vault_of(&mut b));
    assert_eq!(all.len(), 1);
    assert_eq!(password(&all[0], &new_key), b"alpha-v1");
}

#[test]
fn first_sync_to_an_empty_remote_pushes_the_initial_backup() {
    let mut o = empty_origin();
    let (mut a, key) = new_device("shared-master-password");
    add(&mut a, "Alpha", "alpha-v1", &key, 1);
    let msg = sync(&mut o, &mut a, &key, 0).unwrap();
    assert!(msg.contains("merged and updated"), "got: {}", msg);
    let mut b = pulled(&o);
    assert_eq!(get_secrets(vault_of(&mut b)).len(), 1);
}

#[test]
fn password_history_unions_across_devices_and_tolerates_legacy_remotes() {
    let mut o = empty_origin();
    let (mut a, key) = new_device("shared-master-password");
    add(&mut a, "Site", "v1", &key, 1);
    push_initial(&mut o, &mut a);
    let mut b = pulled(&o);

    change(&mut a, "Site", "Site", "v2", &key, 2);
    assert!(sync(&mut o, &mut a, &key, 0).is_ok());
    assert!(sync(&mut o, &mut b, &key, 0).is_ok());
    let uuid = vault_of(&mut b).secrets[0].sync_uuid.clone();
    let h = get_password_history(vault_of(&mut b), &uuid);
    assert_eq!(h.len(), 1);
    assert_eq!(crypto::decrypt(&h[0].encrypted_password, &key).unwrap(), b"v1");

    change(&mut b, "Site", "Site", "v3", &key, 3);
    assert!(sync(&mut o, &mut b, &key, 0).is_ok());
    assert!(sync(&mut o, &mut a, &key, 0).is_ok());
    assert!(sync(&mut o, &mut a, &key, 0).is_ok());
    let h = get_password_history(vault_of(&mut a), &uuid);
    assert_eq!(h.len(), 2, "both entries exactly once");
    let plain: Vec<Vec<u8>> =
        h.iter().map(|e| crypto::decrypt(&e.encrypted_password, &key).unwrap()).collect();
    assert!(plain.contains(&b"v1".to_vec()) && plain.contains(&b"v2".to_vec()));

    // A device without histories pushes.
    b = pulled(&o);
    let disk = b.disk.as_mut().unwrap();
    disk.vault.history = vec![];
    disk.has_history = false;
    push_initial(&mut o, &mut b);
    assert!(sync(&mut o, &mut a, &key, 0).is_ok());
    assert_eq!(get_password_history(vault_of(&mut a), &uuid).len(), 2);
}

#[test]
fn history_retention_bounds_origin_and_keeps_old_devices_working() {
    let mut o = empty_origin();
    let (mut a, key) = new_device("shared-master-password");
    add(&mut a, "Base", "base-v1", &key, 1);
    push_initial(&mut o, &mut a);
    let mut b = pulled(&o);

    for i in 0..5u32 {
        add(&mut a, &format!("Item{}", i), &format!("pw-{}", i), &key, 2 + i);
        let msg = sync(&mut o, &mut a, &key, 3).unwrap();
        assert!(ancestors(&o, o.main).len() <= 3, "{}", msg);
    }
    assert_eq!(ancestors(&o, o.main).len(), 3);
    let root = *ancestors(&o, o.main).last().unwrap();
    assert_eq!(
        o.commits[root].subject,
        "keystash: history squashed by retention policy (keeping last 3 snapshots)"
    );

    let mut c = pulled(&o);
    assert_eq!(get_secrets(vault_of(&mut c)).len(), 6);

    add(&mut b, "FromOldB", "old-b-v1", &key, 20);
    let r = sync(&mut o, &mut b, &key, 0);
    assert!(r.is_ok(), "a device from before must still sync: {:?}", r);
    assert_eq!(get_secrets(vault_of(&mut b)).len(), 7);
}

#[test]
fn a_refused_rewrite_is_undone() {
    let mut s = maybe_squash_history(2);
    let out = |t: &str| SquashEvent::Output { text: Some(t.to_string()) };
    for e in [out("3"), out("oldhead"), out("hz"), out("root"), out("c1"), out("subject"), out("new")] {
        s.step(e);
    }
    assert_eq!(s.git_args(), vec!["reset", "--soft", "new"]);
    s.step(SquashEvent::Answer { yes: true });
    assert_eq!(s.git_args(), vec!["push", "--force-with-lease", "origin", "main"]);
    s.step(SquashEvent::Answer { yes: false });
    assert_eq!(s.git_args(), vec!["reset", "--soft", "oldhead"]);
    s.step(SquashEvent::Answer { yes: true });
    assert_eq!(s.phase, SquashPhase::Done);
    assert!(s.note.unwrap().contains("the remote refused the rewritten history"));

    let mut short = maybe_squash_history(3);
    short.step(out("3"));
    assert_eq!(short.phase, SquashPhase::Done);
    assert_eq!(short.note, None);
    assert_eq!(maybe_squash_history(0).phase, SquashPhase::Done);
}

fn run_setup(o: &mut Origin, dir: &mut Option<Device>, has_git: &mut bool, first: bool) -> Result<String, String> {
    let mut s = setup_sync_repo("url".to_string(), first);
    loop {
        let e = match &s.phase {
            SetupPhase::Done { result } => return conclude_setup(result),
            SetupPhase::Look => SetupEvent::Seen {
                has_dir: true,
                has_git: *has_git,
                vault_exists: dir.is_some(),
            },
            SetupPhase::Run { step } => {
                let mut ok = true;
                match step {
                    SetupStep::Init => *has_git = true,
                    SetupStep::Push => push_initial(o, dir.as_mut().unwrap()),
                    SetupStep::Pull => {
                        ok = o.main.is_some();
                        if ok {
                            *dir = Some(pulled(o));
                        }
                    }
                    _ => {}
                }
                SetupEvent::Ran { outcome: Ok(ok) }
            }
            SetupPhase::WriteIgnore => SetupEvent::Wrote { error: None },
            SetupPhase::Identity => SetupEvent::Answer { yes: false },
            SetupPhase::Probe => SetupEvent::Ran { outcome: Ok(true) },
            SetupPhase::CheckVault => SetupEvent::Answer { yes: dir.is_some() },
        };
        s = advance_setup(s, e);
    }
}

#[test]
fn sync_setup_wizard_core_configures_both_device_kinds() {
    let mut o = empty_origin();
    let (mut first, key) = new_device("shared-master-password");
    add(&mut first, "Alpha", "alpha-v1", &key, 1);

    let err = run_setup(&mut o, &mut None, &mut false, true).unwrap_err();
    assert!(err.contains("keystash init"), "{}", err);
    let err = run_setup(&mut o, &mut None, &mut false, false).unwrap_err();
    assert!(err.contains("git pull failed"), "{}", err);

    let mut a = Some(first);
    let mut a_git = false;
    let msg = run_setup(&mut o, &mut a, &mut a_git, true).unwrap();
    assert!(msg.contains("pushed"), "{}", msg);
    let err = run_setup(&mut o, &mut a, &mut a_git, true).unwrap_err();
    assert!(err.contains("already a git repository"), "{}", err);
    let err = run_setup(&mut o, &mut a, &mut false, false).unwrap_err();
    assert!(err.contains("A local vault already exists here"), "{}", err);

    let mut b: Option<Device> = None;
    let msg = run_setup(&mut o, &mut b, &mut false, false).unwrap();
    assert!(msg.contains("pulled"), "{}", msg);
    let mut b = b.unwrap();
    let mut a = a.unwrap();
    add(&mut b, "FromB", "b-v1", &key, 2);
    assert!(sync(&mut o, &mut b, &key, 0).is_ok());
    assert!(sync(&mut o, &mut a, &key, 0).is_ok());
    assert_eq!(get_secrets(vault_of(&mut a)).len(), 2);
}

#[test]
fn setup_commands_and_failures_are_worded() {
    assert_eq!(setup_args(SetupStep::AddRemote, "git@h:r"), vec!["remote", "add", "origin", "git@h:r"]);
    assert_eq!(setup_args(SetupStep::Push, "u"), vec!["push", "-u", "origin", "main"]);
    let mut s = setup_sync_repo("git@h:r".to_string(), true);
    s = advance_setup(s, SetupEvent::Seen { has_dir: true, has_git: false, vault_exists: true });
    let failed = advance_setup(s, SetupEvent::Ran { outcome: Err("no git".to_string()) });
    match failed.phase {
        SetupPhase::Done { result } => {
            assert_eq!(conclude_setup(&result).unwrap_err(), "git init failed: no git");
        }
        other => panic!("{:?}", other),
    }
}

#[test]
fn rotation_race_refusal_names_the_local_rotation() {
    let mut o = empty_origin();
    let (mut a, key) = new_device("old-master-password");
    add(&mut a, "Alpha", "alpha-v1", &key, 1);
    push_initial(&mut o, &mut a);
    let mut b = pulled(&o);

    let new_key = rotate(&mut a, &key, "new-master-password", 2);
    let rotated_salt = a.disk.as_ref().unwrap().salt;
    add(&mut b, "FromB", "b-v1", &key, 3);
    assert!(sync(&mut o, &mut b, &key, 0).is_ok());

    let err = sync(&mut o, &mut a, &new_key, 0).unwrap_err();
    assert!(err.contains("this device recently changed its master password"), "{}", err);
    assert!(err.contains("OLD master password"), "{}", err);
    assert!(!err.contains("rotated (or re-initialized) on another device"), "{}", err);
    assert_eq!(a.disk.as_ref().unwrap().salt, rotated_salt);
    assert_ne!(o.commits[o.main.unwrap()].tree.salt, rotated_salt);

    a.disk = None;
    assert!(sync(&mut o, &mut a, &new_key, 0).is_ok());
    let titles: Vec<String> =
        get_secrets(vault_of(&mut a)).into_iter().map(|s| s.title).collect();
    assert!(titles.contains(&"FromB".to_string()));
}

#[test]
fn first_upgraded_device_can_still_push_to_a_pre_sync_uuid_remote() {
    let mut o = empty_origin();
    let (mut a, key) = new_device("shared-master-password");
    add(&mut a, "OldFormat", "old-format-secret-v1", &key, 1);
    let disk = a.disk.as_mut().unwrap();
    disk.has_sync_uuid = false;
    disk.has_history = false;
    push_initial(&mut o, &mut a);

    let mut b = pulled(&o);
    let schema = SchemaFacts {
        has_url: true,
        has_sync_uuid: false,
        has_tombstone_uuid: false,
        tombstones_keyed_on_triple: true,
    };
    let old = b.disk.take().unwrap();
    let vault =
        open_vault(Some(StoredVault { vault: old.vault.clone(), schema }), &key, VERSION).unwrap();
    b.disk = Some(Copy { vault, has_sync_uuid: true, has_history: true, ..old });
    add(&mut b, "NewFromB", "new-v1-from-B", &key, 2);
    let push = sync(&mut o, &mut b, &key, 0);
    assert!(push.is_ok(), "{:?}", push);

    let all = get_secrets(vault_of(&mut b));
    assert_eq!(all.len(), 2);
    assert!(all.iter().all(|s| !s.sync_uuid.is_empty()));
    assert!(o.commits[o.main.unwrap()].tree.has_sync_uuid);
}

#[test]
fn sync_refuses_a_remote_requiring_a_newer_version() {
    let mut o = empty_origin();
    let (mut a, key) = new_device("shared-master-password");
    add(&mut a, "Alpha", "alpha-v1", &key, 1);
    push_initial(&mut o, &mut a);
    let mut b = pulled(&o);
    vault_of(&mut a).min_app_version = Some("99.0.0".to_string());
    push_initial(&mut o, &mut a);

    let err = sync(&mut o, &mut b, &key, 0).unwrap_err();
    assert!(err.contains("99.0.0"), "{}", err);
    assert!(conflicts_on(&o, &mut b, &key).is_empty());
}

#[test]
fn detect_sync_conflicts_fetches_the_remote_itself() {
    let mut o = empty_origin();
    let (mut a, key) = new_device("shared-master-password");
    add(&mut a, "Common", "common-v1", &key, 1);
    push_initial(&mut o, &mut a);
    let mut b = pulled(&o);
    change(&mut a, "Common", "Common", "common-v2-from-A", &key, 2);
    assert!(sync(&mut o, &mut a, &key, 0).is_ok());
    change(&mut b, "Common", "Common", "common-v2-from-B", &key, 3);
    assert_eq!(conflicts_on(&o, &mut b, &key).len(), 1);
}

#[test]
fn noop_syncs_short_circuit_after_the_fetch() {
    let mut o = empty_origin();
    let (mut a, key) = new_device("shared-master-password");
    add(&mut a, "Alpha", "alpha-v1", &key, 1);
    push_initial(&mut o, &mut a);
    assert_eq!(ancestors(&o, o.main).len(), 1);
    let msg = sync(&mut o, &mut a, &key, 0).unwrap();
    assert!(msg.contains("up-to-date"), "{}", msg);
    assert_eq!(ancestors(&o, o.main).len(), 1);

    add(&mut a, "Beta", "beta-v1", &key, 2);
    let msg = sync(&mut o, &mut a, &key, 0).unwrap();
    assert!(msg.contains("merged and updated"), "{}", msg);
    assert_eq!(ancestors(&o, o.main).len(), 2);

    let mut b = pulled(&o);
    let msg = sync(&mut o, &mut b, &key, 0).unwrap();
    assert!(msg.contains("up-to-date"), "{}", msg);
    assert_eq!(get_secrets(vault_of(&mut b)).len(), 2);
}

#[test]
fn noop_sync_with_open_connection_and_no_gitignore_reports_up_to_date() {
    let mut o = empty_origin();
    let (mut a, key) = new_device("shared-master-password");
    add(&mut a, "Alpha", "alpha-v1", &key, 1);
    push_initial(&mut o, &mut a);
    a.ignored = false;
    let msg = sync(&mut o, &mut a, &key, 0).unwrap();
    assert!(msg.contains("up-to-date"), "{}", msg);
    assert!(a.ignored, "the ignore file is written");
    let again = sync(&mut o, &mut a, &key, 0).unwrap();
    assert!(again.contains("up-to-date"), "{}", again);
}

#[test]
fn rows_without_an_identity_are_not_merged() {
    let (mut a, key) = new_device("pw");
    add(&mut a, "One", "1", &key, 1);
    add(&mut a, "Two", "2", &key, 1);
    let rows: Vec<(SecretRecord, Option<String>)> = vec![
        (vault_of(&mut a).secrets[0].clone(), Some("u".to_string())),
        (vault_of(&mut a).secrets[1].clone(), None),
    ];
    let kept = identified(&rows);
    assert_eq!(kept.len(), 1);
    assert_eq!((kept[0].title.as_str(), kept[0].sync_uuid.as_str()), ("One", "u"));
    assert_eq!(IGNORE_TEXT, "*\n!vault.db\n");
}

#[test]
fn renames_propagate_between_devices() {
    let mut o = empty_origin();
    let (mut a, key) = new_device("shared-master-password");
    add_secret(
        vault_of(&mut a), "Old Name", "old-tag", "olduser", "", "the-password", None, &key, &at(1),
    )
    .unwrap();
    push_initial(&mut o, &mut a);
    let mut b = pulled(&o);
    let (id, uuid) = {
        let s = &vault_of(&mut a).secrets[0];
        (s.id, s.sync_uuid.clone())
    };
    update_secret(
        vault_of(&mut a), id, "New Name", "new-tag, work", "newuser", "https://renamed.example",
        "the-password", None, &key, &at(2), PASSWORD_HISTORY_CAP,
    )
    .unwrap();
    assert!(sync(&mut o, &mut a, &key, 0).is_ok());
    assert!(sync(&mut o, &mut b, &key, 0).is_ok());

    let all = get_secrets(vault_of(&mut b));
    assert_eq!(all.len(), 1);
    let r = &all[0];
    assert_eq!(r.sync_uuid, uuid);
    assert_eq!(r.title, "New Name");
    assert_eq!(r.category, "new-tag, work");
    assert_eq!(r.username, "newuser");
    assert_eq!(r.url, "https://renamed.example");
    assert_eq!(password(r, &key), b"the-password");
    assert!(sync(&mut o, &mut a, &key, 0).is_ok());
    assert_eq!(get_secrets(vault_of(&mut a))[0].title, "New Name");
}

#[test]
fn concurrent_renames_surface_as_conflict_and_resolve() {
    let mut o = empty_origin();
    let (mut a, key) = new_device("shared-master-password");
    add(&mut a, "Original", "same-password", &key, 1);
    push_initial(&mut o, &mut a);
    let mut b = pulled(&o);
    change(&mut a, "Original", "Renamed-by-A", "same-password", &key, 2);
    assert!(sync(&mut o, &mut a, &key, 0).is_ok());
    change(&mut b, "Original", "Renamed-by-B", "same-password", &key, 3);

    let conflicts = conflicts_on(&o, &mut b, &key);
    assert_eq!(conflicts.len(), 1);
    assert_eq!(conflicts[0].local_secret.title, "Renamed-by-B");
    assert_eq!(conflicts[0].remote_secret.title, "Renamed-by-A");
    accept_remote(&mut b, &conflicts[0], 4);
    assert!(sync(&mut o, &mut b, &key, 0).is_ok());
    assert_eq!(get_secrets(vault_of(&mut b))[0].title, "Renamed-by-A");
    assert!(sync(&mut o, &mut a, &key, 0).is_ok());
    assert_eq!(get_secrets(vault_of(&mut a))[0].title, "Renamed-by-A");
}

#[test]
fn later_changes_win_and_deletions_hold() {
    let (mut a, key) = new_device("pw");
    add(&mut a, "Kept", "v1", &key, 1);
    add(&mut a, "Gone", "v1", &key, 1);
    let mut b = Device { disk: a.disk.clone(), head: None, fetched: None, ignored: true };
    change(&mut a, "Kept", "Kept", "from-a", &key, 5);
    change(&mut b, "Kept", "Kept", "from-b", &key, 4);
    delete_secret(vault_of(&mut b), 2, &at(3));

    let mut left = vault_of(&mut a).clone();
    let mut right = vault_of(&mut b).clone();
    merge_vaults(&mut left, vault_of(&mut b), true, 10).unwrap();
    merge_vaults(&mut right, vault_of(&mut a), true, 10).unwrap();
    for v in [&left, &right] {
        assert_eq!(v.secrets.len(), 1);
        assert_eq!(password(&v.secrets[0], &key), b"from-a");
        assert_eq!(v.tombstones.len(), 1);
    }
    let before = format!("{:?}", left);
    merge_vaults(&mut left, vault_of(&mut b), true, 10).unwrap();
    assert_eq!(format!("{:?}", left), before, "merging once more changes nothing");

    // An edit after the deletion brings the record back.
    let mut again = vault_of(&mut a).clone();
    let id = find_secret(&again.secrets, "Gone").id;
    update_secret(&mut again, id, "Gone", "Cat", "user", "", "v2", None, &key, &at(9), 10).unwrap();
    merge_vaults(&mut again, vault_of(&mut b), true, 10).unwrap();
    assert_eq!(again.secrets.len(), 2);
}

#[test]
fn merged_histories_are_capped() {
    let (mut a, key) = new_device("pw");
    add(&mut a, "Site", "v0", &key, 0);
    for i in 1..8u32 {
        change(&mut a, "Site", "Site", &format!("v{i}"), &key, i);
    }
    assert_eq!(vault_of(&mut a).history.len(), 7);
    let short = cap_history(&vault_of(&mut a).history, 3);
    assert_eq!(short.len(), 3);
    let newest: Vec<Vec<u8>> =
        short.iter().map(|e| crypto::decrypt(&e.encrypted_password, &key).unwrap()).collect();
    for v in ["v4", "v5", "v6"] {
        assert!(newest.contains(&v.as_bytes().to_vec()));
    }
}

#[test]
fn a_merge_by_name_keeps_identities() {
    let (mut a, key) = new_device("pw");
    add(&mut a, "Site", "v1", &key, 1);
    let uuid = vault_of(&mut a).secrets[0].sync_uuid.clone();
    let mut remote = vault_of(&mut a).clone();
    update_secret(&mut remote, 1, "Site", "Cat", "user", "", "v2", None, &key, &at(2), 10).unwrap();
    add_secret(&mut remote, "Other", "Cat", "user", "", "o", None, &key, &at(2)).unwrap();
    remote.tombstones.push(Tombstone {
        title: "Deleted".to_string(),
        category: "Cat".to_string(),
        username: "user".to_string(),
        deleted_at: at(3),
        sync_uuid: None,
    });
    add(&mut a, "Deleted", "d", &key, 1);
    let copy = RemoteCopy { vault: remote, has_sync_uuid: false, has_history: false };
    merge_remote(vault_of(&mut a), &copy, VERSION, 10).unwrap();
    let all = get_secrets(vault_of(&mut a));
    assert_eq!(all.len(), 2);
    let site = find_secret(&all, "Site");
    assert_eq!(site.sync_uuid, uuid);
    assert_eq!(password(site, &key), b"v2");
    assert_ne!(find_secret(&all, "Other").sync_uuid, uuid);
}

fn fed(events: Vec<SyncEvent>) -> Phase {
    let mut s = git_sync_vault();
    for e in events {
        s = advance(s, e);
    }
    s.phase
}

fn ready() -> SyncEvent {
    SyncEvent::SetupSeen { dir: Some("/d".to_string()), configured: true, ignored: true }
}

fn error_of(p: Phase) -> String {
    match p {
        Phase::Done { result, note } => conclude(&result, &note).unwrap_err(),
        other => panic!("not done: {:?}", other),
    }
}

#[test]
fn every_failure_is_reported() {
    let ran = |x: Result<bool, String>| SyncEvent::Ran { outcome: x };
    let no_git = || Err("no git".to_string());
    assert_eq!(
        error_of(fed(vec![SyncEvent::SetupSeen { dir: None, configured: true, ignored: true }])),
        "Invalid database directory"
    );
    assert_eq!(
        error_of(fed(vec![SyncEvent::SetupSeen {
            dir: Some("/d".to_string()),
            configured: false,
            ignored: true,
        }])),
        "Sync not configured. Run `keystash sync setup` (or set up git in /d) to enable syncing."
    );
    assert!(error_of(fed(vec![ready(), ran(no_git())])).contains("no git"));
    let e = error_of(fed(vec![ready(), ran(Ok(false)), SyncEvent::Answer { yes: false }]));
    assert!(!e.is_empty());
    let heads = || SyncEvent::HeadsSeen { local: None, remote: Some("r".to_string()), vault_exists: true };
    let shown = || SyncEvent::Extracted { has_remote: true, vault_exists: true };
    let e = error_of(fed(vec![
        ready(), ran(Ok(true)), heads(), shown(), SyncEvent::Answer { yes: true },
        SyncEvent::Finished { result: Err("broken merge".to_string()) },
    ]));
    assert!(e.contains("broken merge"), "{}", e);
    for (answers, _) in [(vec![ran(Ok(false))], 0), (vec![ran(Ok(true)), SyncEvent::Performed,
        SyncEvent::DirtySeen { outcome: Ok(false) }, ran(Ok(false))], 1)] {
        let mut events = vec![
            ready(), ran(Ok(true)), heads(), shown(), SyncEvent::Answer { yes: true },
            SyncEvent::Finished { result: Ok(()) },
        ];
        events.extend(answers);
        assert!(!error_of(fed(events)).is_empty());
    }
}

#[test]
fn an_unreadable_remote_is_backed_up_before_it_is_replaced() {
    let mut magic = [0u8; 16];
    magic.copy_from_slice(b"SQLite format 3\0");
    assert!(is_plaintext_magic(&magic));
    let events = |salt: [u8; 16]| {
        vec![
            ready(),
            SyncEvent::Ran { outcome: Ok(true) },
            SyncEvent::HeadsSeen { local: None, remote: Some("r".to_string()), vault_exists: true },
            SyncEvent::Extracted { has_remote: true, vault_exists: true },
            SyncEvent::Answer { yes: false },
            SyncEvent::SaltsSeen { remote_salt: Some(salt), local_salt: Some([1u8; 16]) },
        ]
    };
    assert!(matches!(fed(events(magic)), Phase::Backup { plaintext: true }));
    assert!(matches!(fed(events([1u8; 16])), Phase::Backup { plaintext: false }));
    assert!(matches!(fed(events([2u8; 16])), Phase::Ancestor { .. }));
    let mut all = events(magic);
    all.push(SyncEvent::BackedUp { path: Some("/d/backup".to_string()) });
    all.push(SyncEvent::Ran { outcome: Ok(true) });
    all.push(SyncEvent::Performed);
    all.push(SyncEvent::DirtySeen { outcome: Ok(false) });
    all.push(SyncEvent::Ran { outcome: Ok(true) });
    all.push(SyncEvent::Noted { note: None });
    match fed(all) {
        Phase::Done { result, note } => {
            assert!(matches!(result, SyncResult::PushedOverRemote { plaintext: true, .. }));
            assert!(conclude(&result, &note).unwrap().contains("/d/backup"));
        }
        other => panic!("{:?}", other),
    }
}

#[test]
fn command_output_is_read() {
    assert!(!vault_paths_dirty(b""));
    assert!(vault_paths_dirty(b" M vault.db\n"));
    assert_eq!(command_text(b" abc\n"), "abc");
    assert_eq!(file_head(b"short"), None);
    assert_eq!(file_head(&[7u8; 20]), Some([7u8; 16]));
    assert!(is_git_configured(&Some("/d".to_string()), true));
    assert!(!is_git_configured(&Some("/d".to_string()), false));
    assert!(!is_git_configured(&None, true));
    assert_eq!(git_args(&Phase::Fetch).unwrap(), vec!["fetch", "origin", "main"]);
    assert_eq!(git_args(&Phase::Setup), None);
}
