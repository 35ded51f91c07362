//! Files of a vault: their names, the state that they show and the salt in their heads.
use vstd::prelude::*;
use vstd::string::*;

use crate::sync::{is_plaintext_magic, plaintext_magic};
use crate::text::{chars_of, debug_text, quoted, same_bytes, string_of};

verus! {

/// How many characters stand before the components of a path: the slash of an absolute path, or
/// the dot that a relative one begins with.
pub open spec fn lead(path: Seq<char>) -> int {
    if path.len() > 0 && (path[0] == '/' || (path[0] == '.' && (path.len() == 1 || path[1] == '/'))) {
        1
    } else {
        0
    }
}

/// Where the last component of a path begins: after its last slash from place `n` on.
pub open spec fn last_start(path: Seq<char>, n: int) -> int
    decreases path.len(),
{
    if path.len() == 0 || path.len() <= n {
        n
    } else if path.last() == '/' {
        path.len() as int
    } else {
        last_start(path.drop_last(), n)
    }
}

/// A path without its last component and the slash before that.
pub open spec fn shortened_path(path: Seq<char>, n: int) -> Seq<char> {
    let k = last_start(path, n);
    path.take(if k > n {
        k - 1
    } else {
        n
    })
}

/// A path without the slashes and dots at its end, which name nothing.
pub open spec fn tidied(path: Seq<char>, n: int) -> Seq<char>
    decreases path.len(),
{
    if path.len() <= n {
        path
    } else {
        let last = path.skip(last_start(path, n));
        if (last.len() == 0 || last == seq!['.']) && shortened_path(path, n).len() < path.len() {
            tidied(shortened_path(path, n), n)
        } else {
            path
        }
    }
}

/// The directory of the file that a path names; the path itself where it names none, as where it
/// ends in `..`.
pub open spec fn dir_part(path: Seq<char>) -> Seq<char> {
    let n = lead(path);
    let whole = tidied(path, n);
    if whole.len() <= n || whole.skip(last_start(whole, n)) == seq!['.', '.'] {
        path
    } else {
        tidied(shortened_path(whole, n), n)
    }
}

/// The path of another file in the same directory.
pub open spec fn sibling(path: Seq<char>, name: Seq<char>) -> Seq<char> {
    let dir = dir_part(path);
    if dir.len() == 0 || dir.last() == '/' {
        dir + name
    } else {
        dir + seq!['/'] + name
    }
}

fn find_last_start(v: &[char], end: usize, n: usize) -> (k: usize)
    requires
        n <= end <= v@.len(),
    ensures
        k == last_start(v@.take(end as int), n as int),
        n <= k <= end,
{
    let mut k: usize = end;
    while k > n && v[k - 1] != '/'
        invariant
            n <= k <= end <= v@.len(),
            last_start(v@.take(end as int), n as int) == last_start(v@.take(k as int), n as int),
        decreases k,
    {
        assert(v@.take(k as int).drop_last() =~= v@.take(k - 1));
        k -= 1;
    }
    k
}

/// Whether the characters from `k` to `end` are `count` dots.
fn are_dots(v: &[char], k: usize, end: usize, count: usize) -> (b: bool)
    requires
        k <= end <= v@.len(),
    ensures
        b == (v@.take(end as int).skip(k as int) == Seq::new(count as nat, |i: int| '.')),
{
    let ghost s = v@.take(end as int).skip(k as int);
    let ghost dots = Seq::new(count as nat, |i: int| '.');
    if end - k != count {
        assert(s.len() != dots.len());
        return false;
    }
    let mut i: usize = k;
    while i < end
        invariant
            k <= i <= end <= v@.len(),
            end - k == count,
            s == v@.take(end as int).skip(k as int),
            dots == Seq::new(count as nat, |i: int| '.'),
            forall|j: int| 0 <= j < i - k ==> s[j] == '.',
        decreases end - i,
    {
        assert(s[i - k] == v@[i as int]);
        if v[i] != '.' {
            assert(s[i - k] != dots[i - k]);
            return false;
        }
        i += 1;
    }
    assert(s =~= dots);
    true
}

fn tidy(v: &[char], end: usize, n: usize) -> (e: usize)
    requires
        n <= end <= v@.len(),
    ensures
        n <= e <= end,
        v@.take(e as int) == tidied(v@.take(end as int), n as int),
    decreases end,
{
    if end == n {
        return end;
    }
    let k: usize = find_last_start(v, end, n);
    let ghost p = v@.take(end as int);
    let dot = are_dots(v, k, end, 1);
    proof {
        assert(p.skip(k as int).len() == end - k);
        assert(Seq::new(1, |i: int| '.') =~= seq!['.']);
        if k > n {
            assert(p.take(k - 1) =~= v@.take(k - 1));
        }
        assert(p.take(n as int) =~= v@.take(n as int));
    }
    if k == end || dot {
        if k > n {
            tidy(v, k - 1, n)
        } else {
            tidy(v, n, n)
        }
    } else {
        end
    }
}

/// The path of another file in the same directory.
pub fn sibling_path(path: &str, name: &str) -> (r: String)
    ensures
        r@ == sibling(path@, name@),
{
    let v = chars_of(path);
    let len: usize = v.len();
    let n: usize = if len > 0 && (v[0] == '/' || (v[0] == '.' && (len == 1 || v[1] == '/'))) {
        1
    } else {
        0
    };
    assert(v@.take(len as int) =~= v@);
    let whole: usize = tidy(v.as_slice(), len, n);
    let ghost w = v@.take(whole as int);
    let k: usize = find_last_start(v.as_slice(), whole, n);
    let up = are_dots(v.as_slice(), k, whole, 2);
    proof {
        assert(Seq::new(2, |i: int| '.') =~= seq!['.', '.']);
        if k > n {
            assert(w.take(k - 1) =~= v@.take(k - 1));
        }
        assert(w.take(n as int) =~= v@.take(n as int));
    }
    let end: usize = if whole <= n || up {
        len
    } else if k > n {
        tidy(v.as_slice(), k - 1, n)
    } else {
        tidy(v.as_slice(), n, n)
    };
    let dir = crate::text::part(v.as_slice(), 0, end);
    assert(dir@ =~= v@.take(end as int));
    assert(dir@ == dir_part(path@));
    let mut r = string_of(dir.as_slice());
    if end > 0 && v[end - 1] != '/' {
        r.push('/');
        assert(r@ =~= dir@ + seq!['/']);
    }
    r.append(name);
    r
}

/// Where a migration builds the new vault.
pub fn migrating_tmp_path(db_path: &str) -> (r: String)
    ensures
        r@ == sibling(db_path@, "vault.db.migrating"@),
{
    sibling_path(db_path, "vault.db.migrating")
}

/// Where a migration keeps the old vault.
pub fn pre_sqlcipher_backup_path(db_path: &str) -> (r: String)
    ensures
        r@ == sibling(db_path@, "vault.db.pre-sqlcipher-backup"@),
{
    sibling_path(db_path, "vault.db.pre-sqlcipher-backup")
}

/// Where a change of the master password builds the new vault.
pub fn rekeying_tmp_path(db_path: &str) -> (r: String)
    ensures
        r@ == sibling(db_path@, "vault.db.rekeying"@),
{
    sibling_path(db_path, "vault.db.rekeying")
}

/// Where a change of the master password keeps the old vault until the new one opens.
pub fn pre_rekey_backup_path(db_path: &str) -> (r: String)
    ensures
        r@ == sibling(db_path@, "vault.db.pre-rekey-backup"@),
{
    sibling_path(db_path, "vault.db.pre-rekey-backup")
}

/// Where older vaults keep their salt.
pub fn salt_sidecar_path(db_path: &str) -> (r: String)
    ensures
        r@ == sibling(db_path@, "vault.salt"@),
{
    sibling_path(db_path, "vault.salt")
}

/// What is seen of a vault's files without opening them.
#[derive(Debug)]
pub struct VaultFiles {
    /// Whether the database file is there.
    pub exists: bool,
    /// Its first bytes, if that many can be read.
    pub head: Option<[u8; 16]>,
    /// Whether the other files of a migration or a password change are there.
    pub migrating: bool,
    pub pre_sqlcipher_backup: bool,
    pub rekeying: bool,
    pub pre_rekey_backup: bool,
}

/// What there is to unlock.
#[derive(Debug, Clone, Copy, PartialEq, Eq, Structural)]
pub enum VaultState {
    /// Nothing: a new installation.
    New,
    /// An unencrypted database file from before full encryption.
    NeedsMigration,
    /// An encrypted vault.
    Ready,
    /// A migration was cut off; the data is in its files.
    InterruptedMigration,
    /// A change of the master password was cut off between its two renames.
    InterruptedRotation,
}

/// The state that a vault's files show. Leftovers of a migration count unless an encrypted
/// vault is in place; leftovers of a password change count only where no vault is.
pub open spec fn state_of(f: VaultFiles) -> VaultState {
    let plaintext = f.head matches Some(h) && h@ == plaintext_magic();
    let migration_left = f.migrating || f.pre_sqlcipher_backup;
    if f.exists && !plaintext {
        VaultState::Ready
    } else if migration_left {
        VaultState::InterruptedMigration
    } else if f.exists {
        VaultState::NeedsMigration
    } else if f.rekeying || f.pre_rekey_backup {
        VaultState::InterruptedRotation
    } else {
        VaultState::New
    }
}

/// Tells from a vault's files what there is to unlock.
pub fn detect_vault_state(f: &VaultFiles) -> (s: VaultState)
    ensures
        s == state_of(*f),
{
    let migration_left = f.migrating || f.pre_sqlcipher_backup;
    if f.exists {
        let plaintext = match &f.head {
            Some(h) => is_plaintext_magic(h),
            None => false,
        };
        if !plaintext {
            VaultState::Ready
        } else if migration_left {
            VaultState::InterruptedMigration
        } else {
            VaultState::NeedsMigration
        }
    } else if migration_left {
        VaultState::InterruptedMigration
    } else if f.rekeying || f.pre_rekey_backup {
        VaultState::InterruptedRotation
    } else {
        VaultState::New
    }
}

/// Whether no vault was created yet.
pub fn is_first_run(f: &VaultFiles) -> (b: bool)
    ensures
        b == (state_of(*f) == VaultState::New),
{
    detect_vault_state(f) == VaultState::New
}

/// A vault is taken for new only where none of its files is left, so that no recoverable data
/// is ever built over.
pub proof fn law_new_means_nothing_is_left(f: VaultFiles)
    ensures
        state_of(f) == VaultState::New <==> !f.exists && !f.migrating && !f.pre_sqlcipher_backup
            && !f.rekeying && !f.pre_rekey_backup,
{
}

/// The recovery instructions after an interruption: what it was, how to restore the backup and
/// what to do then, and which file is a leftover.
pub open spec fn recovery(
    what: Seq<char>,
    backup_of: Seq<char>,
    backup: Seq<char>,
    db: Seq<char>,
    then_do: Seq<char>,
    leftover: Seq<char>,
) -> Seq<char> {
    "A previous "@ + what
        + " was interrupted (e.g. a crash or power loss) and left the vault in an inconsistent state. Nothing was lost -- your data is still on disk and recoverable:\n\n1. Restore the "@
        + backup_of + " backup:\n   mv "@ + quoted(backup) + " "@ + quoted(db)
        + "\n2. Then run keystash again "@ + then_do + ".\n\n(If present, "@ + quoted(leftover)
        + " is a partially-built copy from the interrupted attempt and can be safely deleted.)"@
}

fn word_recovery(
    what: &str,
    backup_of: &str,
    backup: &str,
    db: &str,
    then_do: &str,
    leftover: &str,
) -> (s: String)
    ensures
        s@ == recovery(what@, backup_of@, backup@, db@, then_do@, leftover@),
{
    let mut s = "A previous ".to_owned();
    s.append(what);
    s.append(
        " was interrupted (e.g. a crash or power loss) and left the vault in an inconsistent state. Nothing was lost -- your data is still on disk and recoverable:\n\n1. Restore the ",
    );
    s.append(backup_of);
    s.append(" backup:\n   mv ");
    s.append(debug_text(backup).as_str());
    s.append(" ");
    s.append(debug_text(db).as_str());
    s.append("\n2. Then run keystash again ");
    s.append(then_do);
    s.append(".\n\n(If present, ");
    s.append(debug_text(leftover).as_str());
    s.append(
        " is a partially-built copy from the interrupted attempt and can be safely deleted.)",
    );
    s
}

/// How to recover from an interrupted migration.
pub fn interrupted_migration_message(db_path: &str) -> (s: String)
    ensures
        s@ == recovery(
            "migration to the encrypted database format"@,
            "pre-migration"@,
            sibling(db_path@, "vault.db.pre-sqlcipher-backup"@),
            db_path@,
            "to retry the migration"@,
            sibling(db_path@, "vault.db.migrating"@),
        ),
{
    word_recovery(
        "migration to the encrypted database format",
        "pre-migration",
        pre_sqlcipher_backup_path(db_path).as_str(),
        db_path,
        "to retry the migration",
        migrating_tmp_path(db_path).as_str(),
    )
}

/// How to recover from an interrupted change of the master password.
pub fn interrupted_rotation_message(db_path: &str) -> (s: String)
    ensures
        s@ == recovery(
            "master password change"@,
            "pre-rotation"@,
            sibling(db_path@, "vault.db.pre-rekey-backup"@),
            db_path@,
            "and retry the password change"@,
            sibling(db_path@, "vault.db.rekeying"@),
        ),
{
    word_recovery(
        "master password change",
        "pre-rotation",
        pre_rekey_backup_path(db_path).as_str(),
        db_path,
        "and retry the password change",
        rekeying_tmp_path(db_path).as_str(),
    )
}

/// What came of reading the first bytes of a vault file.
#[derive(Debug)]
pub enum HeadRead {
    Unreadable { error: String },
    TooShort { error: String },
    Head { bytes: [u8; 16] },
}

/// The salt in the head of a vault file, or why there is none.
pub open spec fn embedded_salt(r: HeadRead) -> Result<Seq<u8>, Seq<char>> {
    match r {
        HeadRead::Unreadable { error } => Err("Could not read vault file: "@ + error@),
        HeadRead::TooShort { error } => Err(
            "Vault file is too short to contain a salt header: "@ + error@,
        ),
        HeadRead::Head { bytes } => if bytes@ == plaintext_magic() {
            Err("This vault predates full-database encryption and must be migrated first."@)
        } else {
            Ok(bytes@)
        },
    }
}

/// Takes the salt from the head of a vault file.
pub fn read_embedded_salt(r: &HeadRead) -> (s: Result<[u8; 16], String>)
    ensures
        crate::crypto::outcome(s) == embedded_salt(*r),
{
    match r {
        HeadRead::Unreadable { error } => {
            let mut e = "Could not read vault file: ".to_owned();
            e.append(error.as_str());
            Err(e)
        },
        HeadRead::TooShort { error } => {
            let mut e = "Vault file is too short to contain a salt header: ".to_owned();
            e.append(error.as_str());
            Err(e)
        },
        HeadRead::Head { bytes } => if is_plaintext_magic(bytes) {
            Err(
                "This vault predates full-database encryption and must be migrated first.".to_owned(),
            )
        } else {
            Ok(*bytes)
        },
    }
}

/// The refusal of a new vault file whose head is not the salt that it was to get.
pub open spec fn wrong_header() -> Seq<char> {
    "The vault file was not created with the expected salt header (PRAGMA cipher_salt appears to be unsupported by this SQLCipher build)."@
}

/// Confirms that a new vault file carries the salt that it was to get.
pub fn verify_embedded_salt(r: &HeadRead, expected: &[u8; 16]) -> (v: Result<(), String>)
    ensures
        (v is Ok) == (embedded_salt(*r) matches Ok(s) && s == expected@),
        v matches Err(e) ==> e@ == (match embedded_salt(*r) {
            Ok(_) => wrong_header(),
            Err(t) => t,
        }),
{
    match read_embedded_salt(r) {
        Err(e) => Err(e),
        Ok(s) => if same_bytes(s.as_slice(), expected.as_slice()) {
            Ok(())
        } else {
            Err(
                "The vault file was not created with the expected salt header (PRAGMA cipher_salt appears to be unsupported by this SQLCipher build).".to_owned(),
            )
        },
    }
}

/// The salt in a salt file, or why there is none.
pub open spec fn sidecar_salt(read: Result<Vec<u8>, String>) -> Result<Seq<u8>, Seq<char>> {
    match read {
        Err(e) => Err("Could not read vault salt file: "@ + e@),
        Ok(b) => if b@.len() == 16 {
            Ok(b@)
        } else {
            Err("Vault salt file has an invalid length."@)
        },
    }
}

/// Takes the salt from what was read of a salt file.
pub fn read_salt_sidecar(read: &Result<Vec<u8>, String>) -> (s: Result<[u8; 16], String>)
    ensures
        crate::crypto::outcome(s) == sidecar_salt(*read),
{
    match read {
        Err(e) => {
            let mut m = "Could not read vault salt file: ".to_owned();
            m.append(e.as_str());
            Err(m)
        },
        Ok(b) => if b.len() == 16 {
            let a = crate::crypto::array_of::<16>(b.as_slice());
            assert(a@ =~= b@);
            Ok(a)
        } else {
            Err("Vault salt file has an invalid length.".to_owned())
        },
    }
}

} // verus!
