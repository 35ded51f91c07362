//! Creating a vault and unlocking one.
use vstd::prelude::*;
use vstd::string::*;
use vstd::utf8::{encode_utf8, is_ascii_chars, is_ascii_chars_encode_utf8};

use crate::crypto::{
    decrypt, derivable, derive_key, derive_sqlcipher_key, encrypt, generate_salt, master_key_of,
    opens_to, sealable, sqlcipher_key_of,
};
use crate::db::identity::{is_uuid_v4, new_uuids};
use crate::db::layout::{
    detect_vault_state, embedded_salt, read_embedded_salt, read_salt_sidecar, sidecar_salt, state_of,
    HeadRead, VaultFiles, VaultState,
};
use crate::db::records::{records, RecordView, Vault, VaultView};
use crate::db::schema::{current_tables, ensure_schema, loadable, upgraded, SchemaFacts};
use crate::db::store::{holds, is_added, lemma_with_record_keeps_wf};
use crate::db::version::{
    satisfies, too_old_message, version_satisfies, word_too_old, MIN_COMPATIBLE_APP_VERSION,
};
use crate::text::{same_bytes, texts};

verus! {

/// The plaintext of every vault's verification token.
pub open spec fn token_text() -> Seq<u8> {
    encode_utf8("keystash-verification-token"@)
}

/// The keys that a master password and a salt give.
#[derive(Debug)]
pub struct VaultKeys {
    pub salt: [u8; 16],
    /// Encrypts the fields of the records.
    pub master_key: [u8; 32],
    /// Encrypts the pages of the database file.
    pub sqlcipher_key: [u8; 32],
}

impl VaultKeys {
    /// Whether these are the keys of the given password.
    pub open spec fn are_of(self, password: Seq<char>) -> bool {
        &&& master_key_of(password, self.salt@) matches Ok(k) && k == self.master_key@
        &&& self.sqlcipher_key@ == sqlcipher_key_of(self.master_key@)
    }
}

/// Derives the keys of a password and a salt.
pub fn derive_vault_keys(password: &str, salt: &[u8; 16]) -> (r: Result<VaultKeys, String>)
    ensures
        r matches Ok(k) ==> k.are_of(password@) && k.salt@ == salt@,
        r matches Err(e) ==> (master_key_of(password@, salt@) matches Err(t) && t == e@),
        (r is Ok) == derivable(password@, salt@),
{
    match derive_key(password, salt.as_slice()) {
        Ok(master_key) => {
            let sqlcipher_key = derive_sqlcipher_key(&master_key);
            Ok(VaultKeys { salt: *salt, master_key, sqlcipher_key })
        },
        Err(e) => Err(e),
    }
}

proof fn lemma_token_is_short()
    ensures
        sealable(token_text()),
{
    reveal_strlit("keystash-verification-token");
    let t = "keystash-verification-token"@;
    assert(is_ascii_chars(t));
    is_ascii_chars_encode_utf8(t);
}

/// Encrypts a verification token.
pub fn seal_token(key: &[u8; 32]) -> (r: Result<Vec<u8>, String>)
    ensures
        r is Ok,
        r matches Ok(d) ==> opens_to(d@, key@, token_text()),
{
    proof {
        lemma_token_is_short();
    }
    encrypt("keystash-verification-token".as_bytes(), key)
}

/// Whether a payload is a verification token under the key.
pub open spec fn is_token(data: Seq<u8>, key: Seq<u8>) -> bool {
    opens_to(data, key, token_text())
}

/// Whether a payload is a verification token under the key.
pub fn check_token(data: &[u8], key: &[u8; 32]) -> (b: bool)
    ensures
        b == is_token(data@, key@),
{
    match decrypt(data, key) {
        Ok(mut d) => {
            let same = same_bytes(d.as_slice(), "keystash-verification-token".as_bytes());
            crate::crypto::wipe_bytes(&mut d);
            same
        },
        Err(_) => false,
    }
}

/// A vault without records, stamped with the floor of this version.
pub open spec fn empty_vault(token: Seq<u8>) -> VaultView {
    VaultView {
        floor: Some(MIN_COMPATIBLE_APP_VERSION@),
        token: Some(token),
        secrets: Seq::empty(),
        tombstones: Seq::empty(),
        hibp: Seq::empty(),
        history: Seq::empty(),
        next_id: 1,
    }
}

/// A vault without records.
pub fn new_vault(token: Vec<u8>) -> (v: Vault)
    ensures
        v@ == empty_vault(token@),
        v@.wf(),
{
    let v = Vault {
        min_app_version: Some(MIN_COMPATIBLE_APP_VERSION.to_owned()),
        verification: Some(token),
        secrets: Vec::new(),
        tombstones: Vec::new(),
        hibp_checks: Vec::new(),
        history: Vec::new(),
        next_id: 1,
    };
    assert(v@.secrets =~= Seq::empty());
    assert(v@.tombstones =~= Seq::empty());
    assert(v@.hibp =~= Seq::empty());
    assert(v@.history =~= Seq::empty());
    v
}

/// Makes a new vault under the given salt. Only where nothing of a vault is left yet.
pub fn create_vault_with_salt(files: &VaultFiles, master_password: &str, salt: &[u8; 16]) -> (r: Result<
    (Vault, VaultKeys),
    String,
>)
    ensures
        (r is Ok) == (state_of(*files) == VaultState::New && derivable(master_password@, salt@)),
        r matches Ok(p) ==> {
            &&& p.1.are_of(master_password@)
            &&& p.1.salt@ == salt@
            &&& p.0@.token is Some
            &&& is_token(p.0@.token->0, p.1.master_key@)
            &&& p.0@ == empty_vault(p.0@.token->0)
            &&& p.0@.wf()
        },
        r matches Err(e) ==> if state_of(*files) != VaultState::New {
            e@ == "Vault is already initialized."@
        } else {
            master_key_of(master_password@, salt@) matches Err(t) && t == e@
        },
{
    if detect_vault_state(files) != VaultState::New {
        return Err("Vault is already initialized.".to_owned());
    }
    match derive_vault_keys(master_password, salt) {
        Err(e) => Err(e),
        Ok(keys) => match seal_token(&keys.master_key) {
            Err(e) => Err(e),
            Ok(token) => Ok((new_vault(token), keys)),
        },
    }
}

/// Makes a new vault under a fresh random salt.
pub fn create_vault(files: &VaultFiles, master_password: &str) -> (r: Result<
    (Vault, VaultKeys),
    String,
>)
    ensures
        (r is Ok) == (state_of(*files) == VaultState::New && encode_utf8(master_password@).len()
            <= u32::MAX),
        r matches Ok(p) ==> {
            &&& p.1.are_of(master_password@)
            &&& p.0@.token is Some
            &&& is_token(p.0@.token->0, p.1.master_key@)
            &&& p.0@ == empty_vault(p.0@.token->0)
            &&& p.0@.wf()
        },
        state_of(*files) != VaultState::New ==> (r matches Err(e) && e@
            == "Vault is already initialized."@),
{
    let salt = generate_salt();
    create_vault_with_salt(files, master_password, &salt)
}

/// The salt to unlock a vault with: that of the salt file where there is one, else that in the
/// head of the database file.
pub open spec fn unlock_salt(sidecar: Option<Result<Vec<u8>, String>>, head: HeadRead) -> Result<
    Seq<u8>,
    Seq<char>,
> {
    match sidecar {
        Some(read) => sidecar_salt(read),
        None => embedded_salt(head),
    }
}

/// Derives the keys that unlock a vault. `sidecar` is what was read of its salt file, if it has
/// one; such a vault is to be converted once it is open.
pub fn unlock_keys(
    sidecar: &Option<Result<Vec<u8>, String>>,
    head: &HeadRead,
    master_password: &str,
) -> (r: Result<VaultKeys, String>)
    ensures
        r matches Ok(k) ==> k.are_of(master_password@) && (unlock_salt(*sidecar, *head) matches Ok(s)
            && s == k.salt@),
        r matches Err(e) ==> match unlock_salt(*sidecar, *head) {
            Err(t) => t == e@,
            Ok(s) => master_key_of(master_password@, s) matches Err(t) && t == e@,
        },
        (r is Ok) == (unlock_salt(*sidecar, *head) matches Ok(s) && derivable(master_password@, s)),
{
    let salt = match sidecar {
        Some(read) => read_salt_sidecar(read),
        None => read_embedded_salt(head),
    };
    match salt {
        Err(e) => Err(e),
        Ok(s) => derive_vault_keys(master_password, &s),
    }
}

/// What a database file holds.
#[derive(Debug)]
pub struct StoredVault {
    pub vault: Vault,
    pub schema: SchemaFacts,
}

/// Why stored tables cannot be used under a master key, if they cannot: first the version
/// floor, then their schema, then the verification token.
pub open spec fn refusal_of(
    stored: StoredVault,
    master_key: Seq<u8>,
    running: Seq<char>,
    fresh: Seq<Seq<char>>,
) -> Option<Seq<char>> {
    let v = stored.vault@;
    let u = upgraded(v, stored.schema, fresh);
    if v.floor is Some && !satisfies(running, v.floor->0) {
        Some(too_old_message("This vault"@, "open"@, v.floor->0, running))
    } else if !crate::db::records::uuids_distinct(u.secrets) {
        Some("UNIQUE constraint failed: secrets.sync_uuid"@)
    } else if !crate::db::records::marks_distinct(u.tombstones) {
        Some("UNIQUE constraint failed: deleted_secrets.sync_uuid"@)
    } else {
        match v.token {
            None => Some("Verification token not found. Database might be corrupted."@),
            Some(t) => if is_token(t, master_key) {
                None
            } else {
                Some("Incorrect master password."@)
            },
        }
    }
}

/// Admits the tables of an opened database file: the version floor is checked before anything
/// is changed, the tables are brought up to date, and the verification token is checked.
/// Records without an identity get those in `fresh`.
pub fn admit_vault(
    stored: StoredVault,
    master_key: &[u8; 32],
    running_version: &str,
    fresh: &Vec<String>,
) -> (r: Result<Vault, String>)
    requires
        loadable(stored.vault@),
        fresh@.len() >= stored.vault@.secrets.len(),
    ensures
        r matches Ok(v) ==> refusal_of(stored, master_key@, running_version@, texts(fresh@)) is None
            && v@ == upgraded(stored.vault@, stored.schema, texts(fresh@)) && v@.wf(),
        r matches Err(e) ==> refusal_of(stored, master_key@, running_version@, texts(fresh@))
            == Some(e@),
{
    if let Some(required) = &stored.vault.min_app_version {
        if !version_satisfies(running_version, required.as_str()) {
            return Err(word_too_old("This vault", "open", required.as_str(), running_version));
        }
    }
    let mut vault = stored.vault;
    match ensure_schema(&mut vault, stored.schema, fresh) {
        Err(e) => {
            return Err(e);
        },
        Ok(_) => {},
    }
    let good = match &vault.verification {
        None => {
            return Err(
                "Verification token not found. Database might be corrupted.".to_owned(),
            );
        },
        Some(t) => check_token(t.as_slice(), master_key),
    };
    if good {
        Ok(vault)
    } else {
        Err("Incorrect master password.".to_owned())
    }
}

/// Opens a vault. `contents` is what the database file holds, `None` where it does not open
/// under the page key: the password is wrong.
pub fn open_vault(contents: Option<StoredVault>, master_key: &[u8; 32], running_version: &str) -> (r:
    Result<Vault, String>)
    requires
        contents matches Some(s) ==> loadable(s.vault@),
    ensures
        contents is None ==> (r matches Err(e) && e@ == "Incorrect master password."@),
        contents matches Some(s) ==> exists|fresh: Seq<Seq<char>>|
            fresh.len() >= s.vault@.secrets.len() && (forall|i: int|
                0 <= i < fresh.len() ==> is_uuid_v4(#[trigger] fresh[i])) && match r {
                Ok(v) => #[trigger] refusal_of(s, master_key@, running_version@, fresh) is None
                    && v@ == upgraded(s.vault@, s.schema, fresh) && v@.wf(),
                Err(e) => refusal_of(s, master_key@, running_version@, fresh) == Some(e@),
            },
{
    match contents {
        None => Err("Incorrect master password.".to_owned()),
        Some(s) => {
            let fresh = new_uuids(s.vault.secrets.len());
            assert(s.vault@.secrets.len() == s.vault.secrets@.len());
            let r = admit_vault(s, master_key, running_version, &fresh);
            proof {
                let f = texts(fresh@);
                assert forall|i: int| 0 <= i < f.len() implies is_uuid_v4(#[trigger] f[i]) by {
                    assert(is_uuid_v4(fresh@[i]@));
                }
                let _ = refusal_of(s, master_key@, running_version@, f);
            }
            r
        },
    }
}

/// A vault that this program has written opens again with its master key, as it was written.
pub proof fn lemma_written_vault_opens(
    stored: StoredVault,
    master_key: Seq<u8>,
    running: Seq<char>,
    fresh: Seq<Seq<char>>,
)
    requires
        stored.vault@.wf(),
        stored.vault@.token matches Some(t) && is_token(t, master_key),
        stored.vault@.floor == Some(MIN_COMPATIBLE_APP_VERSION@),
        stored.schema == current_tables(),
        satisfies(running, MIN_COMPATIBLE_APP_VERSION@),
    ensures
        refusal_of(stored, master_key, running, fresh) is None,
        upgraded(stored.vault@, stored.schema, fresh) == stored.vault@,
{
    crate::db::schema::law_current_schema_is_left_alone(stored.vault@, fresh);
    assert(satisfies(MIN_COMPATIBLE_APP_VERSION@, MIN_COMPATIBLE_APP_VERSION@));
}

/// A new vault opens again with its master key, as it was written.
pub proof fn law_created_vault_opens(
    stored: StoredVault,
    token: Seq<u8>,
    master_key: Seq<u8>,
    running: Seq<char>,
    fresh: Seq<Seq<char>>,
)
    requires
        stored.vault@ == empty_vault(token),
        is_token(token, master_key),
        stored.schema == current_tables(),
        satisfies(running, MIN_COMPATIBLE_APP_VERSION@),
    ensures
        refusal_of(stored, master_key, running, fresh) is None,
        upgraded(stored.vault@, stored.schema, fresh) == empty_vault(token),
{
    lemma_written_vault_opens(stored, master_key, running, fresh);
}

/// A vault is opened under no key that its token does not open under; where nothing else is the
/// matter, the answer is that the password is wrong.
pub proof fn law_foreign_key_is_refused(
    stored: StoredVault,
    token: Seq<u8>,
    master_key: Seq<u8>,
    running: Seq<char>,
    fresh: Seq<Seq<char>>,
)
    requires
        stored.vault@.token == Some(token),
        !is_token(token, master_key),
    ensures
        refusal_of(stored, master_key, running, fresh) is Some,
        stored.vault@.wf() && stored.schema == current_tables() && (stored.vault@.floor matches Some(
            f,
        ) ==> satisfies(running, f)) ==> refusal_of(stored, master_key, running, fresh) == Some(
            "Incorrect master password."@,
        ),
{
    crate::db::schema::law_current_schema_is_left_alone(stored.vault@, fresh);
}

/// A credential that is stored, and when.
pub struct PlainEntry {
    pub title: Seq<char>,
    pub category: Seq<char>,
    pub username: Seq<char>,
    pub url: Seq<char>,
    pub password: Seq<char>,
    pub notes: Option<Seq<char>>,
    pub now: Seq<char>,
}

/// Whether a record holds what was stored, readable under the key.
pub open spec fn keeps(r: RecordView, e: PlainEntry, key: Seq<u8>) -> bool {
    holds(r, e.title, e.category, e.username, e.url, e.password, e.notes, key) && r.updated_at
        == e.now
}

/// Whether `new` is the vault `v` after the credential was added to it.
pub open spec fn adds(new: VaultView, v: VaultView, e: PlainEntry, key: Seq<u8>) -> bool {
    is_added(new, v, e.title, e.category, e.username, e.url, e.password, e.notes, key, e.now)
}

/// Whether the credentials were added one after the other, with the given vaults in between.
pub open spec fn grows(states: Seq<VaultView>, e: Seq<PlainEntry>, key: Seq<u8>) -> bool {
    states.len() == e.len() + 1 && forall|i: int|
        0 <= i < e.len() ==> adds(states[i + 1], states[i], #[trigger] e[i], key)
}

proof fn lemma_grown(states: Seq<VaultView>, e: Seq<PlainEntry>, key: Seq<u8>, n: int)
    requires
        grows(states, e, key),
        states[0].wf(),
        states[0].secrets.len() == 0,
        0 <= n <= e.len(),
    ensures
        states[n].wf(),
        states[n].secrets.len() == n,
        states[n].token == states[0].token,
        states[n].floor == states[0].floor,
        forall|i: int| 0 <= i < n ==> keeps(#[trigger] states[n].secrets[i], e[i], key),
    decreases n,
{
    if n > 0 {
        lemma_grown(states, e, key, n - 1);
        let v = states[n - 1];
        let w = states[n];
        assert(adds(states[(n - 1) + 1], v, e[n - 1], key));
        let s = w.secrets.last();
        lemma_with_record_keeps_wf(v, s);
        assert forall|i: int| 0 <= i < n implies keeps(#[trigger] w.secrets[i], e[i], key) by {
            if i < n - 1 {
                assert(w.secrets[i] == v.secrets[i]);
            } else {
                assert(w.secrets[i] == w.secrets.last());
            }
        }
    }
}

/// A new vault to which credentials were added opens again with its password, and gives every one
/// of them back: the password leads to the same key, and under it each reads as it was stored. A
/// key that the vault's token does not open under is refused as that of a wrong password.
pub proof fn law_stored_secrets_come_back(
    created: VaultKeys,
    reopened: VaultKeys,
    password: Seq<char>,
    token: Seq<u8>,
    states: Seq<VaultView>,
    e: Seq<PlainEntry>,
    stored: StoredVault,
    running: Seq<char>,
    fresh: Seq<Seq<char>>,
)
    requires
        created.are_of(password),
        reopened.are_of(password),
        reopened.salt@ == created.salt@,
        states.len() > 0,
        states[0] == empty_vault(token),
        is_token(token, created.master_key@),
        grows(states, e, created.master_key@),
        stored.vault@ == states.last(),
        stored.schema == current_tables(),
        satisfies(running, MIN_COMPATIBLE_APP_VERSION@),
    ensures
        reopened.master_key@ == created.master_key@,
        reopened.sqlcipher_key@ == created.sqlcipher_key@,
        refusal_of(stored, reopened.master_key@, running, fresh) is None,
        upgraded(stored.vault@, stored.schema, fresh) == stored.vault@,
        stored.vault@.secrets.len() == e.len(),
        forall|i: int|
            0 <= i < e.len() ==> keeps(
                #[trigger] stored.vault@.secrets[i],
                e[i],
                reopened.master_key@,
            ),
        forall|other: Seq<u8>|
            !is_token(token, other) ==> #[trigger] refusal_of(stored, other, running, fresh)
                == Some("Incorrect master password."@),
{
    lemma_grown(states, e, created.master_key@, e.len() as int);
    assert forall|other: Seq<u8>| !is_token(token, other) implies #[trigger] refusal_of(
        stored,
        other,
        running,
        fresh,
    ) == Some("Incorrect master password."@) by {
        law_foreign_key_is_refused(stored, token, other, running, fresh);
    }
    lemma_written_vault_opens(stored, reopened.master_key@, running, fresh);
}

} // verus!
