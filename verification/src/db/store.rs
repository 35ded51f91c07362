//! Reading and changing the records of a vault.
use vstd::prelude::*;
use vstd::string::*;
use vstd::utf8::encode_utf8;

use crate::crypto::{encrypt, opens_to, sealable};
use crate::db::identity::{is_uuid_v4, new_uuid};
use crate::db::records::{
    blob, copy_blob, copy_bytes, has_uuid, hashes_distinct, checks, lemma_marks_push,
    lemma_past_push, lemma_records_push, marks, past, position_of_uuid, records, HibpCheck, HibpView,
    HistoryEntry, HistoryView, RecordView, SecretRecord, Tombstone, TombstoneView, Vault, VaultView,
};
use crate::lists::{lemma_filter_members, lemma_filter_pairs, lemma_filter_step};
use crate::merge::{cap_history, capped};
use crate::text::{lex_lt, text_before};

verus! {

/// The number of replaced passwords that a record keeps.
pub const PASSWORD_HISTORY_CAP: usize = 10;

/// For how many days a deletion is remembered.
pub const TOMBSTONE_AGE_DAYS: i64 = 90;

/// The vault with one more record, under the next id.
pub open spec fn with_record(v: VaultView, r: RecordView) -> VaultView {
    VaultView { secrets: v.secrets.push(r.with_id(v.next_id)), next_id: v.next_id + 1, ..v }
}

/// Adds a record under the next id; the id that it carries is not used. A vault without free
/// ids, or with a record of the same identity, refuses it.
pub fn insert_record(vault: &mut Vault, record: SecretRecord) -> (r: Result<(), String>)
    requires
        old(vault)@.wf(),
    ensures
        (r is Ok) == (old(vault)@.next_id < i64::MAX && !has_uuid(
            old(vault)@.secrets,
            record@.uuid,
        )),
        r is Ok ==> final(vault)@ == with_record(old(vault)@, record@),
        r matches Err(e) ==> *final(vault) == *old(vault) && e@ == (if old(vault)@.next_id
            == i64::MAX {
            "database or disk is full"@
        } else {
            "UNIQUE constraint failed: secrets.sync_uuid"@
        }),
        final(vault)@.wf(),
{
    if vault.next_id == i64::MAX {
        return Err("database or disk is full".to_owned());
    }
    let at: usize = position_of_uuid(vault.secrets.as_slice(), &record.sync_uuid);
    if at < vault.secrets.len() {
        return Err("UNIQUE constraint failed: secrets.sync_uuid".to_owned());
    }
    let ghost before = vault@;
    let mut record = record;
    record.id = vault.next_id;
    proof {
        lemma_records_push(vault.secrets@, record);
    }
    vault.secrets.push(record);
    vault.next_id = vault.next_id + 1;
    proof {
        lemma_with_record_keeps_wf(before, record@);
    }
    Ok(())
}

/// Whether a record holds the given texts, the password and the notes readable under the key;
/// empty notes are not stored.
pub open spec fn holds(
    r: RecordView,
    title: Seq<char>,
    category: Seq<char>,
    username: Seq<char>,
    url: Seq<char>,
    password: Seq<char>,
    notes: Option<Seq<char>>,
    key: Seq<u8>,
) -> bool {
    &&& r.title == title
    &&& r.category == category
    &&& r.username == username
    &&& r.url == url
    &&& opens_to(r.password, key, encode_utf8(password))
    &&& notes_hold(r.notes, notes, key)
}

/// Whether stored notes read as the given text under the key; empty notes are not stored.
pub open spec fn notes_hold(stored: Option<Seq<u8>>, notes: Option<Seq<char>>, key: Seq<u8>) -> bool {
    match notes {
        Some(n) => if n.len() == 0 {
            stored is None
        } else {
            stored matches Some(d) && opens_to(d, key, encode_utf8(n))
        },
        None => stored is None,
    }
}

/// The text of optional notes.
pub open spec fn notes_text(notes: Option<&str>) -> Option<Seq<char>> {
    match notes {
        Some(n) => Some(n@),
        None => None,
    }
}

/// Whether every part of a record is of a size that encryption takes.
pub open spec fn storable(password: Seq<char>, notes: Option<Seq<char>>) -> bool {
    sealable(encode_utf8(password)) && (notes matches Some(n) ==> sealable(encode_utf8(n)))
}

/// Encrypts notes; empty ones are not stored.
pub fn seal_notes(notes: Option<&str>, key: &[u8; 32]) -> (r: Result<Option<Vec<u8>>, String>)
    ensures
        r matches Ok(b) ==> notes_hold(blob(b), notes_text(notes), key@),
        (r is Ok) == (notes_text(notes) matches Some(n) ==> sealable(encode_utf8(n))),
        r matches Err(e) ==> e@ == "aead::Error"@,
{
    match notes {
        Some(n) => if n.is_empty() {
            Ok(None)
        } else {
            match encrypt(n.as_bytes(), key) {
                Ok(d) => Ok(Some(d)),
                Err(e) => Err(e),
            }
        },
        None => Ok(None),
    }
}

/// Whether `new` is the vault `v` with one more record, which holds the given texts, was changed
/// at `now`, and has the given identity, which no other record has.
pub open spec fn is_added_as(
    new: VaultView,
    v: VaultView,
    title: Seq<char>,
    category: Seq<char>,
    username: Seq<char>,
    url: Seq<char>,
    password: Seq<char>,
    notes: Option<Seq<char>>,
    key: Seq<u8>,
    now: Seq<char>,
    uuid: Seq<char>,
) -> bool {
    let s = new.secrets.last();
    &&& new == with_record(v, s)
    &&& holds(s, title, category, username, url, password, notes, key)
    &&& s.updated_at == now
    &&& s.uuid == uuid
    &&& !has_uuid(v.secrets, uuid)
}

/// Whether `new` is the vault `v` with one more record, which holds the given texts, was changed
/// at `now`, and has a new random identity.
pub open spec fn is_added(
    new: VaultView,
    v: VaultView,
    title: Seq<char>,
    category: Seq<char>,
    username: Seq<char>,
    url: Seq<char>,
    password: Seq<char>,
    notes: Option<Seq<char>>,
    key: Seq<u8>,
    now: Seq<char>,
) -> bool {
    let uuid = new.secrets.last().uuid;
    is_uuid_v4(uuid) && is_added_as(
        new,
        v,
        title,
        category,
        username,
        url,
        password,
        notes,
        key,
        now,
        uuid,
    )
}

/// Whether a random identity may be one that a record has already.
pub open spec fn may_collide(s: Seq<RecordView>) -> bool {
    exists|u: Seq<char>| is_uuid_v4(u) && #[trigger] has_uuid(s, u)
}

/// Why a record cannot be added, whatever its identity is, if it cannot.
pub open spec fn add_refusal(
    v: VaultView,
    password: Seq<char>,
    notes: Option<Seq<char>>,
) -> Option<Seq<char>> {
    if !storable(password, notes) {
        Some("aead::Error"@)
    } else if v.next_id == i64::MAX {
        Some("database or disk is full"@)
    } else {
        None
    }
}

/// A vault with one more record of a new identity is well-formed.
pub proof fn lemma_with_record_keeps_wf(v: VaultView, r: RecordView)
    requires
        v.wf(),
        !has_uuid(v.secrets, r.uuid),
    ensures
        with_record(v, r).wf(),
{
    let s = with_record(v, r).secrets;
    assert forall|i: int, j: int| 0 <= i < j < s.len() implies (#[trigger] s[i]).uuid != (
    #[trigger] s[j]).uuid && s[i].id != s[j].id by {
        assert(s[i] == v.secrets[i]);
        if j < v.secrets.len() {
            assert(s[j] == v.secrets[j]);
        }
    }
    assert forall|i: int| 0 <= i < s.len() implies (#[trigger] s[i]).id < v.next_id + 1 by {
        if i < v.secrets.len() {
            assert(s[i] == v.secrets[i]);
        }
    }
}

/// Whether `new` is the vault `v` with the record of the given id holding the given texts,
/// changed at `now`; its identity stays, and a password that was replaced is in the history.
/// Without such a record it is the same vault.
pub open spec fn is_updated(
    new: VaultView,
    v: VaultView,
    id: int,
    title: Seq<char>,
    category: Seq<char>,
    username: Seq<char>,
    url: Seq<char>,
    password: Seq<char>,
    notes: Option<Seq<char>>,
    key: Seq<u8>,
    now: Seq<char>,
    cap: nat,
) -> bool {
    match find_id(v.secrets, id) {
        None => new == v,
        Some(s) => exists|r: RecordView| #[trigger]
            holds(r, title, category, username, url, password, notes, key) && r.updated_at == now
                && new == (VaultView {
                secrets: replaced(v.secrets, id, r),
                history: history_after(v.history, s, password, key, now, cap),
                ..v
            }),
    }
}

/// Encrypts and adds a record under the given identity. Where it fails nothing changes.
pub fn add_secret_with(
    vault: &mut Vault,
    title: &str,
    category: &str,
    username: &str,
    url: &str,
    plaintext_password: &str,
    plaintext_notes: Option<&str>,
    key: &[u8; 32],
    now: &str,
    sync_uuid: String,
) -> (r: Result<(), String>)
    requires
        old(vault)@.wf(),
    ensures
        final(vault)@.wf(),
        (r is Ok) == (add_refusal(
            old(vault)@,
            plaintext_password@,
            notes_text(plaintext_notes),
        ) is None && !has_uuid(old(vault)@.secrets, sync_uuid@)),
        r is Ok ==> is_added_as(
            final(vault)@,
            old(vault)@,
            title@,
            category@,
            username@,
            url@,
            plaintext_password@,
            notes_text(plaintext_notes),
            key@,
            now@,
            sync_uuid@,
        ),
        r matches Err(e) ==> *final(vault) == *old(vault) && e@ == (match add_refusal(
            old(vault)@,
            plaintext_password@,
            notes_text(plaintext_notes),
        ) {
            Some(t) => t,
            None => "UNIQUE constraint failed: secrets.sync_uuid"@,
        }),
{
    let encrypted_password = match encrypt(plaintext_password.as_bytes(), key) {
        Ok(d) => d,
        Err(e) => {
            return Err(e);
        },
    };
    let encrypted_notes = match seal_notes(plaintext_notes, key) {
        Ok(d) => d,
        Err(e) => {
            return Err(e);
        },
    };
    let record = SecretRecord {
        id: 0,
        title: title.to_owned(),
        category: category.to_owned(),
        username: username.to_owned(),
        url: url.to_owned(),
        encrypted_password,
        encrypted_notes,
        updated_at: now.to_owned(),
        sync_uuid,
    };
    let ghost view = record@;
    let r = insert_record(vault, record);
    proof {
        if r is Ok {
            assert(vault@.secrets.last() == view.with_id(old(vault)@.next_id));
        }
    }
    r
}

/// Encrypts and adds a record under a new random identity. Where it fails nothing changes; it
/// fails only where encryption takes no text of that size, or no id is free, or the identity
/// is one that a record has.
pub fn add_secret(
    vault: &mut Vault,
    title: &str,
    category: &str,
    username: &str,
    url: &str,
    plaintext_password: &str,
    plaintext_notes: Option<&str>,
    key: &[u8; 32],
    now: &str,
) -> (r: Result<(), String>)
    requires
        old(vault)@.wf(),
    ensures
        final(vault)@.wf(),
        r is Ok ==> is_added(
            final(vault)@,
            old(vault)@,
            title@,
            category@,
            username@,
            url@,
            plaintext_password@,
            notes_text(plaintext_notes),
            key@,
            now@,
        ),
        r is Ok ==> add_refusal(
            old(vault)@,
            plaintext_password@,
            notes_text(plaintext_notes),
        ) is None,
        r matches Err(e) ==> *final(vault) == *old(vault) && e@ == (match add_refusal(
            old(vault)@,
            plaintext_password@,
            notes_text(plaintext_notes),
        ) {
            Some(t) => t,
            None => "UNIQUE constraint failed: secrets.sync_uuid"@,
        }),
        r is Err && add_refusal(
            old(vault)@,
            plaintext_password@,
            notes_text(plaintext_notes),
        ) is None ==> may_collide(old(vault)@.secrets),
{
    let uuid = new_uuid();
    let ghost u = uuid@;
    let r = add_secret_with(
        vault,
        title,
        category,
        username,
        url,
        plaintext_password,
        plaintext_notes,
        key,
        now,
        uuid,
    );
    assert(is_uuid_v4(u));
    r
}

/// Position of the record with the given id, or the number of records.
fn position_of_id(v: &[SecretRecord], id: i64) -> (p: usize)
    ensures
        p <= v@.len(),
        p < v@.len() ==> v@[p as int]@.id == id,
        forall|i: int| 0 <= i < p ==> (#[trigger] v@[i])@.id != id,
{
    let mut i: usize = 0;
    while i < v.len()
        invariant
            i <= v@.len(),
            forall|k: int| 0 <= k < i ==> (#[trigger] v@[k])@.id != id,
        decreases v@.len() - i,
    {
        if v[i].id == id {
            return i;
        }
        i += 1;
    }
    i
}

/// Whether some record has the given id.
pub open spec fn has_id(s: Seq<RecordView>, id: int) -> bool {
    exists|i: int| 0 <= i < s.len() && (#[trigger] s[i]).id == id
}

/// The records, with the contents of `new` in the record of the given id; its identity stays.
pub open spec fn replaced(s: Seq<RecordView>, id: int, new: RecordView) -> Seq<RecordView> {
    Seq::new(
        s.len(),
        |i: int|
            if s[i].id == id {
                RecordView { id, uuid: s[i].uuid, ..new }
            } else {
                s[i]
            },
    )
}

proof fn lemma_replace_at(s: Seq<RecordView>, i: int, new: RecordView)
    requires
        crate::db::records::ids_distinct(s),
        0 <= i < s.len(),
    ensures
        replaced(s, s[i].id, new) == s.update(
            i,
            RecordView { id: s[i].id, uuid: s[i].uuid, ..new },
        ),
{
    let id = s[i].id;
    assert forall|k: int| 0 <= k < s.len() implies replaced(s, id, new)[k] == s.update(
        i,
        RecordView { id: s[i].id, uuid: s[i].uuid, ..new },
    )[k] by {
        if k < i {
            assert(s[k].id != s[i].id);
        } else if k > i {
            assert(s[i].id != s[k].id);
        }
    }
    assert(replaced(s, id, new) =~= s.update(
        i,
        RecordView { id: s[i].id, uuid: s[i].uuid, ..new },
    ));
}

proof fn lemma_replace_none(s: Seq<RecordView>, id: int, new: RecordView)
    requires
        !has_id(s, id),
    ensures
        replaced(s, id, new) == s,
{
    assert(replaced(s, id, new) =~= s);
}

proof fn lemma_replaced_wf(v: VaultView, id: int, new: RecordView, h: Seq<HistoryView>)
    requires
        v.wf(),
    ensures
        (VaultView { secrets: replaced(v.secrets, id, new), history: h, ..v }).wf(),
{
    let s = v.secrets;
    let t = replaced(s, id, new);
    assert forall|i: int, j: int| 0 <= i < j < t.len() implies (#[trigger] t[i]).uuid != (
    #[trigger] t[j]).uuid && t[i].id != t[j].id by {
        assert(t[i].uuid == s[i].uuid && t[j].uuid == s[j].uuid);
        assert(t[i].id == s[i].id && t[j].id == s[j].id);
    }
    assert forall|i: int| 0 <= i < t.len() implies (#[trigger] t[i]).id < v.next_id by {
        assert(t[i].id == s[i].id);
    }
}

/// The record with the given id, if there is one.
pub open spec fn find_id(s: Seq<RecordView>, id: int) -> Option<RecordView>
    decreases s.len(),
{
    if s.len() == 0 {
        None
    } else if s[0].id == id {
        Some(s[0])
    } else {
        find_id(s.drop_first(), id)
    }
}

proof fn lemma_find_id(s: Seq<RecordView>, id: int, p: int)
    requires
        0 <= p <= s.len(),
        p < s.len() ==> s[p].id == id,
        forall|i: int| 0 <= i < p ==> (#[trigger] s[i]).id != id,
    ensures
        find_id(s, id) == (if p < s.len() {
            Some(s[p])
        } else {
            None
        }),
        has_id(s, id) == (p < s.len()),
    decreases s.len(),
{
    if s.len() > 0 && p > 0 {
        assert(s[0].id != id);
        let d = s.drop_first();
        assert forall|i: int| 0 <= i < p - 1 implies (#[trigger] d[i]).id != id by {
            assert(d[i] == s[i + 1]);
        }
        lemma_find_id(d, id, p - 1);
    }
}

/// The record with the given id, if there is one.
pub fn get_secret_by_id(vault: &Vault, id: i64) -> (r: Option<SecretRecord>)
    ensures
        r matches Some(s) ==> find_id(vault@.secrets, id as int) == Some(s@),
        r is None ==> find_id(vault@.secrets, id as int) is None,
{
    let p: usize = position_of_id(vault.secrets.as_slice(), id);
    proof {
        assert forall|i: int| 0 <= i < p implies (#[trigger] vault@.secrets[i]).id != id by {
            assert(vault.secrets@[i]@.id != id);
        }
        lemma_find_id(vault@.secrets, id as int, p as int);
    }
    if p < vault.secrets.len() {
        Some(vault.secrets[p].clone())
    } else {
        None
    }
}

/// The password history after a record's password was replaced: unchanged if the new password
/// is the old one, else with the old one at its end and capped.
pub open spec fn history_after(
    h: Seq<HistoryView>,
    s: RecordView,
    password: Seq<char>,
    key: Seq<u8>,
    now: Seq<char>,
    cap: nat,
) -> Seq<HistoryView> {
    if opens_to(s.password, key, encode_utf8(password)) {
        h
    } else {
        capped(h.push(HistoryView { uuid: s.uuid, password: s.password, replaced_at: now }), cap)
    }
}

/// Encrypts and stores new contents of a record, which is changed at `now`; its identity
/// stays. A password that is replaced goes to the history. Without a record of that id nothing
/// changes.
pub fn update_secret(
    vault: &mut Vault,
    id: i64,
    title: &str,
    category: &str,
    username: &str,
    url: &str,
    plaintext_password: &str,
    plaintext_notes: Option<&str>,
    key: &[u8; 32],
    now: &str,
    cap: usize,
) -> (r: Result<(), String>)
    requires
        old(vault)@.wf(),
    ensures
        final(vault)@.wf(),
        (r is Ok) == storable(plaintext_password@, notes_text(plaintext_notes)),
        r matches Err(e) ==> *final(vault) == *old(vault) && e@ == "aead::Error"@,
        r is Ok ==> is_updated(
            final(vault)@,
            old(vault)@,
            id as int,
            title@,
            category@,
            username@,
            url@,
            plaintext_password@,
            notes_text(plaintext_notes),
            key@,
            now@,
            cap as nat,
        ),
{
    let encrypted_password = match encrypt(plaintext_password.as_bytes(), key) {
        Ok(d) => d,
        Err(e) => {
            return Err(e);
        },
    };
    let encrypted_notes = match seal_notes(plaintext_notes, key) {
        Ok(d) => d,
        Err(e) => {
            return Err(e);
        },
    };
    let p: usize = position_of_id(vault.secrets.as_slice(), id);
    let ghost before = vault@;
    proof {
        assert forall|i: int| 0 <= i < p implies (#[trigger] vault@.secrets[i]).id != id by {
            assert(vault.secrets@[i]@.id != id);
        }
        lemma_find_id(vault@.secrets, id as int, p as int);
    }
    if p == vault.secrets.len() {
        return Ok(());
    }
    let old_record = vault.secrets[p].clone();
    assert(old_record@ == before.secrets[p as int]);
    let unchanged = match crate::crypto::decrypt(old_record.encrypted_password.as_slice(), key) {
        Ok(mut d) => {
            let same = crate::text::same_bytes(d.as_slice(), plaintext_password.as_bytes());
            crate::crypto::wipe_bytes(&mut d);
            same
        },
        Err(_) => false,
    };
    assert(unchanged == opens_to(old_record@.password, key@, encode_utf8(plaintext_password@)));
    if !unchanged {
        let entry = HistoryEntry {
            sync_uuid: old_record.sync_uuid.clone(),
            encrypted_password: copy_bytes(old_record.encrypted_password.as_slice()),
            replaced_at: now.to_owned(),
        };
        proof {
            lemma_past_push(vault.history@, entry);
        }
        vault.history.push(entry);
        let capped_history = cap_history(vault.history.as_slice(), cap);
        vault.history = capped_history;
    }
    let new = SecretRecord {
        id: old_record.id,
        title: title.to_owned(),
        category: category.to_owned(),
        username: username.to_owned(),
        url: url.to_owned(),
        encrypted_password,
        encrypted_notes,
        updated_at: now.to_owned(),
        sync_uuid: old_record.sync_uuid,
    };
    let ghost view = new@;
    vault.secrets.set(p, new);
    proof {
        lemma_replace_at(before.secrets, p as int, view);
        assert(vault@.secrets =~= before.secrets.update(p as int, view));
        assert(view == RecordView { id: id as int, uuid: before.secrets[p as int].uuid, ..view });
        assert(vault@.secrets == replaced(before.secrets, id as int, view));
        lemma_replaced_wf(before, id as int, view, vault@.history);
        assert(holds(
            view,
            title@,
            category@,
            username@,
            url@,
            plaintext_password@,
            notes_text(plaintext_notes),
            key@,
        ));
    }
    Ok(())
}

/// Stores the given contents of a record as they are. Without a record of that id nothing
/// changes.
pub fn update_secret_raw(
    vault: &mut Vault,
    id: i64,
    title: &str,
    category: &str,
    username: &str,
    url: &str,
    encrypted_password: &[u8],
    encrypted_notes: &Option<Vec<u8>>,
    updated_at: &str,
)
    requires
        old(vault)@.wf(),
    ensures
        final(vault)@ == (VaultView {
            secrets: replaced(
                old(vault)@.secrets,
                id as int,
                RecordView {
                    id: 0,
                    title: title@,
                    category: category@,
                    username: username@,
                    url: url@,
                    password: encrypted_password@,
                    notes: blob(*encrypted_notes),
                    updated_at: updated_at@,
                    uuid: Seq::empty(),
                },
            ),
            ..old(vault)@
        }),
        final(vault)@.wf(),
{
    let ghost before = vault@;
    let ghost payload = RecordView {
        id: 0,
        title: title@,
        category: category@,
        username: username@,
        url: url@,
        password: encrypted_password@,
        notes: blob(*encrypted_notes),
        updated_at: updated_at@,
        uuid: Seq::empty(),
    };
    let p: usize = position_of_id(vault.secrets.as_slice(), id);
    proof {
        assert forall|i: int| 0 <= i < p implies (#[trigger] vault@.secrets[i]).id != id by {
            assert(vault.secrets@[i]@.id != id);
        }
        lemma_find_id(vault@.secrets, id as int, p as int);
        lemma_replaced_wf(before, id as int, payload, before.history);
    }
    if p == vault.secrets.len() {
        proof {
            lemma_replace_none(before.secrets, id as int, payload);
        }
        return;
    }
    let new = SecretRecord {
        id,
        title: title.to_owned(),
        category: category.to_owned(),
        username: username.to_owned(),
        url: url.to_owned(),
        encrypted_password: copy_bytes(encrypted_password),
        encrypted_notes: copy_blob(encrypted_notes),
        updated_at: updated_at.to_owned(),
        sync_uuid: vault.secrets[p].sync_uuid.clone(),
    };
    let ghost view = new@;
    assert(before.secrets[p as int] == vault.secrets@[p as int]@);
    vault.secrets.set(p, new);
    proof {
        lemma_replace_at(before.secrets, p as int, payload);
        assert(vault@.secrets =~= before.secrets.update(p as int, view));
    }
}

/// The vault after the record with the given id was deleted at `now`: its tombstone takes the
/// place of an older one.
pub open spec fn without_record(v: VaultView, id: int, now: Seq<char>) -> VaultView {
    match find_id(v.secrets, id) {
        None => v,
        Some(s) => VaultView {
            secrets: v.secrets.filter(|x: RecordView| x.id != id),
            tombstones: v.tombstones.filter(|t: TombstoneView| t.uuid != Some(s.uuid)).push(
                TombstoneView {
                    title: s.title,
                    category: s.category,
                    username: s.username,
                    deleted_at: now,
                    uuid: Some(s.uuid),
                },
            ),
            ..v
        },
    }
}

fn marks_without(t: &[Tombstone], uuid: &String) -> (out: Vec<Tombstone>)
    ensures
        marks(out@) == marks(t@).filter(|t: TombstoneView| t.uuid != Some(uuid@)),
{
    let mut out: Vec<Tombstone> = Vec::new();
    let ghost all = marks(t@);
    let ghost p = |t: TombstoneView| t.uuid != Some(uuid@);
    let mut i: usize = 0;
    proof {
        reveal(Seq::filter);
        assert(marks(out@) =~= all.take(0).filter(p));
    }
    while i < t.len()
        invariant
            i <= t@.len(),
            all == marks(t@),
            p == (|t: TombstoneView| t.uuid != Some(uuid@)),
            marks(out@) == all.take(i as int).filter(p),
        decreases t@.len() - i,
    {
        proof {
            lemma_filter_step(all, i as int, p);
        }
        if !t[i].is_for(uuid) {
            let copy = t[i].clone();
            proof {
                lemma_marks_push(out@, copy);
            }
            out.push(copy);
        }
        i += 1;
    }
    assert(all.take(i as int) =~= all);
    out
}

proof fn lemma_filter_one(s: Seq<RecordView>, i: int)
    requires
        crate::db::records::ids_distinct(s),
        0 <= i < s.len(),
    ensures
        s.filter(|x: RecordView| x.id != s[i].id) == s.remove(i),
{
    let id = s[i].id;
    let p = |x: RecordView| x.id != id;
    let a = s.take(i);
    let b = s.skip(i + 1);
    assert(s =~= a + (seq![s[i]] + b));
    Seq::filter_distributes_over_add(a, seq![s[i]] + b, p);
    Seq::filter_distributes_over_add(seq![s[i]], b, p);
    assert forall|k: int| 0 <= k < a.len() implies p(#[trigger] a[k]) by {
        assert(a[k] == s[k]);
        assert(s[k].id != s[i].id);
    }
    assert forall|k: int| 0 <= k < b.len() implies p(#[trigger] b[k]) by {
        assert(b[k] == s[i + 1 + k]);
        assert(s[i].id != s[i + 1 + k].id);
    }
    crate::lists::lemma_filter_all(a, p);
    crate::lists::lemma_filter_all(b, p);
    crate::lists::lemma_filter_none(seq![s[i]], p);
    assert(s.filter(p) =~= s.remove(i));
}

/// Deletes a record and leaves a tombstone for its identity, both or neither. Without a record
/// of that id nothing changes.
pub fn delete_secret(vault: &mut Vault, id: i64, now: &str)
    requires
        old(vault)@.wf(),
    ensures
        final(vault)@ == without_record(old(vault)@, id as int, now@),
        final(vault)@.wf(),
{
    let ghost before = vault@;
    let p: usize = position_of_id(vault.secrets.as_slice(), id);
    proof {
        assert forall|i: int| 0 <= i < p implies (#[trigger] vault@.secrets[i]).id != id by {
            assert(vault.secrets@[i]@.id != id);
        }
        lemma_find_id(vault@.secrets, id as int, p as int);
    }
    if p == vault.secrets.len() {
        return;
    }
    assert(before.secrets[p as int] == vault.secrets@[p as int]@);
    let gone = vault.secrets.remove(p);
    let ghost s = gone@;
    let mut tombstones = marks_without(vault.tombstones.as_slice(), &gone.sync_uuid);
    let mark = Tombstone {
        title: gone.title,
        category: gone.category,
        username: gone.username,
        deleted_at: now.to_owned(),
        sync_uuid: Some(gone.sync_uuid),
    };
    let ghost q = |t: TombstoneView| t.uuid != Some(s.uuid);
    let ghost kept_marks = before.tombstones.filter(q);
    proof {
        lemma_marks_push(tombstones@, mark);
    }
    tombstones.push(mark);
    vault.tombstones = tombstones;
    proof {
        lemma_filter_one(before.secrets, p as int);
        assert(vault@.secrets =~= before.secrets.remove(p as int));
        let t = vault@.secrets;
        assert forall|i: int, j: int| 0 <= i < j < t.len() implies (#[trigger] t[i]).uuid != (
        #[trigger] t[j]).uuid && t[i].id != t[j].id by {
            let a = if i < p {
                i
            } else {
                i + 1
            };
            let b = if j < p {
                j
            } else {
                j + 1
            };
            assert(t[i] == before.secrets[a] && t[j] == before.secrets[b]);
        }
        assert forall|i: int| 0 <= i < t.len() implies (#[trigger] t[i]).id < before.next_id by {
            let a = if i < p {
                i
            } else {
                i + 1
            };
            assert(t[i] == before.secrets[a]);
        }
        let rel = |x: TombstoneView, y: TombstoneView| x.uuid is Some ==> x.uuid != y.uuid;
        lemma_filter_pairs(before.tombstones, q, rel);
        lemma_filter_members(before.tombstones, q);
        let m = vault@.tombstones;
        assert forall|i: int, j: int|
            0 <= i < j < m.len() && (#[trigger] m[i]).uuid is Some implies m[i].uuid != (
        #[trigger] m[j]).uuid by {
            assert(m[i] == kept_marks[i]);
            assert(kept_marks.contains(kept_marks[i]));
            assert(q(kept_marks[i]));
            if j < kept_marks.len() {
                assert(rel(kept_marks[i], kept_marks[j]));
            }
        }
    }
}

/// A deleted record is gone and leaves a tombstone of its own; every other record stays, and so
/// does every tombstone of another identity.
pub proof fn law_every_deletion_leaves_its_own_tombstone(v: VaultView, i: int, now: Seq<char>)
    requires
        v.wf(),
        0 <= i < v.secrets.len(),
    ensures
        ({
            let w = without_record(v, v.secrets[i].id, now);
            &&& w.secrets == v.secrets.remove(i)
            &&& !has_uuid(w.secrets, v.secrets[i].uuid)
            &&& crate::merge::marked(w.tombstones, v.secrets[i].uuid)
            &&& forall|t: TombstoneView| #[trigger]
                v.tombstones.contains(t) && t.uuid != Some(v.secrets[i].uuid)
                    ==> w.tombstones.contains(t)
        }),
{
    let s = v.secrets;
    let id = s[i].id;
    assert forall|k: int| 0 <= k < i implies (#[trigger] s[k]).id != id by {
        assert(s[k].id != s[i].id);
    }
    lemma_find_id(s, id, i);
    lemma_filter_one(s, i);
    let w = without_record(v, id, now);
    let p = |t: TombstoneView| t.uuid != Some(s[i].uuid);
    let f = v.tombstones.filter(p);
    assert(w.tombstones[f.len() as int].uuid == Some(s[i].uuid));
    lemma_filter_members(v.tombstones, p);
    assert forall|t: TombstoneView| #[trigger]
        v.tombstones.contains(t) && t.uuid != Some(s[i].uuid) implies w.tombstones.contains(t) by {
        assert(f.contains(t));
        let k = choose|k: int| 0 <= k < f.len() && f[k] == t;
        assert(w.tombstones[k] == t);
    }
    assert forall|k: int| 0 <= k < w.secrets.len() implies (#[trigger] w.secrets[k]).uuid
        != s[i].uuid by {
        if k < i {
            assert(w.secrets[k] == s[k]);
            assert(s[k].uuid != s[i].uuid);
        } else {
            assert(w.secrets[k] == s[k + 1]);
            assert(s[i].uuid != s[k + 1].uuid);
        }
    }
}

/// Whether records are in the order of their titles.
pub open spec fn by_title(s: Seq<RecordView>) -> bool {
    forall|i: int, j: int|
        0 <= i < j < s.len() ==> !lex_lt((#[trigger] s[j]).title, (#[trigger] s[i]).title)
}

/// Whether `sorted` are the given records in the order of their titles.
pub open spec fn is_sorting(sorted: Seq<RecordView>, s: Seq<RecordView>) -> bool {
    by_title(sorted) && sorted.to_multiset() == s.to_multiset()
}

/// All records, in the order of their titles.
pub fn get_secrets(vault: &Vault) -> (out: Vec<SecretRecord>)
    ensures
        by_title(records(out@)),
        records(out@).to_multiset() == vault@.secrets.to_multiset(),
{
    let mut out: Vec<SecretRecord> = Vec::new();
    let ghost all = vault@.secrets;
    let mut i: usize = 0;
    proof {
        assert(records(out@) =~= all.take(0));
    }
    while i < vault.secrets.len()
        invariant
            i <= vault.secrets@.len(),
            all == vault@.secrets,
            out@.len() == i,
            by_title(records(out@)),
            records(out@).to_multiset() == all.take(i as int).to_multiset(),
        decreases vault.secrets@.len() - i,
    {
        let copy = vault.secrets[i].clone();
        let ghost x = copy@;
        let ghost before = records(out@);
        let mut at: usize = out.len();
        while at > 0 && text_before(copy.title.as_str(), out[at - 1].title.as_str())
            invariant
                at <= out@.len(),
                before == records(out@),
                by_title(before),
                x == copy@,
                forall|k: int| at <= k < out@.len() ==> lex_lt(x.title, (#[trigger] before[k]).title),
            decreases at,
        {
            at -= 1;
            assert(before[at as int] == out@[at as int]@);
        }
        proof {
            if at > 0 {
                assert(before[at - 1] == out@[at - 1]@);
            }
        }
        out.insert(at, copy);
        proof {
            let s = records(out@);
            assert(s =~= before.insert(at as int, x));
            assert forall|a: int, b: int| 0 <= a < b < s.len() implies !lex_lt(
                (#[trigger] s[b]).title,
                (#[trigger] s[a]).title,
            ) by {
                if b < at {
                    assert(s[a] == before[a] && s[b] == before[b]);
                } else if a > at {
                    assert(s[a] == before[a - 1] && s[b] == before[b - 1]);
                } else if a == at {
                    assert(s[b] == before[b - 1]);
                    if lex_lt(s[b].title, x.title) {
                        crate::text::lemma_lex_transitive(s[b].title, x.title, s[b].title);
                        crate::text::lemma_lex_irreflexive(s[b].title);
                    }
                } else if b == at {
                    assert(s[a] == before[a]);
                    assert(!lex_lt(x.title, before[at - 1].title));
                    if lex_lt(x.title, before[a].title) {
                        if a < at - 1 {
                            assert(!lex_lt(before[at - 1].title, before[a].title));
                            crate::text::lemma_lex_total(before[a].title, before[at - 1].title);
                            if lex_lt(before[a].title, before[at - 1].title) {
                                crate::text::lemma_lex_transitive(
                                    x.title,
                                    before[a].title,
                                    before[at - 1].title,
                                );
                            }
                        }
                    }
                } else {
                    assert(s[a] == before[a] && s[b] == before[b - 1]);
                }
            }
            vstd::seq_lib::to_multiset_insert(before, at as int, x);
            assert(all.take(i + 1) =~= all.take(i as int).push(all[i as int]));
            vstd::seq_lib::to_multiset_build(all.take(i as int), all[i as int]);
        }
        i += 1;
    }
    assert(all.take(i as int) =~= all);
    out
}

/// The cached count of a lookup key, if there is one.
pub open spec fn cached(h: Seq<HibpView>, hash: Seq<char>) -> Option<Option<u64>>
    decreases h.len(),
{
    if h.len() == 0 {
        None
    } else if h[0].hash == hash {
        Some(h[0].count)
    } else {
        cached(h.drop_first(), hash)
    }
}

/// The cache with the count of a lookup key set: in place if it is there, else at the end.
pub open spec fn cache_with(h: Seq<HibpView>, hash: Seq<char>, count: Option<u64>) -> Seq<HibpView> {
    let rest = h.filter(|x: HibpView| x.hash != hash);
    rest.push(HibpView { hash, count })
}

/// Caches the breach count of a lookup key, in place of an earlier one.
pub fn save_hibp_check(vault: &mut Vault, password_hash: &str, count: Option<u64>)
    requires
        old(vault)@.wf(),
    ensures
        final(vault)@ == (VaultView {
            hibp: cache_with(old(vault)@.hibp, password_hash@, count),
            ..old(vault)@
        }),
        final(vault)@.wf(),
{
    let ghost all = vault@.hibp;
    let ghost p = |x: HibpView| x.hash != password_hash@;
    let hash = password_hash.to_owned();
    let mut out: Vec<HibpCheck> = Vec::new();
    let mut i: usize = 0;
    proof {
        reveal(Seq::filter);
        assert(checks(out@) =~= all.take(0).filter(p));
    }
    while i < vault.hibp_checks.len()
        invariant
            i <= vault.hibp_checks@.len(),
            hash@ == password_hash@,
            all == checks(vault.hibp_checks@),
            p == (|x: HibpView| x.hash != password_hash@),
            checks(out@) == all.take(i as int).filter(p),
        decreases vault.hibp_checks@.len() - i,
    {
        proof {
            lemma_filter_step(all, i as int, p);
        }
        assert(all[i as int] == vault.hibp_checks@[i as int]@);
        if vault.hibp_checks[i].password_hash != hash {
            let copy = vault.hibp_checks[i].clone();
            let ghost before = checks(out@);
            out.push(copy);
            assert(checks(out@) =~= before.push(copy@));
        }
        i += 1;
    }
    assert(all.take(i as int) =~= all);
    let ghost rest = checks(out@);
    let entry = HibpCheck { password_hash: hash, hibp_count: count };
    let ghost e = entry@;
    out.push(entry);
    assert(checks(out@) =~= rest.push(e));
    vault.hibp_checks = out;
    proof {
        lemma_filter_pairs(all, p, |x: HibpView, y: HibpView| x.hash != y.hash);
        lemma_filter_members(all, p);
        let h = vault@.hibp;
        assert forall|a: int, b: int| 0 <= a < b < h.len() implies (#[trigger] h[a]).hash != (
        #[trigger] h[b]).hash by {
            assert(h[a] == rest[a]);
            assert(rest.contains(rest[a]));
            assert(p(rest[a]));
            if b < rest.len() {
                assert(h[b] == rest[b]);
            }
        }
    }
}

/// All cached breach counts.
pub fn get_all_hibp_checks(vault: &Vault) -> (out: Vec<HibpCheck>)
    ensures
        checks(out@) == vault@.hibp,
{
    crate::db::records::copy_checks(&vault.hibp_checks)
}

/// The cached count of a lookup key, if there is one.
pub fn cached_count(h: &[HibpCheck], hash: &String) -> (r: Option<Option<u64>>)
    ensures
        r == cached(checks(h@), hash@),
{
    let ghost all = checks(h@);
    let mut i: usize = 0;
    assert(all.skip(0) =~= all);
    while i < h.len()
        invariant
            i <= h@.len(),
            all == checks(h@),
            cached(all, hash@) == cached(all.skip(i as int), hash@),
        decreases h@.len() - i,
    {
        assert(all.skip(i as int)[0] == h@[i as int]@);
        if h[i].password_hash == *hash {
            return Some(h[i].hibp_count);
        }
        assert(all.skip(i as int).drop_first() =~= all.skip(i + 1));
        i += 1;
    }
    None
}

/// The replaced passwords of a record, oldest entry first.
pub fn get_password_history(vault: &Vault, sync_uuid: &String) -> (out: Vec<HistoryEntry>)
    ensures
        past(out@) == vault@.history.filter(|e: HistoryView| e.uuid == sync_uuid@),
{
    let mut out: Vec<HistoryEntry> = Vec::new();
    let ghost all = vault@.history;
    let ghost p = |e: HistoryView| e.uuid == sync_uuid@;
    let mut i: usize = 0;
    proof {
        reveal(Seq::filter);
        assert(past(out@) =~= all.take(0).filter(p));
    }
    while i < vault.history.len()
        invariant
            i <= vault.history@.len(),
            all == past(vault.history@),
            p == (|e: HistoryView| e.uuid == sync_uuid@),
            past(out@) == all.take(i as int).filter(p),
        decreases vault.history@.len() - i,
    {
        proof {
            lemma_filter_step(all, i as int, p);
        }
        assert(all[i as int] == vault.history@[i as int]@);
        if vault.history[i].sync_uuid == *sync_uuid {
            let copy = vault.history[i].clone();
            proof {
                lemma_past_push(out@, copy);
            }
            out.push(copy);
        }
        i += 1;
    }
    assert(all.take(i as int) =~= all);
    out
}

/// Drops the history of records that are gone.
pub fn prune_orphaned_history(vault: &mut Vault)
    requires
        old(vault)@.wf(),
    ensures
        final(vault)@ == (VaultView {
            history: old(vault)@.history.filter(
                |e: HistoryView| has_uuid(old(vault)@.secrets, e.uuid),
            ),
            ..old(vault)@
        }),
        final(vault)@.wf(),
{
    let mut out: Vec<HistoryEntry> = Vec::new();
    let ghost all = vault@.history;
    let ghost secrets = vault@.secrets;
    let ghost p = |e: HistoryView| has_uuid(secrets, e.uuid);
    let mut i: usize = 0;
    proof {
        reveal(Seq::filter);
        assert(past(out@) =~= all.take(0).filter(p));
    }
    while i < vault.history.len()
        invariant
            i <= vault.history@.len(),
            all == past(vault.history@),
            secrets == records(vault.secrets@),
            p == (|e: HistoryView| has_uuid(secrets, e.uuid)),
            past(out@) == all.take(i as int).filter(p),
        decreases vault.history@.len() - i,
    {
        proof {
            lemma_filter_step(all, i as int, p);
        }
        assert(all[i as int] == vault.history@[i as int]@);
        let at: usize = position_of_uuid(vault.secrets.as_slice(), &vault.history[i].sync_uuid);
        if at < vault.secrets.len() {
            let copy = vault.history[i].clone();
            proof {
                lemma_past_push(out@, copy);
            }
            out.push(copy);
        }
        i += 1;
    }
    assert(all.take(i as int) =~= all);
    vault.history = out;
}

/// Drops the tombstones from before `cutoff`.
pub fn prune_old_tombstones(vault: &mut Vault, cutoff: &str)
    requires
        old(vault)@.wf(),
    ensures
        final(vault)@ == (VaultView {
            tombstones: old(vault)@.tombstones.filter(
                |t: TombstoneView| !lex_lt(t.deleted_at, cutoff@),
            ),
            ..old(vault)@
        }),
        final(vault)@.wf(),
{
    let mut out: Vec<Tombstone> = Vec::new();
    let ghost all = vault@.tombstones;
    let ghost p = |t: TombstoneView| !lex_lt(t.deleted_at, cutoff@);
    let mut i: usize = 0;
    proof {
        reveal(Seq::filter);
        assert(marks(out@) =~= all.take(0).filter(p));
    }
    while i < vault.tombstones.len()
        invariant
            i <= vault.tombstones@.len(),
            all == marks(vault.tombstones@),
            p == (|t: TombstoneView| !lex_lt(t.deleted_at, cutoff@)),
            marks(out@) == all.take(i as int).filter(p),
        decreases vault.tombstones@.len() - i,
    {
        proof {
            lemma_filter_step(all, i as int, p);
        }
        assert(all[i as int] == vault.tombstones@[i as int]@);
        if !text_before(vault.tombstones[i].deleted_at.as_str(), cutoff) {
            let copy = vault.tombstones[i].clone();
            proof {
                lemma_marks_push(out@, copy);
            }
            out.push(copy);
        }
        i += 1;
    }
    assert(all.take(i as int) =~= all);
    vault.tombstones = out;
    proof {
        lemma_filter_pairs(
            all,
            p,
            |x: TombstoneView, y: TombstoneView| x.uuid is Some ==> x.uuid != y.uuid,
        );
    }
}

/// A count that was cached is the one found again, and no other count changes.
pub proof fn law_cached_count_is_found(
    h: Seq<HibpView>,
    hash: Seq<char>,
    count: Option<u64>,
    other: Seq<char>,
)
    requires
        hashes_distinct(h),
    ensures
        cached(cache_with(h, hash, count), hash) == Some(count),
        other != hash ==> cached(cache_with(h, hash, count), other) == cached(h, other),
    decreases h.len(),
{
    let p = |x: HibpView| x.hash != hash;
    let e = HibpView { hash, count };
    lemma_filter_members(h, p);
    let rest = h.filter(p);
    assert forall|k: int| 0 <= k < rest.len() implies (#[trigger] rest[k]).hash != hash by {
        assert(rest.contains(rest[k]));
        assert(p(rest[k]));
    }
    lemma_cached_push(rest, e, hash);
    lemma_cached_push(rest, e, other);
    lemma_not_cached(rest, hash);
    if other != hash {
        lemma_cached_filter(h, p, hash, other);
    }
}

proof fn lemma_not_cached(h: Seq<HibpView>, hash: Seq<char>)
    requires
        forall|k: int| 0 <= k < h.len() ==> (#[trigger] h[k]).hash != hash,
    ensures
        cached(h, hash) is None,
    decreases h.len(),
{
    if h.len() > 0 {
        assert(h[0].hash != hash);
        let d = h.drop_first();
        assert forall|k: int| 0 <= k < d.len() implies (#[trigger] d[k]).hash != hash by {
            assert(d[k] == h[k + 1]);
        }
        lemma_not_cached(d, hash);
    }
}

proof fn lemma_cached_push(h: Seq<HibpView>, e: HibpView, hash: Seq<char>)
    ensures
        cached(h.push(e), hash) == (if cached(h, hash) is Some {
            cached(h, hash)
        } else if e.hash == hash {
            Some(e.count)
        } else {
            None
        }),
    decreases h.len(),
{
    reveal_with_fuel(cached, 2);
    if h.len() > 0 {
        assert(h.push(e).drop_first() =~= h.drop_first().push(e));
        assert(h.push(e)[0] == h[0]);
        lemma_cached_push(h.drop_first(), e, hash);
    } else {
        assert(h.push(e).drop_first() =~= Seq::<HibpView>::empty());
        assert(h.push(e)[0] == e);
    }
}

proof fn lemma_cached_filter(
    h: Seq<HibpView>,
    p: spec_fn(HibpView) -> bool,
    hash: Seq<char>,
    other: Seq<char>,
)
    requires
        p == (|x: HibpView| x.hash != hash),
        other != hash,
    ensures
        cached(h.filter(p), other) == cached(h, other),
    decreases h.len(),
{
    reveal(Seq::filter);
    if h.len() > 0 {
        let d = h.drop_last();
        lemma_cached_filter(d, p, hash, other);
        assert(h =~= d.push(h.last()));
        lemma_cached_push(d, h.last(), other);
        lemma_cached_push(d.filter(p), h.last(), other);
    }
}

} // verus!
