//! The tables of a vault and their mathematical views.
use vstd::prelude::*;
use vstd::string::*;

verus! {

/// One stored credential.
#[derive(Debug)]
pub struct SecretRecord {
    pub id: i64,
    pub title: String,
    pub category: String,
    pub username: String,
    pub url: String,
    pub encrypted_password: Vec<u8>,
    pub encrypted_notes: Option<Vec<u8>>,
    pub updated_at: String,
    /// Stable identity used for sync and merge, independent of title, category and username.
    pub sync_uuid: String,
}

/// What a credential holds.
pub struct RecordView {
    pub id: int,
    pub title: Seq<char>,
    pub category: Seq<char>,
    pub username: Seq<char>,
    pub url: Seq<char>,
    pub password: Seq<u8>,
    pub notes: Option<Seq<u8>>,
    pub updated_at: Seq<char>,
    pub uuid: Seq<char>,
}

/// The mark that a deleted credential leaves behind. Marks from before records had a
/// `sync_uuid` carry none and match no record.
#[derive(Debug)]
pub struct Tombstone {
    pub title: String,
    pub category: String,
    pub username: String,
    pub deleted_at: String,
    pub sync_uuid: Option<String>,
}

/// What a tombstone holds.
pub struct TombstoneView {
    pub title: Seq<char>,
    pub category: Seq<char>,
    pub username: Seq<char>,
    pub deleted_at: Seq<char>,
    pub uuid: Option<Seq<char>>,
}

/// A password that a record had before `replaced_at`.
#[derive(Debug)]
pub struct HistoryEntry {
    pub sync_uuid: String,
    pub encrypted_password: Vec<u8>,
    pub replaced_at: String,
}

/// What a history entry holds.
pub struct HistoryView {
    pub uuid: Seq<char>,
    pub password: Seq<u8>,
    pub replaced_at: Seq<char>,
}

/// A cached breach count. `None` is a check that gave no answer.
#[derive(Debug)]
pub struct HibpCheck {
    pub password_hash: String,
    pub hibp_count: Option<u64>,
}

/// What a cached breach count holds.
pub struct HibpView {
    pub hash: Seq<char>,
    pub count: Option<u64>,
}

/// The contents of an unlocked vault.
#[derive(Debug)]
pub struct Vault {
    /// Oldest program version that may open the vault.
    pub min_app_version: Option<String>,
    /// Encrypted verification token.
    pub verification: Option<Vec<u8>>,
    pub secrets: Vec<SecretRecord>,
    pub tombstones: Vec<Tombstone>,
    pub hibp_checks: Vec<HibpCheck>,
    pub history: Vec<HistoryEntry>,
    /// The id that the next record gets.
    pub next_id: i64,
}

/// The contents of a vault.
pub struct VaultView {
    pub floor: Option<Seq<char>>,
    pub token: Option<Seq<u8>>,
    pub secrets: Seq<RecordView>,
    pub tombstones: Seq<TombstoneView>,
    pub hibp: Seq<HibpView>,
    pub history: Seq<HistoryView>,
    pub next_id: int,
}

/// The bytes of an optional blob.
pub open spec fn blob(b: Option<Vec<u8>>) -> Option<Seq<u8>> {
    match b {
        Some(v) => Some(v@),
        None => None,
    }
}

/// The text of an optional string.
pub open spec fn text_opt(s: Option<String>) -> Option<Seq<char>> {
    match s {
        Some(t) => Some(t@),
        None => None,
    }
}

impl View for SecretRecord {
    type V = RecordView;

    open spec fn view(&self) -> RecordView {
        RecordView {
            id: self.id as int,
            title: self.title@,
            category: self.category@,
            username: self.username@,
            url: self.url@,
            password: self.encrypted_password@,
            notes: blob(self.encrypted_notes),
            updated_at: self.updated_at@,
            uuid: self.sync_uuid@,
        }
    }
}

impl View for Tombstone {
    type V = TombstoneView;

    open spec fn view(&self) -> TombstoneView {
        TombstoneView {
            title: self.title@,
            category: self.category@,
            username: self.username@,
            deleted_at: self.deleted_at@,
            uuid: text_opt(self.sync_uuid),
        }
    }
}

impl View for HistoryEntry {
    type V = HistoryView;

    open spec fn view(&self) -> HistoryView {
        HistoryView {
            uuid: self.sync_uuid@,
            password: self.encrypted_password@,
            replaced_at: self.replaced_at@,
        }
    }
}

impl View for HibpCheck {
    type V = HibpView;

    open spec fn view(&self) -> HibpView {
        HibpView { hash: self.password_hash@, count: self.hibp_count }
    }
}

/// The views of a list of records.
pub open spec fn records(v: Seq<SecretRecord>) -> Seq<RecordView> {
    Seq::new(v.len(), |i: int| v[i]@)
}

/// The views of a list of tombstones.
pub open spec fn marks(v: Seq<Tombstone>) -> Seq<TombstoneView> {
    Seq::new(v.len(), |i: int| v[i]@)
}

/// The views of a list of history entries.
pub open spec fn past(v: Seq<HistoryEntry>) -> Seq<HistoryView> {
    Seq::new(v.len(), |i: int| v[i]@)
}

/// How the views of a list grow.
pub proof fn lemma_records_push(v: Seq<SecretRecord>, x: SecretRecord)
    ensures
        records(v.push(x)) == records(v).push(x@),
{
    assert(records(v.push(x)) =~= records(v).push(x@));
}

/// How the views of a list grow.
pub proof fn lemma_marks_push(v: Seq<Tombstone>, x: Tombstone)
    ensures
        marks(v.push(x)) == marks(v).push(x@),
{
    assert(marks(v.push(x)) =~= marks(v).push(x@));
}

/// How the views of a list grow.
pub proof fn lemma_past_push(v: Seq<HistoryEntry>, x: HistoryEntry)
    ensures
        past(v.push(x)) == past(v).push(x@),
{
    assert(past(v.push(x)) =~= past(v).push(x@));
}

/// The views of a list of cached breach counts.
pub open spec fn checks(v: Seq<HibpCheck>) -> Seq<HibpView> {
    Seq::new(v.len(), |i: int| v[i]@)
}

impl View for Vault {
    type V = VaultView;

    open spec fn view(&self) -> VaultView {
        VaultView {
            floor: text_opt(self.min_app_version),
            token: blob(self.verification),
            secrets: records(self.secrets@),
            tombstones: marks(self.tombstones@),
            hibp: checks(self.hibp_checks@),
            history: past(self.history@),
            next_id: self.next_id as int,
        }
    }
}

/// Whether the first `n` identities are distinct and new to the records.
pub open spec fn unused(fresh: Seq<Seq<char>>, n: int, s: Seq<RecordView>) -> bool {
    &&& forall|i: int, j: int| 0 <= i < j < n ==> #[trigger] fresh[i] != #[trigger] fresh[j]
    &&& forall|i: int| 0 <= i < n ==> !has_uuid(s, #[trigger] fresh[i])
}

/// No two records share an identity.
pub open spec fn uuids_distinct(s: Seq<RecordView>) -> bool {
    forall|i: int, j: int| 0 <= i < j < s.len() ==> (#[trigger] s[i]).uuid != (#[trigger] s[j]).uuid
}

/// No two records share an id.
pub open spec fn ids_distinct(s: Seq<RecordView>) -> bool {
    forall|i: int, j: int| 0 <= i < j < s.len() ==> (#[trigger] s[i]).id != (#[trigger] s[j]).id
}

/// Every id was handed out before `next`.
pub open spec fn ids_below(s: Seq<RecordView>, next: int) -> bool {
    forall|i: int| 0 <= i < s.len() ==> (#[trigger] s[i]).id < next
}

/// No two tombstones mark the same identity.
pub open spec fn marks_distinct(t: Seq<TombstoneView>) -> bool {
    forall|i: int, j: int|
        0 <= i < j < t.len() && (#[trigger] t[i]).uuid is Some ==> t[i].uuid != (
        #[trigger] t[j]).uuid
}

/// No two cached counts share a lookup key.
pub open spec fn hashes_distinct(h: Seq<HibpView>) -> bool {
    forall|i: int, j: int| 0 <= i < j < h.len() ==> (#[trigger] h[i]).hash != (#[trigger] h[j]).hash
}

impl VaultView {
    /// What holds of every vault.
    pub open spec fn wf(self) -> bool {
        &&& uuids_distinct(self.secrets)
        &&& ids_distinct(self.secrets)
        &&& ids_below(self.secrets, self.next_id)
        &&& marks_distinct(self.tombstones)
        &&& hashes_distinct(self.hibp)
        &&& 1 <= self.next_id
    }
}

impl RecordView {
    /// The same record under another id.
    pub open spec fn with_id(self, id: int) -> RecordView {
        RecordView { id, ..self }
    }

    /// Whether two records carry the same title, category and username.
    pub open spec fn same_triple(self, o: RecordView) -> bool {
        self.title == o.title && self.category == o.category && self.username == o.username
    }
}

/// A copy of a byte string.
pub fn copy_bytes(v: &[u8]) -> (r: Vec<u8>)
    ensures
        r@ == v@,
{
    let mut r: Vec<u8> = Vec::new();
    r.extend_from_slice(v);
    assert(r@ =~= v@);
    r
}

/// A copy of an optional byte string.
pub fn copy_blob(b: &Option<Vec<u8>>) -> (r: Option<Vec<u8>>)
    ensures
        blob(r) == blob(*b),
{
    match b {
        Some(v) => Some(copy_bytes(v.as_slice())),
        None => None,
    }
}

/// A copy of an optional string.
pub fn copy_text_opt(s: &Option<String>) -> (r: Option<String>)
    ensures
        text_opt(r) == text_opt(*s),
{
    match s {
        Some(t) => Some(t.clone()),
        None => None,
    }
}

impl Clone for SecretRecord {
    fn clone(&self) -> (r: SecretRecord)
        ensures
            r@ == self@,
    {
        self.with_new_id(self.id)
    }
}

impl SecretRecord {
    /// A copy of the record under another id.
    pub fn with_new_id(&self, id: i64) -> (r: SecretRecord)
        ensures
            r@ == self@.with_id(id as int),
    {
        SecretRecord {
            id,
            title: self.title.clone(),
            category: self.category.clone(),
            username: self.username.clone(),
            url: self.url.clone(),
            encrypted_password: copy_bytes(self.encrypted_password.as_slice()),
            encrypted_notes: copy_blob(&self.encrypted_notes),
            updated_at: self.updated_at.clone(),
            sync_uuid: self.sync_uuid.clone(),
        }
    }
}

impl Clone for Tombstone {
    fn clone(&self) -> (r: Tombstone)
        ensures
            r@ == self@,
    {
        Tombstone {
            title: self.title.clone(),
            category: self.category.clone(),
            username: self.username.clone(),
            deleted_at: self.deleted_at.clone(),
            sync_uuid: copy_text_opt(&self.sync_uuid),
        }
    }
}

impl Tombstone {
    /// Whether the tombstone marks the given identity.
    pub fn is_for(&self, uuid: &String) -> (r: bool)
        ensures
            r == (self@.uuid == Some(uuid@)),
    {
        match &self.sync_uuid {
            Some(u) => *u == *uuid,
            None => false,
        }
    }
}

impl Clone for HistoryEntry {
    fn clone(&self) -> (r: HistoryEntry)
        ensures
            r@ == self@,
    {
        HistoryEntry {
            sync_uuid: self.sync_uuid.clone(),
            encrypted_password: copy_bytes(self.encrypted_password.as_slice()),
            replaced_at: self.replaced_at.clone(),
        }
    }
}

impl Clone for HibpCheck {
    fn clone(&self) -> (r: HibpCheck)
        ensures
            r@ == self@,
    {
        HibpCheck { password_hash: self.password_hash.clone(), hibp_count: self.hibp_count }
    }
}

/// A copy of a list of records.
pub fn copy_records(v: &Vec<SecretRecord>) -> (out: Vec<SecretRecord>)
    ensures
        records(out@) == records(v@),
{
    let mut out: Vec<SecretRecord> = Vec::new();
    let mut i: usize = 0;
    while i < v.len()
        invariant
            i <= v@.len(),
            records(out@) == records(v@).take(i as int),
        decreases v@.len() - i,
    {
        let copy = v[i].clone();
        proof {
            lemma_records_push(out@, copy);
        }
        out.push(copy);
        i += 1;
        assert(records(out@) =~= records(v@).take(i as int));
    }
    assert(records(v@).take(i as int) =~= records(v@));
    out
}

/// A copy of a list of tombstones.
pub fn copy_marks(v: &Vec<Tombstone>) -> (out: Vec<Tombstone>)
    ensures
        marks(out@) == marks(v@),
{
    let mut out: Vec<Tombstone> = Vec::new();
    let mut i: usize = 0;
    while i < v.len()
        invariant
            i <= v@.len(),
            marks(out@) == marks(v@).take(i as int),
        decreases v@.len() - i,
    {
        let copy = v[i].clone();
        proof {
            lemma_marks_push(out@, copy);
        }
        out.push(copy);
        i += 1;
        assert(marks(out@) =~= marks(v@).take(i as int));
    }
    assert(marks(v@).take(i as int) =~= marks(v@));
    out
}

/// A copy of a password history.
pub fn copy_history(v: &Vec<HistoryEntry>) -> (out: Vec<HistoryEntry>)
    ensures
        past(out@) == past(v@),
{
    let mut out: Vec<HistoryEntry> = Vec::new();
    let mut i: usize = 0;
    while i < v.len()
        invariant
            i <= v@.len(),
            past(out@) == past(v@).take(i as int),
        decreases v@.len() - i,
    {
        let copy = v[i].clone();
        proof {
            lemma_past_push(out@, copy);
        }
        out.push(copy);
        i += 1;
        assert(past(out@) =~= past(v@).take(i as int));
    }
    assert(past(v@).take(i as int) =~= past(v@));
    out
}

/// A copy of a list of cached breach counts.
pub fn copy_checks(v: &Vec<HibpCheck>) -> (out: Vec<HibpCheck>)
    ensures
        checks(out@) == checks(v@),
{
    let mut out: Vec<HibpCheck> = Vec::new();
    let mut i: usize = 0;
    while i < v.len()
        invariant
            i <= v@.len(),
            checks(out@) == checks(v@).take(i as int),
        decreases v@.len() - i,
    {
        let copy = v[i].clone();
        let ghost before = checks(out@);
        out.push(copy);
        assert(checks(out@) =~= before.push(copy@));
        i += 1;
        assert(checks(out@) =~= checks(v@).take(i as int));
    }
    assert(checks(v@).take(i as int) =~= checks(v@));
    out
}

impl Clone for Vault {
    fn clone(&self) -> (r: Vault)
        ensures
            r@ == self@,
    {
        Vault {
            min_app_version: copy_text_opt(&self.min_app_version),
            verification: copy_blob(&self.verification),
            secrets: copy_records(&self.secrets),
            tombstones: copy_marks(&self.tombstones),
            hibp_checks: copy_checks(&self.hibp_checks),
            history: copy_history(&self.history),
            next_id: self.next_id,
        }
    }
}

/// The first record with the given identity.
pub open spec fn find_uuid(s: Seq<RecordView>, uuid: Seq<char>) -> Option<RecordView>
    decreases s.len(),
{
    if s.len() == 0 {
        None
    } else if s[0].uuid == uuid {
        Some(s[0])
    } else {
        find_uuid(s.drop_first(), uuid)
    }
}

/// Whether some record has the given identity.
pub open spec fn has_uuid(s: Seq<RecordView>, uuid: Seq<char>) -> bool {
    exists|i: int| 0 <= i < s.len() && (#[trigger] s[i]).uuid == uuid
}

/// `find_uuid` finds exactly what is there.
pub proof fn lemma_find_uuid(s: Seq<RecordView>, uuid: Seq<char>)
    ensures
        find_uuid(s, uuid) is Some <==> has_uuid(s, uuid),
        find_uuid(s, uuid) matches Some(r) ==> r.uuid == uuid && s.contains(r),
    decreases s.len(),
{
    if s.len() > 0 {
        let d = s.drop_first();
        lemma_find_uuid(d, uuid);
        if s[0].uuid == uuid {
            assert(s.contains(s[0]));
        } else {
            if has_uuid(s, uuid) {
                let i = choose|i: int| 0 <= i < s.len() && (#[trigger] s[i]).uuid == uuid;
                assert(d[i - 1] == s[i]);
            }
            if has_uuid(d, uuid) {
                let i = choose|i: int| 0 <= i < d.len() && (#[trigger] d[i]).uuid == uuid;
                assert(s[i + 1] == d[i]);
            }
            if let Some(r) = find_uuid(d, uuid) {
                let i = choose|i: int| 0 <= i < d.len() && d[i] == r;
                assert(s[i + 1] == r);
            }
        }
    }
}

/// With distinct identities, a record is the one found under its identity.
pub proof fn lemma_find_distinct(s: Seq<RecordView>, i: int)
    requires
        uuids_distinct(s),
        0 <= i < s.len(),
    ensures
        find_uuid(s, s[i].uuid) == Some(s[i]),
    decreases s.len(),
{
    if i > 0 {
        assert(s[0].uuid != s[i].uuid);
        let d = s.drop_first();
        assert(uuids_distinct(d)) by {
            assert forall|a: int, b: int| 0 <= a < b < d.len() implies (#[trigger] d[a]).uuid != (
            #[trigger] d[b]).uuid by {
                assert(d[a] == s[a + 1] && d[b] == s[b + 1]);
            }
        }
        lemma_find_distinct(d, i - 1);
        assert(d[i - 1] == s[i]);
    }
}

/// Position of the first record with the given identity, or the number of records.
pub fn position_of_uuid(v: &[SecretRecord], uuid: &String) -> (p: usize)
    ensures
        p <= v@.len(),
        p < v@.len() ==> v@[p as int]@.uuid == uuid@ && find_uuid(records(v@), uuid@) == Some(
            v@[p as int]@,
        ),
        p == v@.len() ==> find_uuid(records(v@), uuid@) is None,
        (p < v@.len()) == has_uuid(records(v@), uuid@),
{
    let mut i: usize = 0;
    let ghost all = records(v@);
    assert(all.skip(0) =~= all);
    while i < v.len()
        invariant
            i <= v@.len(),
            all == records(v@),
            find_uuid(all, uuid@) == find_uuid(all.skip(i as int), uuid@),
        decreases v@.len() - i,
    {
        assert(all.skip(i as int)[0] == v@[i as int]@);
        if v[i].sync_uuid == *uuid {
            proof {
                lemma_find_uuid(all, uuid@);
            }
            return i;
        }
        assert(all.skip(i as int).drop_first() =~= all.skip(i + 1));
        i += 1;
    }
    proof {
        lemma_find_uuid(all, uuid@);
    }
    i
}

} // verus!
