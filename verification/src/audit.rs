//! Auditing the passwords of a vault.
use vstd::prelude::*;
use vstd::string::*;
use vstd::utf8::encode_utf8;

use crate::crypto::{fingerprint_of, hibp_cache_fingerprint, wipe_text};
use crate::db::records::{records, RecordView, SecretRecord};
use crate::forms::{read_password, readable_password};
use crate::strength::{check_strength, issues_of, score_of, severity_of};
use crate::text::{decimal, decimal_text, lex_lt, text_before, texts};

pub use crate::breach::check_hibp;
pub use crate::strength::Severity;

verus! {

/// The audit of one credential.
#[derive(Debug)]
pub struct AuditEntry {
    pub id: i64,
    pub title: String,
    pub category: String,
    pub username: String,
    pub severity: Severity,
    /// What is wrong with the password. Empty when severity is good.
    pub issues: Vec<String>,
    /// 0 to 5, higher is stronger.
    pub score: u8,
    /// `None` if not checked, else in how many breaches the password was found.
    pub hibp_count: Option<u64>,
    /// Lookup key of the password in the breach-count cache.
    pub hibp_fingerprint: String,
}

/// What an audit entry holds.
pub struct EntryView {
    pub id: int,
    pub title: Seq<char>,
    pub category: Seq<char>,
    pub username: Seq<char>,
    pub severity: Severity,
    pub issues: Seq<Seq<char>>,
    pub score: u8,
    pub hibp_count: Option<u64>,
    pub fingerprint: Seq<char>,
}

impl View for AuditEntry {
    type V = EntryView;

    open spec fn view(&self) -> EntryView {
        EntryView {
            id: self.id as int,
            title: self.title@,
            category: self.category@,
            username: self.username@,
            severity: self.severity,
            issues: texts(self.issues@),
            score: self.score,
            hibp_count: self.hibp_count,
            fingerprint: self.hibp_fingerprint@,
        }
    }
}

/// The audit of all credentials.
#[derive(Debug)]
pub struct AuditReport {
    /// Critical ones first, then weak, then good; by title among equals.
    pub entries: Vec<AuditEntry>,
    pub critical_count: usize,
    pub weak_count: usize,
    pub good_count: usize,
    /// Titles of the credentials that share a password, by password.
    pub duplicate_groups: Vec<Vec<String>>,
}

/// A credential to audit: id, title, category, username, password.
pub type AuditRow = (i64, String, String, String, String);

/// The views of a list of entries.
pub open spec fn entries(v: Seq<AuditEntry>) -> Seq<EntryView> {
    Seq::new(v.len(), |i: int| v[i]@)
}

/// The lookup keys of the passwords to audit.
pub open spec fn fingerprints(rows: Seq<AuditRow>, key: Seq<u8>) -> Seq<Seq<char>> {
    Seq::new(rows.len(), |i: int| fingerprint_of(encode_utf8(rows[i].4@), key))
}

/// The titles of the credentials to audit.
pub open spec fn titles(rows: Seq<AuditRow>) -> Seq<Seq<char>> {
    Seq::new(rows.len(), |i: int| rows[i].1@)
}

/// How often `f` occurs among the first `n` elements.
pub open spec fn occurrences(s: Seq<Seq<char>>, f: Seq<char>, n: int) -> nat
    decreases n,
{
    if n <= 0 {
        0
    } else {
        occurrences(s, f, n - 1) + (if s[n - 1] == f {
            1nat
        } else {
            0nat
        })
    }
}

/// The entry of a credential whose password `shared` credentials have, itself included.
pub open spec fn entry_of(row: AuditRow, fingerprint: Seq<char>, shared: nat) -> EntryView {
    let pw = row.4@;
    EntryView {
        id: row.0 as int,
        title: row.1@,
        category: row.2@,
        username: row.3@,
        severity: if shared > 1 {
            Severity::Critical
        } else {
            severity_of(pw)
        },
        issues: if shared > 1 {
            issues_of(pw).push("Password reused across "@ + decimal(shared) + " entries"@)
        } else {
            issues_of(pw)
        },
        score: score_of(pw),
        hibp_count: None,
        fingerprint,
    }
}

/// The entries in the order of the credentials.
pub open spec fn unsorted(rows: Seq<AuditRow>, key: Seq<u8>) -> Seq<EntryView> {
    let f = fingerprints(rows, key);
    Seq::new(rows.len(), |i: int| entry_of(rows[i], f[i], occurrences(f, f[i], f.len() as int)))
}

/// How far up a severity stands in the report.
pub open spec fn rank(s: Severity) -> int {
    match s {
        Severity::Critical => 0,
        Severity::Weak => 1,
        Severity::Good => 2,
    }
}

/// Whether `a` stands strictly before `b` in the report.
pub open spec fn precedes(a: EntryView, b: EntryView) -> bool {
    rank(a.severity) < rank(b.severity) || (rank(a.severity) == rank(b.severity) && lex_lt(
        a.title,
        b.title,
    ))
}

/// The entries with one more, behind those that it does not precede.
pub open spec fn placed(s: Seq<EntryView>, e: EntryView) -> Seq<EntryView>
    decreases s.len(),
{
    if s.len() > 0 && precedes(e, s.last()) {
        placed(s.drop_last(), e).push(s.last())
    } else {
        s.push(e)
    }
}

/// The entries in the order of the report; equals keep their order.
pub open spec fn arranged(s: Seq<EntryView>) -> Seq<EntryView>
    decreases s.len(),
{
    if s.len() == 0 {
        s
    } else {
        placed(arranged(s.drop_last()), s.last())
    }
}

/// Whether no entry precedes an earlier one.
pub open spec fn in_order(s: Seq<EntryView>) -> bool {
    forall|i: int, j: int| 0 <= i < j < s.len() ==> !precedes(#[trigger] s[j], #[trigger] s[i])
}

/// The number of entries of a severity.
pub open spec fn tally(s: Seq<EntryView>, sev: Severity) -> nat
    decreases s.len(),
{
    if s.len() == 0 {
        0
    } else {
        tally(s.drop_last(), sev) + (if s.last().severity == sev {
            1nat
        } else {
            0nat
        })
    }
}

/// The titles, among the first `n`, of those with fingerprint `f`.
pub open spec fn titles_with(t: Seq<Seq<char>>, s: Seq<Seq<char>>, f: Seq<char>, n: int) -> Seq<
    Seq<char>,
>
    decreases n,
{
    if n <= 0 {
        Seq::empty()
    } else if s[n - 1] == f {
        titles_with(t, s, f, n - 1).push(t[n - 1])
    } else {
        titles_with(t, s, f, n - 1)
    }
}

/// The groups of titles with one fingerprint, of those that occur first among the first `n`, in
/// the order of their first member.
pub open spec fn shared_groups(t: Seq<Seq<char>>, s: Seq<Seq<char>>, n: int) -> Seq<Seq<Seq<char>>>
    decreases n,
{
    if n <= 0 {
        Seq::empty()
    } else if occurrences(s, s[n - 1], n - 1) == 0 && occurrences(s, s[n - 1], s.len() as int) > 1 {
        shared_groups(t, s, n - 1).push(titles_with(t, s, s[n - 1], s.len() as int))
    } else {
        shared_groups(t, s, n - 1)
    }
}

/// The texts of a list of lists of strings.
pub open spec fn text_lists(v: Seq<Vec<String>>) -> Seq<Seq<Seq<char>>> {
    Seq::new(v.len(), |i: int| texts(v[i]@))
}

fn all_fingerprints(rows: &Vec<AuditRow>, key: &[u8; 32]) -> (v: Vec<String>)
    ensures
        texts(v@) == fingerprints(rows@, key@),
{
    let mut v: Vec<String> = Vec::new();
    let ghost all = fingerprints(rows@, key@);
    let mut i: usize = 0;
    while i < rows.len()
        invariant
            i <= rows@.len(),
            all == fingerprints(rows@, key@),
            texts(v@) == all.take(i as int),
        decreases rows@.len() - i,
    {
        let f = hibp_cache_fingerprint(rows[i].4.as_str().as_bytes(), key);
        let ghost before = texts(v@);
        v.push(f);
        assert(texts(v@) =~= before.push(f@));
        i += 1;
        assert(texts(v@) =~= all.take(i as int));
    }
    assert(all.take(i as int) =~= all);
    v
}

fn count_of(v: &Vec<String>, f: &String, n: usize) -> (c: usize)
    requires
        n <= v@.len(),
    ensures
        c == occurrences(texts(v@), f@, n as int),
        c <= n,
{
    let mut c: usize = 0;
    let mut i: usize = 0;
    while i < n
        invariant
            i <= n <= v@.len(),
            c == occurrences(texts(v@), f@, i as int),
            c <= i,
        decreases n - i,
    {
        assert(texts(v@)[i as int] == v@[i as int]@);
        if v[i] == *f {
            c += 1;
        }
        i += 1;
    }
    c
}

fn group_of(rows: &Vec<AuditRow>, v: &Vec<String>, f: &String) -> (g: Vec<String>)
    requires
        rows@.len() == v@.len(),
    ensures
        texts(g@) == titles_with(titles(rows@), texts(v@), f@, v@.len() as int),
{
    let mut g: Vec<String> = Vec::new();
    let mut i: usize = 0;
    assert(texts(g@) =~= Seq::empty());
    while i < v.len()
        invariant
            i <= v@.len(),
            rows@.len() == v@.len(),
            texts(g@) == titles_with(titles(rows@), texts(v@), f@, i as int),
        decreases v@.len() - i,
    {
        assert(texts(v@)[i as int] == v@[i as int]@);
        if v[i] == *f {
            let t = rows[i].1.clone();
            let ghost before = texts(g@);
            g.push(t);
            assert(texts(g@) =~= before.push(t@));
        }
        i += 1;
    }
    g
}

fn find_groups(rows: &Vec<AuditRow>, v: &Vec<String>) -> (g: Vec<Vec<String>>)
    requires
        rows@.len() == v@.len(),
    ensures
        text_lists(g@) == shared_groups(titles(rows@), texts(v@), v@.len() as int),
{
    let mut g: Vec<Vec<String>> = Vec::new();
    let mut i: usize = 0;
    assert(text_lists(g@) =~= Seq::empty());
    while i < v.len()
        invariant
            i <= v@.len(),
            rows@.len() == v@.len(),
            text_lists(g@) == shared_groups(titles(rows@), texts(v@), i as int),
        decreases v@.len() - i,
    {
        assert(texts(v@)[i as int] == v@[i as int]@);
        assert(texts(v@).len() == v@.len());
        if count_of(v, &v[i], i) == 0 && count_of(v, &v[i], v.len()) > 1 {
            let group = group_of(rows, v, &v[i]);
            let ghost before = text_lists(g@);
            g.push(group);
            assert(text_lists(g@) =~= before.push(texts(group@)));
        }
        i += 1;
    }
    g
}

fn make_entry(row: &AuditRow, fingerprint: &String, shared: usize) -> (e: AuditEntry)
    ensures
        e@ == entry_of(*row, fingerprint@, shared as nat),
{
    let (mut severity, mut issues, score) = check_strength(row.4.as_str());
    if shared > 1 {
        let mut t = "Password reused across ".to_owned();
        t.append(decimal_text(shared as u64).as_str());
        t.append(" entries");
        let ghost before = texts(issues@);
        issues.push(t);
        assert(texts(issues@) =~= before.push(t@));
        severity = Severity::Critical;
    }
    AuditEntry {
        id: row.0,
        title: row.1.clone(),
        category: row.2.clone(),
        username: row.3.clone(),
        severity,
        issues,
        score,
        hibp_count: None,
        hibp_fingerprint: fingerprint.clone(),
    }
}

fn rank_of(s: Severity) -> (r: u8)
    ensures
        r as int == rank(s),
{
    match s {
        Severity::Critical => 0,
        Severity::Weak => 1,
        Severity::Good => 2,
    }
}

fn goes_before(a: &AuditEntry, b: &AuditEntry) -> (r: bool)
    ensures
        r == precedes(a@, b@),
{
    let x: u8 = rank_of(a.severity);
    let y: u8 = rank_of(b.severity);
    x < y || (x == y && text_before(a.title.as_str(), b.title.as_str()))
}

proof fn lemma_placed_at(s: Seq<EntryView>, e: EntryView, at: int)
    requires
        0 <= at <= s.len(),
        forall|k: int| at <= k < s.len() ==> precedes(e, #[trigger] s[k]),
        at > 0 ==> !precedes(e, s[at - 1]),
    ensures
        placed(s, e) == s.insert(at, e),
    decreases s.len(),
{
    if at == s.len() {
        assert(placed(s, e) =~= s.insert(at, e));
    } else {
        assert(precedes(e, s[s.len() - 1]));
        let d = s.drop_last();
        assert forall|k: int| at <= k < d.len() implies precedes(e, #[trigger] d[k]) by {
            assert(d[k] == s[k]);
        }
        lemma_placed_at(d, e, at);
        assert(placed(s, e) =~= s.insert(at, e));
    }
}

fn place(v: &mut Vec<AuditEntry>, e: AuditEntry)
    ensures
        entries(final(v)@) == placed(entries(old(v)@), e@),
{
    let ghost before = entries(v@);
    let mut at: usize = v.len();
    while at > 0 && goes_before(&e, &v[at - 1])
        invariant
            at <= v@.len(),
            before == entries(v@),
            forall|k: int| at <= k < v@.len() ==> precedes(e@, #[trigger] before[k]),
        decreases at,
    {
        at -= 1;
        assert(before[at as int] == v@[at as int]@);
    }
    proof {
        if at > 0 {
            assert(before[at - 1] == v@[at - 1]@);
        }
        lemma_placed_at(before, e@, at as int);
    }
    let ghost x = e@;
    v.insert(at, e);
    assert(entries(v@) =~= before.insert(at as int, x));
}

fn count_severity(v: &Vec<AuditEntry>, sev: Severity) -> (c: usize)
    ensures
        c == tally(entries(v@), sev),
{
    let mut c: usize = 0;
    let mut i: usize = 0;
    let ghost all = entries(v@);
    assert(all.take(0).len() == 0);
    while i < v.len()
        invariant
            i <= v@.len(),
            all == entries(v@),
            c == tally(all.take(i as int), sev),
            c <= i,
        decreases v@.len() - i,
    {
        assert(all.take(i + 1).drop_last() =~= all.take(i as int));
        assert(all.take(i + 1).last() == v@[i as int]@);
        if v[i].severity == sev {
            c += 1;
        }
        i += 1;
    }
    assert(all.take(i as int) =~= all);
    c
}

/// Whether a credential is left as it was but for its password, which is gone.
pub open spec fn wiped(new: AuditRow, old_row: AuditRow) -> bool {
    new.0 == old_row.0 && new.1@ == old_row.1@ && new.2@ == old_row.2@ && new.3@ == old_row.3@
        && new.4@.len() == 0
}

/// Whether a report is the audit of the given credentials.
pub open spec fn reports(r: AuditReport, rows: Seq<AuditRow>, key: Seq<u8>) -> bool {
    let e = arranged(unsorted(rows, key));
    &&& entries(r.entries@) == e
    &&& r.critical_count == tally(e, Severity::Critical)
    &&& r.weak_count == tally(e, Severity::Weak)
    &&& r.good_count == tally(e, Severity::Good)
    &&& text_lists(r.duplicate_groups@) == shared_groups(
        titles(rows),
        fingerprints(rows, key),
        rows.len() as int,
    )
}

/// Audits all credentials. The plaintext passwords are wiped.
pub fn audit_passwords(records: &mut Vec<AuditRow>, master_key: &[u8; 32]) -> (r: AuditReport)
    ensures
        reports(r, old(records)@, master_key@),
        final(records)@.len() == old(records)@.len(),
        forall|i: int|
            0 <= i < old(records)@.len() ==> wiped(#[trigger] final(records)@[i], old(records)@[i]),
{
    run_full_audit(records, master_key)
}

/// Audits all credentials. The plaintext passwords are wiped.
pub fn run_full_audit(records: &mut Vec<AuditRow>, master_key: &[u8; 32]) -> (r: AuditReport)
    ensures
        reports(r, old(records)@, master_key@),
        final(records)@.len() == old(records)@.len(),
        forall|i: int|
            0 <= i < old(records)@.len() ==> wiped(#[trigger] final(records)@[i], old(records)@[i]),
{
    let ghost rows = records@;
    let keys = all_fingerprints(records, master_key);
    let ghost f = fingerprints(rows, master_key@);
    assert(keys@.len() == f.len()) by {
        assert(texts(keys@).len() == keys@.len());
    }
    let duplicate_groups = find_groups(records, &keys);
    let ghost all = unsorted(rows, master_key@);
    let mut out: Vec<AuditEntry> = Vec::new();
    let mut i: usize = 0;
    assert(entries(out@) =~= arranged(all.take(0)));
    while i < records.len()
        invariant
            i <= rows.len(),
            records@.len() == rows.len(),
            keys@.len() == rows.len(),
            f == fingerprints(rows, master_key@),
            texts(keys@) == f,
            all == unsorted(rows, master_key@),
            entries(out@) == arranged(all.take(i as int)),
            forall|k: int| i <= k < rows.len() ==> #[trigger] records@[k] == rows[k],
            forall|k: int| 0 <= k < i ==> wiped(#[trigger] records@[k], rows[k]),
        decreases rows.len() - i,
    {
        assert(f[i as int] == keys@[i as int]@);
        assert(texts(keys@).len() == keys@.len());
        let shared: usize = count_of(&keys, &keys[i], keys.len());
        let e = make_entry(&records[i], &keys[i], shared);
        assert(e@ == all[i as int]);
        place(&mut out, e);
        assert(all.take(i + 1).drop_last() =~= all.take(i as int));
        assert(all.take(i + 1).last() == all[i as int]);
        wipe_text(&mut records[i].4);
        i += 1;
    }
    assert(all.take(i as int) =~= all);
    let critical_count = count_severity(&out, Severity::Critical);
    let weak_count = count_severity(&out, Severity::Weak);
    let good_count = count_severity(&out, Severity::Good);
    AuditReport { entries: out, critical_count, weak_count, good_count, duplicate_groups }
}

proof fn lemma_precedes_order(a: EntryView, b: EntryView, c: EntryView)
    ensures
        !precedes(a, a),
        precedes(a, b) ==> !precedes(b, a),
        precedes(a, b) && !precedes(c, b) ==> precedes(a, c),
        !precedes(b, a) && !precedes(c, b) ==> !precedes(c, a),
{
    crate::text::lemma_lex_irreflexive(a.title);
    crate::text::lemma_lex_irreflexive(b.title);
    crate::text::lemma_lex_total(a.title, b.title);
    crate::text::lemma_lex_total(b.title, c.title);
    crate::text::lemma_lex_total(a.title, c.title);
    if lex_lt(a.title, b.title) && lex_lt(b.title, a.title) {
        crate::text::lemma_lex_transitive(a.title, b.title, a.title);
    }
    if lex_lt(a.title, b.title) && lex_lt(b.title, c.title) {
        crate::text::lemma_lex_transitive(a.title, b.title, c.title);
    }
    if lex_lt(c.title, a.title) && lex_lt(a.title, b.title) {
        crate::text::lemma_lex_transitive(c.title, a.title, b.title);
    }
    if lex_lt(a.title, c.title) && lex_lt(c.title, a.title) {
        crate::text::lemma_lex_transitive(a.title, c.title, a.title);
    }
}

proof fn lemma_placed(s: Seq<EntryView>, e: EntryView)
    requires
        in_order(s),
    ensures
        in_order(placed(s, e)),
        placed(s, e).to_multiset() == s.to_multiset().insert(e),
        placed(s, e).len() == s.len() + 1,
        forall|x: EntryView| #[trigger] placed(s, e).contains(x) ==> s.contains(x) || x == e,
    decreases s.len(),
{
    let p = placed(s, e);
    if s.len() > 0 && precedes(e, s.last()) {
        let d = s.drop_last();
        let l = s.last();
        lemma_placed(d, e);
        let q = placed(d, e);
        assert forall|i: int, j: int| 0 <= i < j < p.len() implies !precedes(
            #[trigger] p[j],
            #[trigger] p[i],
        ) by {
            if j < q.len() {
                assert(p[i] == q[i] && p[j] == q[j]);
            } else {
                assert(p[j] == l);
                assert(placed(d, e).contains(q[i]));
                if q[i] == e {
                    lemma_precedes_order(e, l, l);
                } else {
                    assert(d.contains(q[i]));
                    let k = choose|k: int| 0 <= k < d.len() && d[k] == q[i];
                    assert(!precedes(s[s.len() - 1], s[k]));
                }
            }
        }
        vstd::seq_lib::to_multiset_build(q, l);
        vstd::seq_lib::to_multiset_build(d, l);
        assert(s =~= d.push(l));
        assert(p.to_multiset() =~= s.to_multiset().insert(e));
        assert forall|x: EntryView| p.contains(x) implies s.contains(x) || x == e by {
            let i = choose|i: int| 0 <= i < p.len() && p[i] == x;
            if i < q.len() {
                assert(q[i] == x);
                assert(placed(d, e).contains(x));
                if x != e {
                    let k = choose|k: int| 0 <= k < d.len() && d[k] == x;
                    assert(s[k] == x);
                }
            } else {
                assert(s[s.len() - 1] == x);
            }
        }
    } else {
        vstd::seq_lib::to_multiset_build(s, e);
        assert forall|i: int, j: int| 0 <= i < j < p.len() implies !precedes(
            #[trigger] p[j],
            #[trigger] p[i],
        ) by {
            if j < s.len() {
                assert(p[i] == s[i] && p[j] == s[j]);
            } else {
                assert(p[i] == s[i]);
                if i < s.len() - 1 {
                    assert(!precedes(s[s.len() - 1], s[i]));
                    lemma_precedes_order(s[i], s.last(), e);
                }
            }
        }
        assert forall|x: EntryView| p.contains(x) implies s.contains(x) || x == e by {
            let i = choose|i: int| 0 <= i < p.len() && p[i] == x;
            if i < s.len() {
                assert(s[i] == x);
            }
        }
    }
}

/// A report lists every credential once, and no entry before one that is worse, or as bad with
/// an earlier title.
pub proof fn law_report_is_sorted_and_complete(s: Seq<EntryView>)
    ensures
        in_order(arranged(s)),
        arranged(s).to_multiset() == s.to_multiset(),
        arranged(s).len() == s.len(),
    decreases s.len(),
{
    if s.len() > 0 {
        law_report_is_sorted_and_complete(s.drop_last());
        lemma_placed(arranged(s.drop_last()), s.last());
        vstd::seq_lib::to_multiset_build(s.drop_last(), s.last());
        assert(s =~= s.drop_last().push(s.last()));
    }
}

/// The three counts of a report add up to the number of its entries.
pub proof fn law_counts_add_up(s: Seq<EntryView>)
    ensures
        tally(s, Severity::Critical) + tally(s, Severity::Weak) + tally(s, Severity::Good)
            == s.len(),
    decreases s.len(),
{
    if s.len() > 0 {
        law_counts_add_up(s.drop_last());
    }
}

/// An entry that is rated good has no issues.
pub proof fn law_good_entries_have_no_issues(row: AuditRow, fingerprint: Seq<char>, shared: nat)
    ensures
        entry_of(row, fingerprint, shared).severity == Severity::Good ==> entry_of(
            row,
            fingerprint,
            shared,
        ).issues.len() == 0,
{
    crate::strength::law_good_passwords_have_no_issues(row.4@);
}

/// The credentials of a list of records, as far as their passwords can be read.
pub open spec fn row_views(s: Seq<RecordView>, key: Seq<u8>) -> Seq<(int, Seq<char>, Seq<char>, Seq<
    char,
>, Seq<char>)>
    decreases s.len(),
{
    if s.len() == 0 {
        Seq::empty()
    } else {
        let before = row_views(s.drop_last(), key);
        let r = s.last();
        match readable_password(r, key) {
            Some(pw) => before.push((r.id, r.title, r.category, r.username, pw)),
            None => before,
        }
    }
}

/// What credentials to audit hold.
pub open spec fn rows_view(rows: Seq<AuditRow>) -> Seq<(int, Seq<char>, Seq<char>, Seq<char>, Seq<
    char,
>)> {
    Seq::new(
        rows.len(),
        |i: int| (rows[i].0 as int, rows[i].1@, rows[i].2@, rows[i].3@, rows[i].4@),
    )
}

/// The credentials of a list of records, as far as their passwords can be read.
pub fn audit_rows(all: &Vec<SecretRecord>, key: &[u8; 32]) -> (out: Vec<AuditRow>)
    ensures
        rows_view(out@) == row_views(records(all@), key@),
{
    let mut out: Vec<AuditRow> = Vec::new();
    let ghost s = records(all@);
    let mut i: usize = 0;
    assert(s.take(0).len() == 0);
    assert(rows_view(out@) =~= Seq::empty());
    while i < all.len()
        invariant
            i <= all@.len(),
            s == records(all@),
            rows_view(out@) == row_views(s.take(i as int), key@),
        decreases all@.len() - i,
    {
        assert(s.take(i + 1).drop_last() =~= s.take(i as int));
        assert(s.take(i + 1).last() == all@[i as int]@);
        let r = &all[i];
        if let Some(pw) = read_password(r, key) {
            let row = (r.id, r.title.clone(), r.category.clone(), r.username.clone(), pw);
            let ghost before = rows_view(out@);
            out.push(row);
            assert(rows_view(out@) =~= before.push(
                (row.0 as int, row.1@, row.2@, row.3@, row.4@),
            ));
        }
        i += 1;
    }
    assert(s.take(i as int) =~= s);
    out
}

/// The entries with the breach count of the given id set.
pub open spec fn with_count(s: Seq<EntryView>, id: int, n: u64) -> Seq<EntryView> {
    let k = first_with_id(s, id);
    if k < s.len() {
        s.update(k, EntryView { hibp_count: Some(n), ..s[k] })
    } else {
        s
    }
}

/// The place of the first entry with the given id, or the number of entries.
pub open spec fn first_with_id(s: Seq<EntryView>, id: int) -> int
    decreases s.len(),
{
    if s.len() == 0 || s[0].id == id {
        0
    } else {
        1 + first_with_id(s.drop_first(), id)
    }
}

/// Notes the breach count of a credential in its entry.
pub fn note_breaches(v: &mut Vec<AuditEntry>, id: i64, n: u64)
    ensures
        entries(final(v)@) == with_count(entries(old(v)@), id as int, n),
{
    let ghost all = entries(v@);
    let mut i: usize = 0;
    assert(all.skip(0) =~= all);
    while i < v.len()
        invariant
            i <= v@.len(),
            all == entries(v@),
            all == entries(old(v)@),
            first_with_id(all, id as int) == i + first_with_id(all.skip(i as int), id as int),
        decreases v@.len() - i,
    {
        assert(all.skip(i as int)[0] == v@[i as int]@);
        if v[i].id == id {
            let ghost e = v@[i as int]@;
            v[i].hibp_count = Some(n);
            assert(entries(v@) =~= all.update(i as int, EntryView { hibp_count: Some(n), ..e }));
            return;
        }
        assert(all.skip(i as int).drop_first() =~= all.skip(i + 1));
        i += 1;
    }
}

} // verus!
