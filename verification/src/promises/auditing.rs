//! The audit: how passwords are rated, and what a report says of them.
use vstd::prelude::*;
use vstd::arithmetic::power::*;
use vstd::arithmetic::power2::*;
use vstd::utf8::*;

use crate::audit::{
    arranged, audit_passwords, audit_rows, entries, entry_of, fingerprints, law_counts_add_up,
    law_report_is_sorted_and_complete, note_breaches, occurrences, run_full_audit, shared_groups,
    tally, text_lists, titles, titles_with, unsorted, AuditEntry, AuditReport, AuditRow, EntryView,
};
use crate::crypto::{fingerprint_of, opened};
use crate::db::records::{records, RecordView, SecretRecord};
use crate::forms::{read_password, readable_password};
use crate::promises::records::reads;
use crate::strength::{
    alphanumeric, check_strength, is_common_weak, lower_case, only_if, upper_case, Severity,
};
use crate::text::{decimal, lex_lt, lower, texts};

verus! {

/// The password of a row, by its fingerprint.
pub open spec fn mark_of(row: AuditRow, key: Seq<u8>) -> Seq<char> {
    fingerprint_of(encode_utf8(row.4@), key)
}

/// Where a severity stands: the more serious, the higher.
pub open spec fn gravity(s: Severity) -> int {
    match s {
        Severity::Good => 0,
        Severity::Weak => 1,
        Severity::Critical => 2,
    }
}

proof fn lemma_occurs_twice(s: Seq<Seq<char>>, f: Seq<char>, i: int, j: int, n: int)
    requires
        0 <= i < j < n <= s.len(),
        s[i] == f,
        s[j] == f,
    ensures
        occurrences(s, f, n) > 1,
    decreases n,
{
    if j < n - 1 {
        lemma_occurs_twice(s, f, i, j, n - 1);
    } else {
        lemma_occurs_once(s, f, i, n - 1);
    }
}

proof fn lemma_occurs_once(s: Seq<Seq<char>>, f: Seq<char>, i: int, n: int)
    requires
        0 <= i < n <= s.len(),
        s[i] == f,
    ensures
        occurrences(s, f, n) > 0,
    decreases n,
{
    if i < n - 1 {
        lemma_occurs_once(s, f, i, n - 1);
    }
}

proof fn lemma_occurs_nowhere_else(s: Seq<Seq<char>>, f: Seq<char>, i: int, n: int)
    requires
        0 <= n <= s.len(),
        forall|j: int| 0 <= j < n && j != i ==> #[trigger] s[j] != f,
    ensures
        occurrences(s, f, n) <= 1,
        !(0 <= i < n && s[i] == f) ==> occurrences(s, f, n) == 0,
    decreases n,
{
    if n > 0 {
        lemma_occurs_nowhere_else(s, f, i, n - 1);
        if i != n - 1 {
            assert(s[n - 1] != f);
        } else {
            lemma_occurs_nowhere_else(s, f, i, n - 1);
        }
    }
}

/// The entry of a row in a report: there is one that names the row and carries its fingerprint.
pub open spec fn entry_for(e: EntryView, row: AuditRow, key: Seq<u8>) -> bool {
    e.id == row.0 && e.title == row.1@ && e.category == row.2@ && e.username == row.3@
        && e.fingerprint == mark_of(row, key)
}

proof fn lemma_entry(report: AuditReport, rows: Seq<AuditRow>, key: Seq<u8>, i: int) -> (e: EntryView)
    requires
        crate::audit::reports(report, rows, key),
        0 <= i < rows.len(),
    ensures
        e == unsorted(rows, key)[i],
        entries(report.entries@).contains(e),
{
    let u = unsorted(rows, key);
    law_report_is_sorted_and_complete(u);
    u.to_multiset_ensures();
    arranged(u).to_multiset_ensures();
    assert(u.contains(u[i]));
    assert(arranged(u).to_multiset().count(u[i]) > 0);
    u[i]
}

/// A credential whose password another audited one has too is rated critical, and so is the
/// other; the report says of it that the password is reused. A credential whose password no
/// other has is rated as the password is on its own.
pub proof fn law_reuse_is_critical(
    rows: &mut Vec<AuditRow>,
    key: &[u8; 32],
    report: AuditReport,
    i: int,
    j: int,
    password: &str,
    alone: (Severity, Vec<String>, u8),
)
    requires
        call_ensures(audit_passwords, (rows, key), report) || call_ensures(
            run_full_audit,
            (rows, key),
            report,
        ),
        0 <= i < old(rows)@.len(),
        0 <= j < old(rows)@.len(),
        i != j,
        password@ == old(rows)@[i].4@,
        call_ensures(check_strength, (password,), alone),
    ensures
        mark_of(old(rows)@[i], key@) == mark_of(old(rows)@[j], key@) ==> exists|e: EntryView| #[trigger]
            entries(report.entries@).contains(e) && entry_for(e, old(rows)@[i], key@) && e.severity
                == Severity::Critical && e.issues.len() == alone.1@.len() + 1 && e.issues.drop_last()
                == texts(alone.1@) && e.score == alone.2 && e.hibp_count is None
                && (exists|n: nat|
                n >= 2 && e.issues.last() == "Password reused across "@ + #[trigger] decimal(n)
                    + " entries"@),
        (forall|k: int|
            0 <= k < old(rows)@.len() && k != i ==> mark_of(#[trigger] old(rows)@[k], key@) != mark_of(
                old(rows)@[i],
                key@,
            )) ==> exists|e: EntryView| #[trigger]
            entries(report.entries@).contains(e) && entry_for(e, old(rows)@[i], key@) && e.severity
                == alone.0 && e.issues == texts(alone.1@) && e.score == alone.2 && e.hibp_count
                is None,
        exists|e: EntryView| #[trigger]
            entries(report.entries@).contains(e) && entry_for(e, old(rows)@[i], key@) && gravity(
                e.severity,
            ) >= gravity(alone.0) && e.score == alone.2,
{
    let a = old(rows)@;
    let f = fingerprints(a, key@);
    let e = lemma_entry(report, a, key@, i);
    let n = occurrences(f, f[i], f.len() as int);
    assert(e == entry_of(a[i], f[i], n));
    assert(entry_for(e, a[i], key@));
    if mark_of(a[i], key@) == mark_of(a[j], key@) {
        assert(f[i] == f[j]);
        if i < j {
            lemma_occurs_twice(f, f[i], i, j, f.len() as int);
        } else {
            lemma_occurs_twice(f, f[i], j, i, f.len() as int);
        }
        assert(e.issues.last() == "Password reused across "@ + decimal(n) + " entries"@);
        assert(e.issues.drop_last() =~= texts(alone.1@));
        assert(texts(alone.1@).len() == alone.1@.len());
    }
    if forall|k: int|
        0 <= k < a.len() && k != i ==> mark_of(#[trigger] a[k], key@) != mark_of(a[i], key@) {
        assert forall|k: int| 0 <= k < f.len() && k != i implies #[trigger] f[k] != f[i] by {
            assert(f[k] == mark_of(a[k], key@));
        }
        lemma_occurs_nowhere_else(f, f[i], i, f.len() as int);
    }
}

/// A report speaks of every credential that was audited and of nothing else, the more serious
/// ones first and by title among equals, and its three counts are those of its entries.
pub proof fn law_report_is_complete_and_in_order(
    rows: &mut Vec<AuditRow>,
    key: &[u8; 32],
    report: AuditReport,
    i: int,
    j: int,
)
    requires
        call_ensures(audit_passwords, (rows, key), report) || call_ensures(
            run_full_audit,
            (rows, key),
            report,
        ),
        0 <= i < j < report.entries@.len(),
    ensures
        report.entries@.len() == old(rows)@.len(),
        gravity(report.entries@[i].severity) >= gravity(report.entries@[j].severity),
        report.entries@[i].severity == report.entries@[j].severity ==> !lex_lt(
            report.entries@[j].title@,
            report.entries@[i].title@,
        ),
        report.critical_count + report.weak_count + report.good_count == old(rows)@.len(),
        exists|k: int|
            0 <= k < old(rows)@.len() && entry_for(
                report.entries@[i]@,
                #[trigger] old(rows)@[k],
                key@,
            ),
        forall|k: int|
            0 <= k < old(rows)@.len() ==> (#[trigger] final(rows)@[k]).4@.len() == 0,
{
    let a = old(rows)@;
    let u = unsorted(a, key@);
    law_report_is_sorted_and_complete(u);
    law_counts_add_up(arranged(u));
    let e = entries(report.entries@);
    assert(e[i] == report.entries@[i]@ && e[j] == report.entries@[j]@);
    u.to_multiset_ensures();
    e.to_multiset_ensures();
    assert(e.contains(e[i]));
    assert(u.to_multiset().count(e[i]) > 0);
    let k = choose|k: int| 0 <= k < u.len() && u[k] == e[i];
    assert(entry_for(e[i], a[k], key@));
    assert forall|k: int| 0 <= k < a.len() implies (#[trigger] final(rows)@[k]).4@.len() == 0 by {
        assert(crate::audit::wiped(final(rows)@[k], a[k]));
    }
}

/// How many entries there are of a severity: none where no entry has it, and one more with each.
pub proof fn law_tally_counts_entries(s: Seq<EntryView>, e: EntryView, sev: Severity)
    ensures
        tally(Seq::empty(), sev) == 0,
        tally(s.push(e), sev) == tally(s, sev) + (if e.severity == sev {
            1int
        } else {
            0
        }),
{
    assert(s.push(e).drop_last() =~= s);
}

/// A breach count is noted at the entry with the id and nowhere else, and changes nothing else.
pub proof fn law_breaches_are_noted_at_their_entry(
    v: &mut Vec<AuditEntry>,
    id: i64,
    n: u64,
    i: int,
)
    requires
        call_ensures(note_breaches, (v, id, n), ()),
        0 <= i < old(v)@.len(),
        forall|a: int, b: int|
            0 <= a < b < old(v)@.len() ==> (#[trigger] old(v)@[a]).id != (#[trigger] old(v)@[b]).id,
    ensures
        final(v)@.len() == old(v)@.len(),
        old(v)@[i].id == id ==> final(v)@[i]@ == (EntryView { hibp_count: Some(n), ..old(v)@[i]@ }),
        old(v)@[i].id != id ==> final(v)@[i]@ == old(v)@[i]@,
{
    let s = entries(old(v)@);
    let t = entries(final(v)@);
    lemma_first_with_id(s, id as int);
    let k = crate::audit::first_with_id(s, id as int);
    assert(s.len() == old(v)@.len() && t.len() == final(v)@.len());
    assert(s[i] == old(v)@[i]@);
    assert(t[i] == final(v)@[i]@);
    if k < s.len() {
        assert(s[k] == old(v)@[k]@);
    }
    if old(v)@[i].id == id {
        if k < i {
            assert(old(v)@[k].id != old(v)@[i].id);
        }
        assert(k == i);
    }
}

proof fn lemma_first_with_id(s: Seq<EntryView>, id: int)
    ensures
        0 <= crate::audit::first_with_id(s, id) <= s.len(),
        crate::audit::first_with_id(s, id) < s.len() ==> s[crate::audit::first_with_id(s, id)].id
            == id,
        forall|i: int| 0 <= i < crate::audit::first_with_id(s, id) ==> (#[trigger] s[i]).id != id,
    decreases s.len(),
{
    if s.len() > 0 && s[0].id != id {
        let d = s.drop_first();
        lemma_first_with_id(d, id);
        assert forall|i: int| 0 <= i < crate::audit::first_with_id(s, id) implies (
        #[trigger] s[i]).id != id by {
            if i > 0 {
                assert(d[i - 1] == s[i]);
            }
        }
    }
}

/// Passwords that everyone tries first, in any case, the empty one, and those of a single
/// repeated character are critical, score nothing, and have one issue that says why.
pub proof fn law_hopeless_passwords_are_critical(
    password: &str,
    r: (Severity, Vec<String>, u8),
)
    requires
        call_ensures(check_strength, (password,), r),
        password@.len() == 0 || (forall|i: int|
            0 <= i < password@.len() ==> #[trigger] password@[i] == password@[0]) || first_tries().contains(
            lower(password@),
        ),
    ensures
        r.0 == Severity::Critical,
        r.2 == 0,
        r.1@.len() == 1,
        password@.len() == 0 ==> r.1@[0]@ == "Password is empty"@,
        first_tries().contains(lower(password@)) && password@.len() > 0 ==> r.1@[0]@
            == "Password is a known common/weak password"@,
{
    let t = texts(r.1@);
    if first_tries().contains(lower(password@)) {
        let l = first_tries();
        let k = choose|k: int| 0 <= k < l.len() && l[k] == lower(password@);
        assert(crate::strength::is_common_weak(l[k]));
    }
    assert(t.len() == r.1@.len());
    assert(t[0] == r.1@[0]@);
}

/// The passwords that everyone tries first.
pub open spec fn first_tries() -> Seq<Seq<char>> {
    seq![
            "password"@,
            "password1"@,
            "password123"@,
            "123456"@,
            "12345678"@,
            "123456789"@,
            "1234567890"@,
            "qwerty"@,
            "qwerty123"@,
            "abc123"@,
            "letmein"@,
            "admin"@,
            "admin123"@,
            "welcome"@,
            "welcome1"@,
            "monkey"@,
            "dragon"@,
            "master"@,
            "shadow"@,
            "sunshine"@,
            "princess"@,
            "iloveyou"@,
            "trustno1"@,
            "hello"@,
            "hello123"@,
            "test"@,
            "test123"@,
            "changeme"@,
            "secret"@,
            "pass"@,
            "pass123"@,
            "root"@,
            "toor"@,
            "login"@,
    ]
}

/// How many characters a guesser has to reckon with at each place.
pub open spec fn alphabet(s: Seq<char>) -> int {
    let n = (if exists|i: int| 0 <= i < s.len() && lower_case(#[trigger] s[i]) {
        26int
    } else {
        0
    }) + (if exists|i: int| 0 <= i < s.len() && upper_case(#[trigger] s[i]) {
        26int
    } else {
        0
    }) + (if exists|i: int| 0 <= i < s.len() && '0' as int <= #[trigger] s[i] as int <= '9' as int {
        10int
    } else {
        0
    }) + (if exists|i: int| 0 <= i < s.len() && !alphanumeric(#[trigger] s[i]) {
        33int
    } else {
        0
    });
    if n == 0 {
        1
    } else {
        n
    }
}

/// Whether each byte follows the one before it, upwards or downwards.
pub open spec fn runs(b: Seq<u8>) -> bool {
    b.len() >= 4 && ((forall|i: int| 0 < i < b.len() ==> #[trigger] b[i] == (b[i - 1] + 1) % 256) || (
    forall|i: int| 0 < i < b.len() ==> #[trigger] b[i] == (b[i - 1] + 255) % 256))
}

/// Any other password is rated by the number of passwords like it: good from 75 bits on, weak
/// from 50, critical below, with a point of the score for each 20 bits up to five. A run such as
/// `12345678` counts 20 bits less.
pub proof fn law_strength_is_the_number_of_guesses(
    password: &str,
    r: (Severity, Vec<String>, u8),
    penalty: nat,
    guesses: int,
)
    requires
        call_ensures(check_strength, (password,), r),
        password@.len() > 0,
        exists|i: int| 0 <= i < password@.len() && #[trigger] password@[i] != password@[0],
        !is_common_weak(lower(password@)),
        penalty == (if runs(encode_utf8(password@)) {
            20nat
        } else {
            0nat
        }),
        guesses == pow(alphabet(password@), password@.len()),
    ensures
        r.0 == Severity::Good <==> guesses >= pow2(75 + penalty),
        r.0 == Severity::Critical <==> guesses < pow2(50 + penalty),
        r.2 >= 5 <==> guesses >= pow2(100 + penalty),
        r.2 >= 4 <==> guesses >= pow2(80 + penalty),
        r.2 >= 3 <==> guesses >= pow2(60 + penalty),
        r.2 >= 2 <==> guesses >= pow2(40 + penalty),
        r.2 >= 1 <==> guesses >= pow2(20 + penalty),
        r.2 <= 5,
{
    let s = password@;
    assert(alphabet(s) == crate::strength::pool(s)) by {
        assert(crate::strength::has_digit(s) <==> exists|i: int|
            0 <= i < s.len() && '0' as int <= #[trigger] s[i] as int <= '9' as int);
    }
    assert(runs(encode_utf8(s)) == crate::strength::sequential(s));
    assert(!crate::strength::hopeless(s)) by {
        let i = choose|i: int| 0 <= i < s.len() && #[trigger] s[i] != s[0];
        assert(s[i] != s[0]);
    }
    lemma_pow2_grows(20 + penalty, 40 + penalty);
    lemma_pow2_grows(40 + penalty, 50 + penalty);
    lemma_pow2_grows(50 + penalty, 60 + penalty);
    lemma_pow2_grows(60 + penalty, 75 + penalty);
    lemma_pow2_grows(75 + penalty, 80 + penalty);
    lemma_pow2_grows(80 + penalty, 100 + penalty);
}

proof fn lemma_pow2_grows(a: nat, b: nat)
    requires
        a <= b,
    ensures
        pow2(a) <= pow2(b),
{
    if a < b {
        lemma_pow2_strictly_increases(a, b);
    }
}

/// Whether a list of issues names one.
pub open spec fn names(v: Seq<String>, issue: Seq<char>) -> bool {
    texts(v).contains(issue)
}

/// Of a password that is neither good nor hopeless, the issues name exactly what it lacks.
pub proof fn law_issues_name_what_is_missing(
    password: &str,
    r: (Severity, Vec<String>, u8),
)
    requires
        call_ensures(check_strength, (password,), r),
        password@.len() > 0,
        exists|i: int| 0 <= i < password@.len() && #[trigger] password@[i] != password@[0],
        !is_common_weak(lower(password@)),
    ensures
        r.0 == Severity::Good ==> r.1@.len() == 0,
        r.0 != Severity::Good ==> {
            &&& (password@.len() < 8) ==> names(
                r.1@,
                "Too short ("@ + decimal(password@.len()) + " chars, minimum 8 recommended)"@,
            )
            &&& (forall|i: int| 0 <= i < password@.len() ==> !upper_case(#[trigger] password@[i]))
                ==> names(r.1@, "No uppercase letters"@)
            &&& (forall|i: int|
                0 <= i < password@.len() ==> !('0' as int <= #[trigger] password@[i] as int
                    <= '9' as int)) ==> names(r.1@, "No numbers"@)
            &&& (forall|i: int| 0 <= i < password@.len() ==> alphanumeric(#[trigger] password@[i]))
                ==> names(r.1@, "No special characters"@)
            &&& runs(encode_utf8(password@)) ==> names(
                r.1@,
                "Password is a sequential pattern (e.g. 12345678, abcdefgh)"@,
            )
            &&& r.1@.len() == (if password@.len() < 8 {
                1int
            } else {
                0
            }) + (if exists|i: int| 0 <= i < password@.len() && upper_case(#[trigger] password@[i]) {
                0int
            } else {
                1
            }) + (if exists|i: int|
                0 <= i < password@.len() && '0' as int <= #[trigger] password@[i] as int <= '9' as int {
                0int
            } else {
                1
            }) + (if exists|i: int| 0 <= i < password@.len() && !alphanumeric(#[trigger] password@[i]) {
                0int
            } else {
                1
            }) + (if runs(encode_utf8(password@)) {
                1int
            } else {
                0
            })
        },
{
    let s = password@;
    let i = choose|i: int| 0 <= i < s.len() && #[trigger] s[i] != s[0];
    assert(s[i] != s[0]);
    assert(texts(r.1@).len() == r.1@.len());
    assert(runs(encode_utf8(s)) == crate::strength::sequential(s));
    if r.0 != Severity::Good {
        let a = only_if(
            s.len() < 8,
            "Too short ("@ + decimal(s.len()) + " chars, minimum 8 recommended)"@,
        );
        let b = only_if(!crate::strength::has_upper(s), "No uppercase letters"@);
        let c = only_if(!crate::strength::has_digit(s), "No numbers"@);
        let d = only_if(!crate::strength::has_symbol(s), "No special characters"@);
        let e = only_if(
            crate::strength::sequential(s),
            "Password is a sequential pattern (e.g. 12345678, abcdefgh)"@,
        );
        assert(texts(r.1@) == a + b + c + d + e);
        lemma_listed(a, b, c, d, e);
        assert forall|k: int| 0 <= k < s.len() && crate::strength::ascii_digit(#[trigger] s[k]) implies '0' as int
            <= s[k] as int <= '9' as int by {}
    }
}

proof fn lemma_listed(a: Seq<Seq<char>>, b: Seq<Seq<char>>, c: Seq<Seq<char>>, d: Seq<Seq<char>>, e: Seq<
    Seq<char>,
>)
    ensures
        a.len() == 1 ==> (a + b + c + d + e).contains(a[0]),
        b.len() == 1 ==> (a + b + c + d + e).contains(b[0]),
        c.len() == 1 ==> (a + b + c + d + e).contains(c[0]),
        d.len() == 1 ==> (a + b + c + d + e).contains(d[0]),
        e.len() == 1 ==> (a + b + c + d + e).contains(e[0]),
{
    let t = a + b + c + d + e;
    if a.len() == 1 {
        assert(t[0] == a[0]);
    }
    if b.len() == 1 {
        assert(t[a.len() as int] == b[0]);
    }
    if c.len() == 1 {
        assert(t[(a + b).len() as int] == c[0]);
    }
    if d.len() == 1 {
        assert(t[(a + b + c).len() as int] == d[0]);
    }
    if e.len() == 1 {
        assert(t[(a + b + c + d).len() as int] == e[0]);
    }
}

/// Whether a group of titles is that of all rows with one password.
pub open spec fn is_group(g: Seq<Seq<char>>, rows: Seq<AuditRow>, key: Seq<u8>, mark: Seq<char>) -> bool {
    &&& forall|k: int|
        0 <= k < rows.len() && mark_of(#[trigger] rows[k], key) == mark ==> g.contains(rows[k].1@)
    &&& forall|t: Seq<char>| #[trigger]
        g.contains(t) ==> exists|k: int|
            0 <= k < rows.len() && mark_of(#[trigger] rows[k], key) == mark && rows[k].1@ == t
}

/// Two credentials that share a password are listed together, with every other that has it, and
/// with none that has another.
pub proof fn law_reuse_groups_are_complete(
    rows: &mut Vec<AuditRow>,
    key: &[u8; 32],
    report: AuditReport,
    i: int,
    j: int,
)
    requires
        call_ensures(audit_passwords, (rows, key), report) || call_ensures(
            run_full_audit,
            (rows, key),
            report,
        ),
        0 <= i < j < old(rows)@.len(),
        mark_of(old(rows)@[i], key@) == mark_of(old(rows)@[j], key@),
    ensures
        exists|g: int|
            0 <= g < report.duplicate_groups@.len() && is_group(
                texts((#[trigger] report.duplicate_groups@[g])@),
                old(rows)@,
                key@,
                mark_of(old(rows)@[i], key@),
            ),
{
    let a = old(rows)@;
    let f = fingerprints(a, key@);
    let t = titles(a);
    let n = f.len() as int;
    let m = f[i];
    assert(f[i] == mark_of(a[i], key@) && f[j] == mark_of(a[j], key@));
    lemma_occurs_twice(f, m, i, j, n);
    lemma_group_there(t, f, i, n);
    let groups = shared_groups(t, f, n);
    let g = choose|g: int|
        0 <= g < groups.len() && #[trigger] groups[g] == titles_with(t, f, m, n);
    let texts_g = text_lists(report.duplicate_groups@);
    assert(texts_g == groups);
    assert(texts_g.len() == report.duplicate_groups@.len());
    assert(texts_g[g] == texts(report.duplicate_groups@[g]@));
    let x = titles_with(t, f, m, n);
    assert forall|k: int| 0 <= k < a.len() && mark_of(#[trigger] a[k], key@) == m implies x.contains(
        a[k].1@,
    ) by {
        assert(f[k] == m && t[k] == a[k].1@);
        lemma_titles_with(t, f, m, n, t[k]);
    }
    assert forall|s: Seq<char>| #[trigger] x.contains(s) implies exists|k: int|
        0 <= k < a.len() && mark_of(#[trigger] a[k], key@) == m && a[k].1@ == s by {
        lemma_titles_with(t, f, m, n, s);
        let k = choose|k: int| 0 <= k < n && #[trigger] f[k] == m && t[k] == s;
        assert(mark_of(a[k], key@) == m && a[k].1@ == s);
    }
}

proof fn lemma_titles_with(t: Seq<Seq<char>>, f: Seq<Seq<char>>, m: Seq<char>, n: int, s: Seq<char>)
    requires
        0 <= n <= f.len(),
        t.len() == f.len(),
    ensures
        titles_with(t, f, m, n).contains(s) <==> exists|k: int| 0 <= k < n && #[trigger] f[k] == m && t[k] == s,
    decreases n,
{
    if n > 0 {
        lemma_titles_with(t, f, m, n - 1, s);
        let a = titles_with(t, f, m, n - 1);
        let b = titles_with(t, f, m, n);
        if a.contains(s) {
            let k = choose|k: int| 0 <= k < a.len() && a[k] == s;
            assert(b[k] == s);
            let q = choose|q: int| 0 <= q < n - 1 && #[trigger] f[q] == m && t[q] == s;
            assert(f[q] == m);
        }
        if b.contains(s) {
            let k = choose|k: int| 0 <= k < b.len() && b[k] == s;
            if k < a.len() {
                assert(a[k] == s);
                assert(a.contains(s));
            } else {
                assert(f[n - 1] == m && t[n - 1] == s);
            }
        }
        if exists|k: int| 0 <= k < n && #[trigger] f[k] == m && t[k] == s {
            let k = choose|k: int| 0 <= k < n && #[trigger] f[k] == m && t[k] == s;
            if k < n - 1 {
                assert(a.contains(s));
            } else {
                assert(b[b.len() - 1] == s);
            }
        }
    }
}

proof fn lemma_group_there(t: Seq<Seq<char>>, f: Seq<Seq<char>>, i: int, n: int)
    requires
        0 <= i < n <= f.len(),
        t.len() == f.len(),
        occurrences(f, f[i], f.len() as int) > 1,
    ensures
        exists|g: int|
            0 <= g < shared_groups(t, f, n).len() && #[trigger] shared_groups(t, f, n)[g] == titles_with(
                t,
                f,
                f[i],
                f.len() as int,
            ),
    decreases n,
{
    let a = shared_groups(t, f, n - 1);
    let b = shared_groups(t, f, n);
    if i < n - 1 {
        lemma_group_there(t, f, i, n - 1);
        let g = choose|g: int|
            0 <= g < a.len() && #[trigger] a[g] == titles_with(t, f, f[i], f.len() as int);
        assert(b[g] == a[g]);
    } else if occurrences(f, f[i], i) > 0 {
        let k = lemma_occurs_somewhere(f, f[i], i);
        lemma_group_there(t, f, k, n - 1);
        let g = choose|g: int|
            0 <= g < a.len() && #[trigger] a[g] == titles_with(t, f, f[k], f.len() as int);
        assert(b[g] == a[g]);
    } else {
        assert(b[b.len() - 1] == titles_with(t, f, f[i], f.len() as int));
    }
}

proof fn lemma_occurs_somewhere(s: Seq<Seq<char>>, f: Seq<char>, n: int) -> (k: int)
    requires
        0 <= n <= s.len(),
        occurrences(s, f, n) > 0,
    ensures
        0 <= k < n,
        s[k] == f,
    decreases n,
{
    if s[n - 1] == f {
        n - 1
    } else {
        lemma_occurs_somewhere(s, f, n - 1)
    }
}

/// The three counts are those of the entries with each severity.
pub proof fn law_counts_are_those_of_the_entries(
    rows: &mut Vec<AuditRow>,
    key: &[u8; 32],
    report: AuditReport,
)
    requires
        call_ensures(audit_passwords, (rows, key), report) || call_ensures(
            run_full_audit,
            (rows, key),
            report,
        ),
    ensures
        report.critical_count == with_severity(entries(report.entries@), Severity::Critical).len(),
        report.weak_count == with_severity(entries(report.entries@), Severity::Weak).len(),
        report.good_count == with_severity(entries(report.entries@), Severity::Good).len(),
{
    let e = entries(report.entries@);
    lemma_tally(e, Severity::Critical);
    lemma_tally(e, Severity::Weak);
    lemma_tally(e, Severity::Good);
}

/// The entries with a severity.
pub open spec fn with_severity(s: Seq<EntryView>, sev: Severity) -> Seq<EntryView> {
    s.filter(|e: EntryView| e.severity == sev)
}

proof fn lemma_tally(s: Seq<EntryView>, sev: Severity)
    ensures
        tally(s, sev) == with_severity(s, sev).len(),
    decreases s.len(),
{
    reveal(Seq::filter);
    if s.len() > 0 {
        lemma_tally(s.drop_last(), sev);
    }
}

/// Every record whose password reads as a text is audited, with its own names and that password.
pub proof fn law_every_readable_record_is_audited(
    all: &Vec<SecretRecord>,
    key: &[u8; 32],
    out: Vec<AuditRow>,
    i: int,
    password: Seq<char>,
)
    requires
        call_ensures(audit_rows, (all, key), out),
        0 <= i < all@.len(),
        reads(all@[i].encrypted_password@, key@, password),
    ensures
        out@.len() <= all@.len(),
        exists|k: int|
            0 <= k < out@.len() && (#[trigger] out@[k]).0 == all@[i].id && out@[k].1@ == all@[i].title@
                && out@[k].2@ == all@[i].category@ && out@[k].3@ == all@[i].username@ && out@[k].4@
                == password,
{
    let s = records(all@);
    assert(s[i] == all@[i]@);
    crate::crypto::lemma_text_round_trip(password);
    encode_utf8_valid_utf8(password);
    lemma_row_there(s, key@, i);
    let r = crate::audit::rows_view(out@);
    let x = (s[i].id, s[i].title, s[i].category, s[i].username, password);
    assert(readable_password(s[i], key@) == Some(password)) by {
        encode_utf8_decode_utf8(password);
    }
    assert(r.contains(x));
    let k = choose|k: int| 0 <= k < r.len() && r[k] == x;
    assert(r.len() == out@.len());
    assert(r[k] == (out@[k].0 as int, out@[k].1@, out@[k].2@, out@[k].3@, out@[k].4@));
}

proof fn lemma_row_there(s: Seq<RecordView>, key: Seq<u8>, i: int)
    requires
        0 <= i < s.len(),
    ensures
        crate::audit::row_views(s, key).len() <= s.len(),
        readable_password(s[i], key) matches Some(p) ==> crate::audit::row_views(s, key).contains(
            (s[i].id, s[i].title, s[i].category, s[i].username, p),
        ),
    decreases s.len(),
{
    let d = s.drop_last();
    let a = crate::audit::row_views(d, key);
    let b = crate::audit::row_views(s, key);
    if d.len() > 0 {
        lemma_row_there(d, key, if i < d.len() {
            i
        } else {
            0
        });
    }
    if readable_password(s[i], key) is Some {
        let x = (s[i].id, s[i].title, s[i].category, s[i].username, readable_password(s[i], key)->0);
        if i < d.len() {
            assert(d[i] == s[i]);
            let k = choose|k: int| 0 <= k < a.len() && a[k] == x;
            assert(b[k] == x);
        } else {
            assert(b[b.len() - 1] == x);
        }
    }
}

/// A password is read where it opens and is text, and only there.
pub proof fn law_readable_passwords_are_read(
    s: &SecretRecord,
    key: &[u8; 32],
    r: Option<String>,
    password: Seq<char>,
)
    requires
        call_ensures(read_password, (s, key), r),
    ensures
        reads(s.encrypted_password@, key@, password) ==> (r matches Some(t) && t@ == password),
        r matches Some(t) ==> reads(s.encrypted_password@, key@, t@),
{
    if reads(s.encrypted_password@, key@, password) {
        encode_utf8_valid_utf8(password);
        encode_utf8_decode_utf8(password);
    }
    if r is Some {
        decode_utf8_encode_utf8(opened(s.encrypted_password@, key@)->Ok_0);
    }
}

} // verus!
