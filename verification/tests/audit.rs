//! Password strength, breaches and the audit.
use keystash::audit::{audit_passwords, audit_rows, note_breaches, run_full_audit, AuditRow, Severity};
use keystash::breach::{check_hibp, hibp_url};
use keystash::crypto::hibp_cache_fingerprint;
use keystash::db::add_secret;
use keystash::db::unlock::{new_vault, seal_token};
use keystash::sha1::sha1;
use keystash::strength::{check_strength, is_sequential};

const KEY: [u8; 32] = [4u8; 32];

fn hex(bytes: &[u8]) -> String {
    bytes.iter().map(|b| format!("{:02x}", b)).collect()
}

#[test]
fn digests_are_known() {
    assert_eq!(hex(&sha1(b"")), "da39a3ee5e6b4b0d3255bfef95601890afd80709");
    assert_eq!(hex(&sha1(b"abc")), "a9993e364706816aba3e25717850c26c9cd0d89d");
    assert_eq!(
        hex(&sha1(b"abcdbcdecdefdefgefghfghighijhijkijkljklmklmnlmnomnopnopq")),
        "84983e441c3bd26ebaae4aa1f95129e5e54670f1"
    );
    assert_eq!(hex(&sha1(&[b'a'; 1000])), "291e9a6c66994949b57ba5e650361e98fc36b1ba");
}

#[test]
fn lookups_send_five_digits_and_match_the_rest() {
    // SHA-1 of "password": 5BAA61E4C9B93F3F0682250B6CF8331B7EE68FD8.
    assert_eq!(hibp_url("password"), "https://api.pwnedpasswords.com/range/5BAA6");
    let body = "0018A45C4D1DEF81644B54AB7F969B88D65:1\r\n\
                1E4C9B93F3F0682250B6CF8331B7EE68FD8:9545824\r\n\
                011053FD0102E94D6AE2F8B83D76FAF94F6:2";
    assert_eq!(check_hibp("password", body), 9545824);
    assert_eq!(check_hibp("password", "0018A45C4D1DEF81644B54AB7F969B88D65:1"), 0);
    assert_eq!(check_hibp("password", "1e4c9b93f3f0682250b6cf8331b7ee68fd8:3"), 3);
    assert_eq!(check_hibp("password", "1E4C9B93F3F0682250B6CF8331B7EE68FD8:many"), 1);
}

#[test]
fn sequences_are_found() {
    assert!(is_sequential("abcdef"));
    assert!(is_sequential("6543"));
    assert!(!is_sequential("abd"));
    assert!(!is_sequential("qwrtz"));
}

#[test]
fn weak_passwords_are_named() {
    let (severity, issues, score) = check_strength("password");
    assert_eq!(severity, Severity::Critical);
    assert!(!issues.is_empty());
    assert!(score < 50);
    let (severity, issues, _) = check_strength("vT9#kQ2$mZ7!pL4&wX");
    assert_eq!(severity, Severity::Good);
    assert!(issues.is_empty());
}

/// The grade and score that the entropy formula gives in floating point.
fn graded(n: usize, pool: f64, sequential: bool) -> (Severity, u8) {
    let mut bits = (n as f64) * pool.max(1.0).log2();
    if sequential {
        bits = (bits - 20.0).max(0.0);
    }
    let severity = if bits >= 75.0 {
        Severity::Good
    } else if bits >= 50.0 {
        Severity::Weak
    } else {
        Severity::Critical
    };
    (severity, (bits / 20.0).min(5.0) as u8)
}

#[test]
fn entropy_grades_follow_the_logarithm() {
    let charsets = [("lkjmnbvq", 26.0), ("LKJMNBVQ", 26.0), ("73951846", 10.0), ("#$&!?%*+", 33.0)];
    for mask in 1..16usize {
        let chosen: Vec<(&str, f64)> =
            (0..4).filter(|i| mask >> i & 1 == 1).map(|i| charsets[i]).collect();
        let pool: f64 = chosen.iter().map(|c| c.1).sum();
        for n in chosen.len().max(2)..40 {
            let pw: String = (0..n)
                .map(|i| {
                    let set = chosen[i % chosen.len()].0.as_bytes();
                    set[(i / chosen.len()) % 8] as char
                })
                .collect();
            if chosen.len() == 1 && n < 2 {
                continue;
            }
            let (severity, issues, score) = check_strength(&pw);
            assert_eq!((severity, score), graded(n, pool, false), "{pw}");
            assert_eq!(issues.is_empty(), severity == Severity::Good || (mask & 14 == 14 && n >= 8));
        }
    }
    let (severity, issues, score) = check_strength("bcdefghijklmnopqrstuvwxyz");
    assert_eq!((severity, score), graded(25, 26.0, true));
    assert!(issues.is_empty());
    let (severity, issues, score) = check_strength("98765432");
    assert_eq!((severity, score), graded(8, 10.0, true));
    assert_eq!(
        issues,
        vec![
            "No uppercase letters",
            "No special characters",
            "Password is a sequential pattern (e.g. 12345678, abcdefgh)"
        ]
    );
}

#[test]
fn hopeless_passwords_score_nothing() {
    let critical = |pw: &str, issue: &str| {
        assert_eq!(check_strength(pw), (Severity::Critical, vec![issue.to_string()], 0));
    };
    critical("", "Password is empty");
    critical("PassWord", "Password is a known common/weak password");
    critical("zzzzzzzzzzzzzzzzzzzzzz", "Password consists of a single repeated character");
    assert_eq!(check_strength("kT").1[0], "Too short (2 chars, minimum 8 recommended)");
}

fn row(id: i64, title: &str, password: &str) -> AuditRow {
    (id, title.to_string(), "Cat".to_string(), "user".to_string(), password.to_string())
}

#[test]
fn reports_are_sorted_and_count() {
    let mut rows = vec![
        row(1, "Fine", "vT9#kQ2$mZ7!pL4&wX"),
        row(2, "Bad", "password"),
        row(3, "Twin", "hunter2"),
        row(4, "Twin too", "hunter2"),
    ];
    let report = run_full_audit(&mut rows, &KEY);
    assert_eq!(report.entries.len(), 4);
    assert_eq!(report.critical_count + report.weak_count + report.good_count, 4);
    assert_eq!(report.good_count, 1);
    assert_eq!(report.entries[3].title, "Fine");
    for w in report.entries.windows(2) {
        assert!(w[0].score <= w[1].score || w[0].severity != w[1].severity);
    }
    assert_eq!(report.duplicate_groups.len(), 1);
    assert_eq!(report.duplicate_groups[0].len(), 2);
    let twin = report.entries.iter().find(|e| e.id == 3).unwrap();
    assert!(twin.issues.iter().any(|i| i.contains("eused") || i.contains("uplicate")));
    assert_eq!(twin.hibp_fingerprint, hibp_cache_fingerprint(b"hunter2", &KEY));
    assert_eq!(twin.hibp_count, None);
    assert!(rows.iter().all(|r| r.4.is_empty()), "the passwords are wiped");
}

#[test]
fn breaches_are_noted() {
    let mut rows = vec![row(1, "Fine", "vT9#kQ2$mZ7!pL4&wX")];
    let mut report = audit_passwords(&mut rows, &KEY);
    note_breaches(&mut report.entries, 1, 7);
    assert_eq!(report.entries[0].hibp_count, Some(7));
    assert_eq!(report.entries[0].severity, Severity::Good);
    note_breaches(&mut report.entries, 99, 7);
    assert_eq!(report.entries.len(), 1);
}

#[test]
fn unreadable_records_are_left_out() {
    let mut v = new_vault(seal_token(&KEY).unwrap());
    add_secret(&mut v, "A", "C", "U", "", "pw", None, &KEY, "t").unwrap();
    add_secret(&mut v, "B", "C", "U", "", "pw", None, &[5u8; 32], "t").unwrap();
    let rows = audit_rows(&v.secrets, &KEY);
    assert_eq!(rows.len(), 1);
    assert_eq!(rows[0].4, "pw");
}

#[test]
fn severities_have_labels() {
    assert_eq!(Severity::Critical.label(), "Critical");
    assert_eq!(Severity::Weak.label(), "Weak");
    assert_eq!(Severity::Good.label(), "Good");
}
