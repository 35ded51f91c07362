//! How hard a password is to guess.
use vstd::arithmetic::power::pow;
use vstd::arithmetic::power2::pow2;
use vstd::prelude::*;
use vstd::string::*;
use vstd::utf8::encode_utf8;

use crate::text::{
    ascii_upper, chars_of, code, decimal, decimal_text, lower, lower_text, same_text, texts,
};

verus! {

/// A character's Unicode `Uppercase` property.
pub uninterp spec fn unicode_upper(c: char) -> bool;

/// A character's Unicode `Lowercase` property.
pub uninterp spec fn unicode_lower(c: char) -> bool;

/// Whether a character is a letter or a number in Unicode's sense.
pub uninterp spec fn unicode_alphanumeric(c: char) -> bool;

/// Whether a character is one of `a` to `z`.
pub open spec fn ascii_lower(c: char) -> bool {
    'a' as int <= c as int <= 'z' as int
}

/// Whether a character is one of `0` to `9`.
pub open spec fn ascii_digit(c: char) -> bool {
    '0' as int <= c as int <= '9' as int
}

/// Whether a character is ASCII.
pub open spec fn ascii(c: char) -> bool {
    c as int <= 127
}

/// `char::is_uppercase`. Of the ASCII characters, `A` to `Z`.
#[verifier::external_body]
fn is_upper(c: char) -> (r: bool)
    ensures
        r == unicode_upper(c),
        ascii(c) ==> r == ascii_upper(c),
{
    c.is_uppercase()
}

/// `char::is_lowercase`. Of the ASCII characters, `a` to `z`.
#[verifier::external_body]
fn is_lower(c: char) -> (r: bool)
    ensures
        r == unicode_lower(c),
        ascii(c) ==> r == ascii_lower(c),
{
    c.is_lowercase()
}

/// `char::is_alphanumeric`. Of the ASCII characters, letters and digits.
#[verifier::external_body]
fn is_alphanumeric(c: char) -> (r: bool)
    ensures
        r == unicode_alphanumeric(c),
        ascii(c) ==> r == (ascii_upper(c) || ascii_lower(c) || ascii_digit(c)),
{
    c.is_alphanumeric()
}

/// Whether a character is upper-case.
pub open spec fn upper_case(c: char) -> bool {
    if ascii(c) {
        ascii_upper(c)
    } else {
        unicode_upper(c)
    }
}

/// Whether a character is lower-case.
pub open spec fn lower_case(c: char) -> bool {
    if ascii(c) {
        ascii_lower(c)
    } else {
        unicode_lower(c)
    }
}

/// Whether a character is a letter or a number.
pub open spec fn alphanumeric(c: char) -> bool {
    if ascii(c) {
        ascii_upper(c) || ascii_lower(c) || ascii_digit(c)
    } else {
        unicode_alphanumeric(c)
    }
}

/// How bad a password is, from best to worst.
#[derive(Debug, Clone, Copy, PartialEq, Eq, Structural)]
pub enum Severity {
    Good,
    Weak,
    Critical,
}

/// The name of a severity.
pub open spec fn severity_name(s: Severity) -> Seq<char> {
    match s {
        Severity::Good => "Good"@,
        Severity::Weak => "Weak"@,
        Severity::Critical => "Critical"@,
    }
}

impl Severity {
    /// The name of the severity.
    pub fn label(&self) -> (r: &'static str)
        ensures
            r@ == severity_name(*self),
    {
        match self {
            Severity::Good => "Good",
            Severity::Weak => "Weak",
            Severity::Critical => "Critical",
        }
    }
}

/// Passwords that everybody tries first, in lower case.
pub open spec fn is_common_weak(s: Seq<char>) -> bool {
    ||| s == "password"@
    ||| s == "password1"@
    ||| s == "password123"@
    ||| s == "123456"@
    ||| s == "12345678"@
    ||| s == "123456789"@
    ||| s == "1234567890"@
    ||| s == "qwerty"@
    ||| s == "qwerty123"@
    ||| s == "abc123"@
    ||| s == "letmein"@
    ||| s == "admin"@
    ||| s == "admin123"@
    ||| s == "welcome"@
    ||| s == "welcome1"@
    ||| s == "monkey"@
    ||| s == "dragon"@
    ||| s == "master"@
    ||| s == "shadow"@
    ||| s == "sunshine"@
    ||| s == "princess"@
    ||| s == "iloveyou"@
    ||| s == "trustno1"@
    ||| s == "hello"@
    ||| s == "hello123"@
    ||| s == "test"@
    ||| s == "test123"@
    ||| s == "changeme"@
    ||| s == "secret"@
    ||| s == "pass"@
    ||| s == "pass123"@
    ||| s == "root"@
    ||| s == "toor"@
    ||| s == "login"@
}

fn is_common(s: &str) -> (r: bool)
    ensures
        r == is_common_weak(s@),
{
    same_text(s, "password") || same_text(s, "password1") || same_text(s, "password123")
        || same_text(s, "123456") || same_text(s, "12345678") || same_text(s, "123456789")
        || same_text(s, "1234567890") || same_text(s, "qwerty") || same_text(s, "qwerty123")
        || same_text(s, "abc123") || same_text(s, "letmein") || same_text(s, "admin") || same_text(
        s,
        "admin123",
    ) || same_text(s, "welcome") || same_text(s, "welcome1") || same_text(s, "monkey") || same_text(
        s,
        "dragon",
    ) || same_text(s, "master") || same_text(s, "shadow") || same_text(s, "sunshine") || same_text(
        s,
        "princess",
    ) || same_text(s, "iloveyou") || same_text(s, "trustno1") || same_text(s, "hello") || same_text(
        s,
        "hello123",
    ) || same_text(s, "test") || same_text(s, "test123") || same_text(s, "changeme") || same_text(
        s,
        "secret",
    ) || same_text(s, "pass") || same_text(s, "pass123") || same_text(s, "root") || same_text(
        s,
        "toor",
    ) || same_text(s, "login")
}

/// Whether some character is upper-case.
pub open spec fn has_upper(s: Seq<char>) -> bool {
    exists|i: int| 0 <= i < s.len() && upper_case(#[trigger] s[i])
}

/// Whether some character is lower-case.
pub open spec fn has_lower(s: Seq<char>) -> bool {
    exists|i: int| 0 <= i < s.len() && lower_case(#[trigger] s[i])
}

/// Whether some character is an ASCII digit.
pub open spec fn has_digit(s: Seq<char>) -> bool {
    exists|i: int| 0 <= i < s.len() && ascii_digit(#[trigger] s[i])
}

/// Whether some character is neither a letter nor a number.
pub open spec fn has_symbol(s: Seq<char>) -> bool {
    exists|i: int| 0 <= i < s.len() && !alphanumeric(#[trigger] s[i])
}

/// Whether all characters are the same.
pub open spec fn all_same(s: Seq<char>) -> bool {
    forall|i: int| 0 <= i < s.len() ==> #[trigger] s[i] == s[0]
}

/// Whether each byte is the one after the byte before it.
pub open spec fn ascending(b: Seq<u8>) -> bool {
    forall|i: int| 1 <= i < b.len() ==> #[trigger] b[i] == (b[i - 1] + 1) % 256
}

/// Whether each byte is the one before the byte before it.
pub open spec fn descending(b: Seq<u8>) -> bool {
    forall|i: int| 1 <= i < b.len() ==> #[trigger] b[i] == (b[i - 1] + 255) % 256
}

/// Whether the bytes of a text run up or down, four or more of them.
pub open spec fn sequential(s: Seq<char>) -> bool {
    let b = encode_utf8(s);
    b.len() >= 4 && (ascending(b) || descending(b))
}

/// How many characters a password is drawn from, judged by the kinds that occur in it.
pub open spec fn pool(s: Seq<char>) -> nat {
    let n = (if has_lower(s) {
        26nat
    } else {
        0
    }) + (if has_upper(s) {
        26nat
    } else {
        0
    }) + (if has_digit(s) {
        10nat
    } else {
        0
    }) + (if has_symbol(s) {
        33nat
    } else {
        0
    });
    if n == 0 {
        1
    } else {
        n
    }
}

/// Whether a password has at least `bits` bits of entropy: there are at least two to that power
/// passwords of its length over its pool. A run of consecutive characters counts 20 bits less.
pub open spec fn has_bits(s: Seq<char>, bits: nat) -> bool {
    pow(pool(s) as int, s.len()) >= pow2(
        bits + (if sequential(s) {
            20nat
        } else {
            0nat
        }),
    )
}

/// Whether a password is bad whatever its entropy.
pub open spec fn hopeless(s: Seq<char>) -> bool {
    s.len() == 0 || is_common_weak(lower(s)) || all_same(s)
}

/// How bad a password is: from 75 bits on it is good, from 50 bits on weak.
pub open spec fn severity_of(s: Seq<char>) -> Severity {
    if hopeless(s) {
        Severity::Critical
    } else if has_bits(s, 75) {
        Severity::Good
    } else if has_bits(s, 50) {
        Severity::Weak
    } else {
        Severity::Critical
    }
}

/// One point for each 20 bits of entropy, at most five.
pub open spec fn score_of(s: Seq<char>) -> u8 {
    if hopeless(s) {
        0
    } else if has_bits(s, 100) {
        5
    } else if has_bits(s, 80) {
        4
    } else if has_bits(s, 60) {
        3
    } else if has_bits(s, 40) {
        2
    } else if has_bits(s, 20) {
        1
    } else {
        0
    }
}

/// A list of one text, or none.
pub open spec fn only_if(b: bool, t: Seq<char>) -> Seq<Seq<char>> {
    if b {
        seq![t]
    } else {
        Seq::empty()
    }
}

/// What is wrong with a password; nothing with a good one.
pub open spec fn issues_of(s: Seq<char>) -> Seq<Seq<char>> {
    if s.len() == 0 {
        seq!["Password is empty"@]
    } else if is_common_weak(lower(s)) {
        seq!["Password is a known common/weak password"@]
    } else if all_same(s) {
        seq!["Password consists of a single repeated character"@]
    } else if severity_of(s) == Severity::Good {
        Seq::empty()
    } else {
        only_if(
            s.len() < 8,
            "Too short ("@ + decimal(s.len()) + " chars, minimum 8 recommended)"@,
        ) + only_if(!has_upper(s), "No uppercase letters"@) + only_if(
            !has_digit(s),
            "No numbers"@,
        ) + only_if(!has_symbol(s), "No special characters"@) + only_if(
            sequential(s),
            "Password is a sequential pattern (e.g. 12345678, abcdefgh)"@,
        )
    }
}

struct Kinds {
    upper: bool,
    lower: bool,
    digit: bool,
    symbol: bool,
    same: bool,
}

fn kinds_of(v: &[char]) -> (k: Kinds)
    ensures
        k.upper == has_upper(v@),
        k.lower == has_lower(v@),
        k.digit == has_digit(v@),
        k.symbol == has_symbol(v@),
        k.same == all_same(v@),
{
    let mut k = Kinds { upper: false, lower: false, digit: false, symbol: false, same: true };
    let mut i: usize = 0;
    while i < v.len()
        invariant
            i <= v@.len(),
            k.upper == exists|j: int| 0 <= j < i && upper_case(#[trigger] v@[j]),
            k.lower == exists|j: int| 0 <= j < i && lower_case(#[trigger] v@[j]),
            k.digit == exists|j: int| 0 <= j < i && ascii_digit(#[trigger] v@[j]),
            k.symbol == exists|j: int| 0 <= j < i && !alphanumeric(#[trigger] v@[j]),
            k.same == forall|j: int| 0 <= j < i ==> #[trigger] v@[j] == v@[0],
        decreases v@.len() - i,
    {
        let c = v[i];
        let n: u32 = code(c);
        let ghost before = k;
        if is_upper(c) {
            k.upper = true;
        }
        if is_lower(c) {
            k.lower = true;
        }
        if 48 <= n && n <= 57 {
            assert(ascii_digit(v@[i as int]));
            k.digit = true;
        }
        if !is_alphanumeric(c) {
            k.symbol = true;
        }
        if c != v[0] {
            k.same = false;
        }
        i += 1;
    }
    k
}

/// Whether the bytes of a text run up or down, four or more of them.
pub fn is_sequential(s: &str) -> (r: bool)
    ensures
        r == sequential(s@),
{
    let b = s.as_bytes();
    if b.len() < 4 {
        return false;
    }
    let mut up: bool = true;
    let mut down: bool = true;
    let mut i: usize = 1;
    while i < b.len()
        invariant
            1 <= i <= b@.len(),
            up == forall|k: int| 1 <= k < i ==> #[trigger] b@[k] == (b@[k - 1] + 1) % 256,
            down == forall|k: int| 1 <= k < i ==> #[trigger] b@[k] == (b@[k - 1] + 255) % 256,
        decreases b@.len() - i,
    {
        let x: u16 = b[i - 1] as u16;
        let y: u16 = b[i] as u16;
        if y != (x + 1) % 256 {
            up = false;
        }
        if y != (x + 255) % 256 {
            down = false;
        }
        i += 1;
    }
    up || down
}

proof fn lemma_limit()
    ensures
        pow2(120) == 0x100_0000_0000_0000_0000_0000_0000_0000,
{
    vstd::arithmetic::power2::lemma2_to64_rest();
    vstd::arithmetic::power2::lemma_pow2_adds(60, 60);
    assert(pow2(60) == 0x1000_0000_0000_0000);
    assert(0x1000_0000_0000_0000nat * 0x1000_0000_0000_0000nat
        == 0x100_0000_0000_0000_0000_0000_0000_0000nat) by (nonlinear_arith);
}

/// Two to the given power.
fn power_of_two(bits: u32) -> (r: u128)
    requires
        bits <= 120,
    ensures
        r == pow2(bits as nat),
{
    let mut r: u128 = 1;
    let mut i: u32 = 0;
    proof {
        vstd::arithmetic::power2::lemma2_to64();
        lemma_limit();
    }
    while i < bits
        invariant
            i <= bits <= 120,
            r == pow2(i as nat),
            pow2(120) == 0x100_0000_0000_0000_0000_0000_0000_0000,
        decreases bits - i,
    {
        proof {
            vstd::arithmetic::power2::lemma_pow2_strictly_increases(i as nat, 120);
            vstd::arithmetic::power2::lemma_pow2_unfold((i + 1) as nat);
        }
        r = 2 * r;
        i += 1;
    }
    r
}

/// The number of passwords of length `n` over `pool` characters, as far as that is below two to
/// the power of 120; else something at least that large.
fn count_passwords(pool: u128, n: usize) -> (r: u128)
    requires
        1 <= pool <= 95,
    ensures
        r == pow(pool as int, n as nat) || (r >= pow2(120) && pow(pool as int, n as nat) >= pow2(
            120,
        )),
{
    let mut r: u128 = 1;
    let mut i: usize = 0;
    proof {
        lemma_limit();
        reveal(pow);
    }
    while i < n
        invariant
            i <= n,
            1 <= pool <= 95,
            r == pow(pool as int, i as nat),
            1 <= r,
            pow2(120) == 0x100_0000_0000_0000_0000_0000_0000_0000,
        decreases n - i,
    {
        if r >= 0x100_0000_0000_0000_0000_0000_0000_0000 {
            proof {
                vstd::arithmetic::power::lemma_pow_increases(pool as nat, i as nat, n as nat);
            }
            return r;
        }
        proof {
            reveal(pow);
            assert(r * pool <= 0x100_0000_0000_0000_0000_0000_0000_0000 * 95) by (nonlinear_arith)
                requires
                    0 <= r <= 0x100_0000_0000_0000_0000_0000_0000_0000,
                    0 <= pool <= 95,
            ;
            assert(pow(pool as int, (i + 1) as nat) == pool * pow(pool as int, i as nat));
            assert(pool * r == r * pool) by (nonlinear_arith);
            assert(r * pool >= 1) by (nonlinear_arith)
                requires
                    r >= 1,
                    pool >= 1,
            ;
        }
        r = r * pool;
        i += 1;
    }
    r
}

fn reaches(count: u128, bits: u32) -> (b: bool)
    requires
        bits <= 120,
    ensures
        b == (count >= pow2(bits as nat)),
{
    count >= power_of_two(bits)
}

fn push_text(v: &mut Vec<String>, s: String)
    ensures
        texts(final(v)@) == texts(old(v)@).push(s@),
{
    let ghost before = texts(v@);
    v.push(s);
    assert(texts(v@) =~= before.push(s@));
}

proof fn lemma_only_if(s: Seq<Seq<char>>, b: bool, t: Seq<char>)
    ensures
        s + only_if(b, t) == (if b {
            s.push(t)
        } else {
            s
        }),
{
    assert(s + only_if(b, t) =~= (if b {
        s.push(t)
    } else {
        s
    }));
}

/// Rates a password: how bad it is, what is wrong with it, and a score of at most five.
pub fn check_strength(password: &str) -> (r: (Severity, Vec<String>, u8))
    ensures
        r.0 == severity_of(password@),
        texts(r.1@) == issues_of(password@),
        r.2 == score_of(password@),
{
    let v = chars_of(password);
    let n: usize = v.len();
    let k = kinds_of(v.as_slice());
    let mut issues: Vec<String> = Vec::new();
    assert(texts(issues@) =~= Seq::empty());
    if n == 0 {
        push_text(&mut issues, "Password is empty".to_owned());
        assert(texts(issues@) =~= seq!["Password is empty"@]);
        return (Severity::Critical, issues, 0);
    }
    let mut small = lower_text(password);
    let common = is_common(small.as_str());
    crate::crypto::wipe_text(&mut small);
    if common {
        push_text(&mut issues, "Password is a known common/weak password".to_owned());
        assert(texts(issues@) =~= seq!["Password is a known common/weak password"@]);
        return (Severity::Critical, issues, 0);
    }
    if k.same {
        push_text(&mut issues, "Password consists of a single repeated character".to_owned());
        assert(texts(issues@) =~= seq!["Password consists of a single repeated character"@]);
        return (Severity::Critical, issues, 0);
    }
    let mut size: u128 = 0;
    if k.lower {
        size += 26;
    }
    if k.upper {
        size += 26;
    }
    if k.digit {
        size += 10;
    }
    if k.symbol {
        size += 33;
    }
    if size == 0 {
        size = 1;
    }
    assert(size == pool(password@));
    let run = is_sequential(password);
    let less: u32 = if run {
        20
    } else {
        0
    };
    let count: u128 = count_passwords(size, n);
    proof {
        let top = pow(size as int, n as nat);
        assert forall|bits: nat| bits <= 100 implies (count >= #[trigger] pow2(bits + less as nat))
            == has_bits(password@, bits) by {
            if bits + less < 120 {
                vstd::arithmetic::power2::lemma_pow2_strictly_increases(bits + less as nat, 120);
            }
        }
        assert(pow2(75 + less as nat) == pow2((75 + less) as nat));
        assert(pow2(50 + less as nat) == pow2((50 + less) as nat));
    }
    let severity = if reaches(count, 75 + less) {
        Severity::Good
    } else if reaches(count, 50 + less) {
        Severity::Weak
    } else {
        Severity::Critical
    };
    assert(severity == severity_of(password@)) by {
        assert((count >= pow2(75 + less as nat)) == has_bits(password@, 75));
        assert((count >= pow2(50 + less as nat)) == has_bits(password@, 50));
    }
    if severity != Severity::Good {
        let ghost e = texts(issues@);
        let ghost short = "Too short ("@ + decimal(n as nat) + " chars, minimum 8 recommended)"@;
        proof {
            lemma_only_if(e, n < 8, short);
            let e1 = e + only_if(n < 8, short);
            lemma_only_if(e1, !k.upper, "No uppercase letters"@);
            let e2 = e1 + only_if(!k.upper, "No uppercase letters"@);
            lemma_only_if(e2, !k.digit, "No numbers"@);
            let e3 = e2 + only_if(!k.digit, "No numbers"@);
            lemma_only_if(e3, !k.symbol, "No special characters"@);
            let e4 = e3 + only_if(!k.symbol, "No special characters"@);
            lemma_only_if(
                e4,
                run,
                "Password is a sequential pattern (e.g. 12345678, abcdefgh)"@,
            );
            assert(e + only_if(n < 8, short) =~= only_if(n < 8, short));
        }
        if n < 8 {
            let mut t = "Too short (".to_owned();
            t.append(decimal_text(n as u64).as_str());
            t.append(" chars, minimum 8 recommended)");
            push_text(&mut issues, t);
        }
        if !k.upper {
            push_text(&mut issues, "No uppercase letters".to_owned());
        }
        if !k.digit {
            push_text(&mut issues, "No numbers".to_owned());
        }
        if !k.symbol {
            push_text(&mut issues, "No special characters".to_owned());
        }
        if run {
            push_text(
                &mut issues,
                "Password is a sequential pattern (e.g. 12345678, abcdefgh)".to_owned(),
            );
        }
    }
    let score: u8 = if reaches(count, 100 + less) {
        5
    } else if reaches(count, 80 + less) {
        4
    } else if reaches(count, 60 + less) {
        3
    } else if reaches(count, 40 + less) {
        2
    } else if reaches(count, 20 + less) {
        1
    } else {
        0
    };
    assert(score == score_of(password@)) by {
        assert((count >= pow2(100 + less as nat)) == has_bits(password@, 100));
        assert((count >= pow2(80 + less as nat)) == has_bits(password@, 80));
        assert((count >= pow2(60 + less as nat)) == has_bits(password@, 60));
        assert((count >= pow2(40 + less as nat)) == has_bits(password@, 40));
        assert((count >= pow2(20 + less as nat)) == has_bits(password@, 20));
    }
    (severity, issues, score)
}

/// Nothing is said against a good password, and something against one that is bad whatever its
/// entropy.
pub proof fn law_good_passwords_have_no_issues(s: Seq<char>)
    ensures
        severity_of(s) == Severity::Good ==> issues_of(s).len() == 0,
        hopeless(s) ==> issues_of(s).len() == 1 && severity_of(s) == Severity::Critical,
{
}

/// More points never come with a worse severity: a good password has at least three points, and
/// one with four or more is good.
pub proof fn law_score_agrees_with_severity(s: Seq<char>)
    ensures
        severity_of(s) == Severity::Good ==> score_of(s) >= 3,
        score_of(s) >= 4 ==> severity_of(s) == Severity::Good,
        score_of(s) <= 5,
{
    let less: nat = if sequential(s) {
        20
    } else {
        0
    };
    vstd::arithmetic::power2::lemma_pow2_strictly_increases(60 + less, 75 + less);
    vstd::arithmetic::power2::lemma_pow2_strictly_increases(75 + less, 80 + less);
    vstd::arithmetic::power2::lemma_pow2_strictly_increases(80 + less, 100 + less);
}

} // verus!
