//! Looking a password up among those known from breaches, without giving it away.
use vstd::prelude::*;
use vstd::string::*;
use vstd::utf8::encode_utf8;

use crate::sha1::{sha1, sha1_of};
use crate::text::{
    ascii_lowered, chars_of, code, find_char, first_at, lines, parse_unsigned, part, rows, split_lines, string_of,
    trim_chars, trimmed, unsigned_value,
};

verus! {

/// The upper-case hexadecimal digit of a number below 16.
pub open spec fn upper_hex_char(n: int) -> char {
    if n < 10 {
        (('0' as u32) + n) as char
    } else {
        (('A' as u32) + (n - 10)) as char
    }
}

/// Two upper-case hexadecimal digits per byte.
pub open spec fn upper_hex(bytes: Seq<u8>) -> Seq<char> {
    Seq::new(
        2 * bytes.len(),
        |i: int|
            if i % 2 == 0 {
                upper_hex_char(bytes[i / 2] as int / 16)
            } else {
                upper_hex_char(bytes[i / 2] as int % 16)
            },
    )
}

/// The hash that a password is looked up by.
pub open spec fn lookup_hash(password: Seq<char>) -> Seq<char> {
    upper_hex(sha1_of(encode_utf8(password)))
}

/// The address that is asked: it holds the first five digits of the hash, and nothing else of
/// the password.
pub open spec fn lookup_url(password: Seq<char>) -> Seq<char> {
    "https://api.pwnedpasswords.com/range/"@ + lookup_hash(password).take(5)
}

/// Whether two texts are the same but for the case of ASCII letters.
pub open spec fn same_but_case(a: Seq<char>, b: Seq<char>) -> bool {
    a.len() == b.len() && forall|i: int|
        0 <= i < a.len() ==> ascii_lowered(#[trigger] a[i]) == ascii_lowered(b[i])
}

/// The count on a line of the answer, if the line is that of the hash: the rest of the hash, a
/// colon, and the count; a count that is no number stands for one.
#[verifier::opaque]
pub open spec fn count_on(line: Seq<char>, suffix: Seq<char>) -> Option<u64> {
    let k = first_at(line, ':');
    if k < line.len() && same_but_case(line.take(k), suffix) {
        Some(
            match unsigned_value(trimmed(line.skip(k + 1)), u64::MAX as nat) {
                Some(n) => n as u64,
                None => 1,
            },
        )
    } else {
        None
    }
}

/// The count on the first line that is that of the hash; none is 0.
pub open spec fn count_among(lines: Seq<Seq<char>>, suffix: Seq<char>) -> u64
    decreases lines.len(),
{
    if lines.len() == 0 {
        0
    } else {
        match count_on(lines[0], suffix) {
            Some(n) => n,
            None => count_among(lines.drop_first(), suffix),
        }
    }
}

/// How often a password occurs in breaches, by the service's answer.
pub open spec fn breach_count(password: Seq<char>, body: Seq<char>) -> u64 {
    count_among(lines(body), lookup_hash(password).skip(5))
}

fn upper_digit(n: u8) -> (c: char)
    requires
        n < 16,
    ensures
        c == upper_hex_char(n as int),
{
    if n < 10 {
        (48u8 + n) as char
    } else {
        (55u8 + n) as char
    }
}

fn upper_hex_chars(bytes: &[u8]) -> (v: Vec<char>)
    ensures
        v@ == upper_hex(bytes@),
{
    let mut v: Vec<char> = Vec::new();
    let mut i: usize = 0;
    while i < bytes.len()
        invariant
            i <= bytes@.len(),
            v@ == upper_hex(bytes@.take(i as int)),
        decreases bytes@.len() - i,
    {
        let b: u8 = bytes[i];
        v.push(upper_digit(b / 16));
        v.push(upper_digit(b % 16));
        i += 1;
        assert(v@ =~= upper_hex(bytes@.take(i as int)));
    }
    assert(bytes@.take(i as int) =~= bytes@);
    v
}

fn hash_chars(password: &str) -> (v: Vec<char>)
    ensures
        v@ == lookup_hash(password@),
        v@.len() == 40,
{
    let h = sha1(password.as_bytes());
    assert(h@.len() == 20);
    upper_hex_chars(h.as_slice())
}

/// The address to ask about a password.
pub fn hibp_url(password: &str) -> (s: String)
    ensures
        s@ == lookup_url(password@),
{
    let v = hash_chars(password);
    let head = part(v.as_slice(), 0, 5);
    let digits = string_of(head.as_slice());
    assert(digits@ =~= lookup_hash(password@).take(5));
    let mut s = "https://api.pwnedpasswords.com/range/".to_owned();
    s.append(digits.as_str());
    s
}

fn lowered(c: char) -> (r: char)
    ensures
        r == ascii_lowered(c),
{
    let n: u32 = code(c);
    if 65 <= n && n <= 90 {
        ((n + 32) as u8) as char
    } else {
        c
    }
}

fn is_same_but_case(a: &[char], b: &[char]) -> (r: bool)
    ensures
        r == same_but_case(a@, b@),
{
    if a.len() != b.len() {
        return false;
    }
    let mut i: usize = 0;
    while i < a.len()
        invariant
            i <= a@.len(),
            a@.len() == b@.len(),
            forall|k: int| 0 <= k < i ==> ascii_lowered(#[trigger] a@[k]) == ascii_lowered(b@[k]),
        decreases a@.len() - i,
    {
        if lowered(a[i]) != lowered(b[i]) {
            return false;
        }
        i += 1;
    }
    true
}

fn line_count(line: &[char], suffix: &[char]) -> (r: Option<u64>)
    ensures
        r == count_on(line@, suffix@),
{
    proof {
        reveal(count_on);
    }
    let k: usize = find_char(line, ':');
    if k == line.len() {
        return None;
    }
    let head = part(line, 0, k);
    assert(head@ =~= line@.take(k as int));
    if !is_same_but_case(head.as_slice(), suffix) {
        return None;
    }
    let tail = part(line, k + 1, line.len());
    assert(tail@ =~= line@.skip(k + 1));
    let t = trim_chars(tail.as_slice());
    match parse_unsigned(t.as_slice(), u64::MAX) {
        Some(n) => Some(n),
        None => Some(1),
    }
}

/// How often a password occurs in breaches, by the service's answer.
pub fn check_hibp(password: &str, body: &str) -> (n: u64)
    ensures
        n == breach_count(password@, body@),
{
    let v = hash_chars(password);
    let suffix = part(v.as_slice(), 5, 40);
    assert(suffix@ =~= lookup_hash(password@).skip(5));
    let b = chars_of(body);
    let all = split_lines(b.as_slice());
    let ghost ls = rows(all@);
    let mut i: usize = 0;
    assert(ls.skip(0) =~= ls);
    while i < all.len()
        invariant
            i <= all@.len(),
            ls == rows(all@),
            ls == lines(body@),
            suffix@ == lookup_hash(password@).skip(5),
            count_among(ls, suffix@) == count_among(ls.skip(i as int), suffix@),
        decreases all@.len() - i,
    {
        assert(ls.skip(i as int)[0] == all@[i as int]@);
        if let Some(n) = line_count(all[i].as_slice(), suffix.as_slice()) {
            return n;
        }
        assert(ls.skip(i as int).drop_first() =~= ls.skip(i + 1));
        i += 1;
    }
    0
}

/// Two passwords whose hashes begin alike are asked about in the same words.
pub proof fn law_lookup_reveals_five_digits(a: Seq<char>, b: Seq<char>)
    requires
        lookup_hash(a).take(5) == lookup_hash(b).take(5),
    ensures
        lookup_url(a) == lookup_url(b),
{
}

} // verus!
