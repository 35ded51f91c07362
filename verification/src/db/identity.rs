//! Record identities.
use rand::RngCore;
use vstd::prelude::*;
use vstd::string::*;

use crate::crypto::{hex, hex_text};

verus! {

/// `RngCore::fill_bytes` of `rand::rng()`: `n` bytes from the thread's generator. Any bytes may
/// come.
#[verifier::external_body]
fn thread_random_bytes(n: usize) -> (r: Vec<u8>)
    ensures
        r@.len() == n,
{
    let mut r = vec![0u8; n];
    rand::rng().fill_bytes(&mut r);
    r
}

/// The bytes with the version and variant bits of a random UUID set.
pub open spec fn stamped(b: Seq<u8>) -> Seq<u8> {
    b.update(6, (b[6] % 16 + 64) as u8).update(8, (b[8] % 64 + 128) as u8)
}

/// The text of a UUID: five groups of hexadecimal digits.
pub open spec fn uuid_text(b: Seq<u8>) -> Seq<char> {
    hex(b.subrange(0, 4)) + seq!['-'] + hex(b.subrange(4, 6)) + seq!['-'] + hex(b.subrange(6, 8))
        + seq!['-'] + hex(b.subrange(8, 10)) + seq!['-'] + hex(b.subrange(10, 16))
}

/// Whether a text is that of a random (version 4) UUID.
pub open spec fn is_uuid_v4(s: Seq<char>) -> bool {
    exists|b: Seq<u8>| b.len() == 16 && s == #[trigger] uuid_text(stamped(b))
}

/// Formats sixteen bytes as a version 4 UUID.
pub fn uuid_from_bytes(bytes: &[u8]) -> (s: String)
    requires
        bytes@.len() == 16,
    ensures
        s@ == uuid_text(stamped(bytes@)),
{
    let mut b: Vec<u8> = Vec::new();
    b.extend_from_slice(bytes);
    assert(b@ =~= bytes@);
    let six: u8 = b[6] % 16 + 64;
    let eight: u8 = b[8] % 64 + 128;
    b.set(6, six);
    b.set(8, eight);
    assert(b@ =~= stamped(bytes@));
    let all = b.as_slice();
    let (g1, rest) = all.split_at(4);
    let (g2, rest) = rest.split_at(2);
    let (g3, rest) = rest.split_at(2);
    let (g4, g5) = rest.split_at(2);
    assert(g1@ =~= b@.subrange(0, 4));
    assert(g2@ =~= b@.subrange(4, 6));
    assert(g3@ =~= b@.subrange(6, 8));
    assert(g4@ =~= b@.subrange(8, 10));
    assert(g5@ =~= b@.subrange(10, 16));
    let mut s = hex_text(g1);
    s.push('-');
    s.append(hex_text(g2).as_str());
    s.push('-');
    s.append(hex_text(g3).as_str());
    s.push('-');
    s.append(hex_text(g4).as_str());
    s.push('-');
    s.append(hex_text(g5).as_str());
    assert(s@ =~= uuid_text(b@));
    s
}

/// A random version 4 UUID, the stable identity of a record; any of them may come.
pub fn new_uuid() -> (s: String)
    ensures
        is_uuid_v4(s@),
{
    let bytes = thread_random_bytes(16);
    let s = uuid_from_bytes(bytes.as_slice());
    assert(s@ == uuid_text(stamped(bytes@)));
    s
}

/// `n` random identities.
pub fn new_uuids(n: usize) -> (v: Vec<String>)
    ensures
        v@.len() == n,
        forall|i: int| 0 <= i < n ==> is_uuid_v4(#[trigger] v@[i]@),
{
    let mut v: Vec<String> = Vec::new();
    while v.len() < n
        invariant
            v@.len() <= n,
            forall|i: int| 0 <= i < v@.len() ==> is_uuid_v4(#[trigger] v@[i]@),
        decreases n - v@.len(),
    {
        v.push(new_uuid());
    }
    v
}

} // verus!
