//! SHA-1, which the breach lookup service is keyed on.
use vstd::prelude::*;

verus! {

/// Addition of 32-bit words, without carry.
pub open spec fn add32(a: u32, b: u32) -> u32 {
    ((a as int + b as int) % 0x1_0000_0000) as u32
}

/// Rotation of a word to the left.
pub open spec fn rotl(x: u32, n: u32) -> u32 {
    (x << n) | (x >> ((32 - n) as u32))
}

/// The word that four bytes make, the first one highest.
pub open spec fn word(b: Seq<u8>, i: int) -> u32 {
    (b[i] as int * 0x100_0000 + b[i + 1] as int * 0x1_0000 + b[i + 2] as int * 0x100 + b[i
        + 3] as int) as u32
}

/// Word `t` of the message schedule of a 64-byte block.
pub open spec fn schedule(block: Seq<u8>, t: int) -> u32
    decreases t,
{
    if t < 16 {
        word(block, 4 * t)
    } else {
        rotl(
            schedule(block, t - 3) ^ schedule(block, t - 8) ^ schedule(block, t - 14) ^ schedule(
                block,
                t - 16,
            ),
            1,
        )
    }
}

/// The five words that a hash is computed in.
#[derive(Clone, Copy)]
pub struct Words {
    pub a: u32,
    pub b: u32,
    pub c: u32,
    pub d: u32,
    pub e: u32,
}

/// The words before the first block.
pub open spec fn initial() -> Words {
    Words { a: 0x67452301, b: 0xEFCDAB89, c: 0x98BADCFE, d: 0x10325476, e: 0xC3D2E1F0 }
}

/// The mixing function of round `t`.
pub open spec fn mix(t: int, b: u32, c: u32, d: u32) -> u32 {
    if t < 20 {
        (b & c) | (!b & d)
    } else if t < 40 {
        b ^ c ^ d
    } else if t < 60 {
        (b & c) | (b & d) | (c & d)
    } else {
        b ^ c ^ d
    }
}

/// The constant of round `t`.
pub open spec fn round_constant(t: int) -> u32 {
    if t < 20 {
        0x5A827999
    } else if t < 40 {
        0x6ED9EBA1
    } else if t < 60 {
        0x8F1BBCDC
    } else {
        0xCA62C1D6
    }
}

/// The words after round `t`.
pub open spec fn round(s: Words, block: Seq<u8>, t: int) -> Words {
    Words {
        a: add32(
            add32(
                add32(add32(rotl(s.a, 5), mix(t, s.b, s.c, s.d)), s.e),
                round_constant(t),
            ),
            schedule(block, t),
        ),
        b: s.a,
        c: rotl(s.b, 30),
        d: s.c,
        e: s.d,
    }
}

/// The words after the first `t` rounds.
pub open spec fn rounds(s: Words, block: Seq<u8>, t: int) -> Words
    decreases t,
{
    if t <= 0 {
        s
    } else {
        round(rounds(s, block, t - 1), block, t - 1)
    }
}

/// The words after a block.
pub open spec fn compress(s: Words, block: Seq<u8>) -> Words {
    let r = rounds(s, block, 80);
    Words {
        a: add32(s.a, r.a),
        b: add32(s.b, r.b),
        c: add32(s.c, r.c),
        d: add32(s.d, r.d),
        e: add32(s.e, r.e),
    }
}

/// The words after the first `n` blocks of a message.
pub open spec fn hashed(m: Seq<u8>, n: int) -> Words
    decreases n,
{
    if n <= 0 {
        initial()
    } else {
        compress(hashed(m, n - 1), m.subrange(64 * (n - 1), 64 * n))
    }
}

/// The four bytes of a word, the highest first.
pub open spec fn bytes4(x: u32) -> Seq<u8> {
    seq![
        (x / 0x100_0000) as u8,
        (x / 0x1_0000 % 0x100) as u8,
        (x / 0x100 % 0x100) as u8,
        (x % 0x100) as u8,
    ]
}

/// The number of zero bytes that pad a message of the given length.
pub open spec fn zeros(len: int) -> int {
    (119 - len % 64) % 64
}

/// The length of a message in bits, as eight bytes.
pub open spec fn bit_length(len: int) -> Seq<u8> {
    let bits = (8 * len) % 0x1_0000_0000_0000_0000;
    bytes4((bits / 0x1_0000_0000) as u32) + bytes4((bits % 0x1_0000_0000) as u32)
}

/// A message padded to whole blocks: a one bit, zeros, and its length in bits.
pub open spec fn padded(data: Seq<u8>) -> Seq<u8> {
    data.push(0x80) + Seq::new(zeros(data.len() as int) as nat, |i: int| 0u8) + bit_length(
        data.len() as int,
    )
}

/// The SHA-1 hash of a message.
pub open spec fn sha1_of(data: Seq<u8>) -> Seq<u8> {
    let m = padded(data);
    let h = hashed(m, m.len() as int / 64);
    bytes4(h.a) + bytes4(h.b) + bytes4(h.c) + bytes4(h.d) + bytes4(h.e)
}

fn plus(a: u32, b: u32) -> (r: u32)
    ensures
        r == add32(a, b),
{
    ((a as u64 + b as u64) % 0x1_0000_0000) as u32
}

fn rotate(x: u32, n: u32) -> (r: u32)
    requires
        0 < n < 32,
    ensures
        r == rotl(x, n),
{
    (x << n) | (x >> (32 - n))
}

fn word_at(b: &[u8], i: usize) -> (r: u32)
    requires
        i + 3 < b@.len(),
    ensures
        r == word(b@, i as int),
{
    b[i] as u32 * 0x100_0000 + b[i + 1] as u32 * 0x1_0000 + b[i + 2] as u32 * 0x100 + b[i + 3] as u32
}

fn push_word(v: &mut Vec<u8>, x: u32)
    ensures
        final(v)@ == old(v)@ + bytes4(x),
{
    let ghost before = v@;
    v.push((x / 0x100_0000) as u8);
    v.push((x / 0x1_0000 % 0x100) as u8);
    v.push((x / 0x100 % 0x100) as u8);
    v.push((x % 0x100) as u8);
    assert(v@ =~= before + bytes4(x));
}

fn expand(m: &[u8], start: usize) -> (w: Vec<u32>)
    requires
        start + 64 <= m@.len(),
    ensures
        w@.len() == 80,
        forall|t: int|
            0 <= t < 80 ==> #[trigger] w@[t] == schedule(m@.subrange(start as int, start + 64), t),
{
    let ghost block = m@.subrange(start as int, start + 64);
    let mut w: Vec<u32> = Vec::new();
    let n: usize = m.len();
    let mut t: usize = 0;
    while t < 80
        invariant
            t <= 80,
            w@.len() == t,
            start + 64 <= m@.len(),
            n == m@.len(),
            block == m@.subrange(start as int, start + 64),
            forall|k: int| 0 <= k < t ==> #[trigger] w@[k] == schedule(block, k),
        decreases 80 - t,
    {
        if t < 16 {
            let x: u32 = word_at(m, start + 4 * t);
            assert(x == word(block, 4 * t as int));
            w.push(x);
        } else {
            let a: u32 = w[t - 3];
            let b: u32 = w[t - 8];
            let c: u32 = w[t - 14];
            let d: u32 = w[t - 16];
            w.push(rotate(a ^ b ^ c ^ d, 1));
        }
        t += 1;
    }
    w
}

fn mixed(t: usize, b: u32, c: u32, d: u32) -> (r: u32)
    ensures
        r == mix(t as int, b, c, d),
{
    if t < 20 {
        (b & c) | (!b & d)
    } else if t < 40 {
        b ^ c ^ d
    } else if t < 60 {
        (b & c) | (b & d) | (c & d)
    } else {
        b ^ c ^ d
    }
}

fn constant(t: usize) -> (r: u32)
    ensures
        r == round_constant(t as int),
{
    if t < 20 {
        0x5A827999
    } else if t < 40 {
        0x6ED9EBA1
    } else if t < 60 {
        0x8F1BBCDC
    } else {
        0xCA62C1D6
    }
}

fn absorb(s: Words, m: &[u8], start: usize) -> (r: Words)
    requires
        start + 64 <= m@.len(),
    ensures
        r == compress(s, m@.subrange(start as int, start + 64)),
{
    let ghost block = m@.subrange(start as int, start + 64);
    let w = expand(m, start);
    let mut x = s;
    let mut t: usize = 0;
    while t < 80
        invariant
            t <= 80,
            w@.len() == 80,
            forall|k: int| 0 <= k < 80 ==> #[trigger] w@[k] == schedule(block, k),
            x == rounds(s, block, t as int),
        decreases 80 - t,
    {
        let f: u32 = mixed(t, x.b, x.c, x.d);
        let sum: u32 = plus(plus(plus(plus(rotate(x.a, 5), f), x.e), constant(t)), w[t]);
        x = Words { a: sum, b: x.a, c: rotate(x.b, 30), d: x.c, e: x.d };
        t += 1;
    }
    Words {
        a: plus(s.a, x.a),
        b: plus(s.b, x.b),
        c: plus(s.c, x.c),
        d: plus(s.d, x.d),
        e: plus(s.e, x.e),
    }
}

proof fn lemma_whole_blocks(n: int)
    requires
        0 <= n,
    ensures
        0 <= zeros(n) < 64,
        (n + 1 + zeros(n) + 8) % 64 == 0,
{
    let r = n % 64;
    assert(n == 64 * (n / 64) + r);
    if r <= 55 {
        assert(zeros(n) == 55 - r);
        assert(n + 1 + zeros(n) + 8 == 64 * (n / 64 + 1));
    } else {
        assert(zeros(n) == 119 - r);
        assert(n + 1 + zeros(n) + 8 == 64 * (n / 64 + 2));
    }
}

/// Pads a message to whole blocks.
fn pad(data: &[u8]) -> (m: Vec<u8>)
    ensures
        m@ == padded(data@),
        m@.len() % 64 == 0,
{
    let mut m: Vec<u8> = Vec::new();
    m.extend_from_slice(data);
    assert(m@ =~= data@);
    m.push(0x80);
    let n: usize = data.len();
    let k: usize = (119 - n % 64) % 64;
    let ghost head = m@;
    let mut i: usize = 0;
    while i < k
        invariant
            i <= k,
            m@ == head + Seq::new(i as nat, |j: int| 0u8),
        decreases k - i,
    {
        m.push(0);
        i += 1;
        assert(m@ =~= head + Seq::new(i as nat, |j: int| 0u8));
    }
    let ghost body = m@;
    let bits: u64 = ((n as u128 * 8) % 0x1_0000_0000_0000_0000) as u64;
    let high: u32 = (bits / 0x1_0000_0000) as u32;
    let low: u32 = (bits % 0x1_0000_0000) as u32;
    push_word(&mut m, high);
    push_word(&mut m, low);
    proof {
        assert(bit_length(n as int) == bytes4(high) + bytes4(low));
        assert(m@ =~= body + (bytes4(high) + bytes4(low)));
        assert(body == data@.push(0x80) + Seq::new(zeros(n as int) as nat, |j: int| 0u8));
        lemma_whole_blocks(n as int);
    }
    m
}

/// The SHA-1 hash of a message. The padded copy of the message is wiped.
pub fn sha1(data: &[u8]) -> (r: [u8; 20])
    ensures
        r@ == sha1_of(data@),
{
    let mut m = pad(data);
    let mut h = Words {
        a: 0x67452301,
        b: 0xEFCDAB89,
        c: 0x98BADCFE,
        d: 0x10325476,
        e: 0xC3D2E1F0,
    };
    let ghost all = m@;
    let len: usize = m.len();
    let blocks: usize = len / 64;
    let mut n: usize = 0;
    while n < blocks
        invariant
            n <= blocks,
            all == m@,
            64 * blocks == m@.len(),
            len == m@.len(),
            h == hashed(all, n as int),
        decreases blocks - n,
    {
        assert(64 * n + 64 <= len);
        h = absorb(h, m.as_slice(), 64 * n);
        n += 1;
    }
    crate::crypto::wipe_bytes(&mut m);
    let mut out: Vec<u8> = Vec::new();
    push_word(&mut out, h.a);
    push_word(&mut out, h.b);
    push_word(&mut out, h.c);
    push_word(&mut out, h.d);
    push_word(&mut out, h.e);
    assert(out@ =~= sha1_of(data@));
    let r = crate::crypto::array_of::<20>(out.as_slice());
    assert(r@ =~= out@);
    r
}

} // verus!
