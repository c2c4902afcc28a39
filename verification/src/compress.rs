//! The SHA-1 compression function: message schedule, round function, round
//! constants and the 80-round fold of one 64-byte block into the chaining
//! value.

use crate::word::{rotl, wrap_sum, Word};
use vstd::prelude::*;

verus! {

/// The chaining value as a sequence of five 32-bit numbers, `H0` first.
pub open spec fn words(h: [Word; 5]) -> Seq<u32> {
    Seq::new(5, |i: int| h[i].0)
}

/// The chaining value before any block has been absorbed.
pub open spec fn initial_words() -> Seq<u32> {
    seq![0x67452301u32, 0xEFCDAB89u32, 0x98BADCFEu32, 0x10325476u32, 0xC3D2E1F0u32]
}

/// The number whose big-endian representation is the four bytes of `bytes`
/// that start at index `i`.
pub open spec fn be32(bytes: Seq<u8>, i: int) -> u32 {
    (bytes[i] * 0x100_0000 + bytes[i + 1] * 0x1_0000 + bytes[i + 2] * 0x100 + bytes[i + 3]) as u32
}

/// Round function of round `t`: choice in rounds 0..=19, parity in rounds
/// 20..=39 and 60..=79, majority in rounds 40..=59.
pub open spec fn round_fn(t: int, b: u32, c: u32, d: u32) -> u32 {
    if t <= 19 {
        (b & c) | ((!b) & d)
    } else if t <= 39 {
        b ^ c ^ d
    } else if t <= 59 {
        (b & c) | (b & d) | (c & d)
    } else {
        b ^ c ^ d
    }
}

/// Round constant of round `t`.
pub open spec fn round_const(t: int) -> u32 {
    if t <= 19 {
        0x5A827999
    } else if t <= 39 {
        0x6ED9EBA1
    } else if t <= 59 {
        0x8F1BBCDC
    } else {
        0xCA62C1D6
    }
}

/// Word `t` of the message schedule of a 64-byte block: the sixteen
/// big-endian words of the block, extended by the rotated xor recurrence.
pub open spec fn schedule(block: Seq<u8>, t: int) -> u32
    decreases t,
{
    if t < 0 {
        0
    } else if t < 16 {
        be32(block, 4 * t)
    } else {
        rotl(
            schedule(block, t - 3) ^ schedule(block, t - 8) ^ schedule(block, t - 14) ^ schedule(
                block,
                t - 16,
            ),
            1,
        )
    }
}

/// One round: from the working variables `(A, B, C, D, E)` before round `t`
/// to those after it.
pub open spec fn round(v: Seq<u32>, block: Seq<u8>, t: int) -> Seq<u32> {
    let temp = wrap_sum(
        wrap_sum(
            wrap_sum(wrap_sum(rotl(v[0], 5), round_fn(t, v[1], v[2], v[3])), v[4]),
            schedule(block, t),
        ),
        round_const(t),
    );
    seq![temp, v[0], rotl(v[1], 30), v[2], v[3]]
}

/// The working variables after the first `n` rounds, started from `h`.
pub open spec fn rounds(h: Seq<u32>, block: Seq<u8>, n: nat) -> Seq<u32>
    decreases n,
{
    if n == 0 {
        h
    } else {
        round(rounds(h, block, (n - 1) as nat), block, n - 1)
    }
}

/// The chaining value after absorbing one block: the 80 rounds, then the
/// wraparound sum of the working variables into `h`.
pub open spec fn compressed(h: Seq<u32>, block: Seq<u8>) -> Seq<u32> {
    let v = rounds(h, block, 80);
    seq![
        wrap_sum(h[0], v[0]),
        wrap_sum(h[1], v[1]),
        wrap_sum(h[2], v[2]),
        wrap_sum(h[3], v[3]),
        wrap_sum(h[4], v[4]),
    ]
}

/// The round function `f(t, B, C, D)`.
pub fn f(t: usize, b: Word, c: Word, d: Word) -> (r: Word)
    requires
        t < 80,
    ensures
        r.0 == round_fn(t as int, b.0, c.0, d.0),
{
    if t <= 19 {
        (b & c) | (b.not() & d)
    } else if t <= 39 {
        b ^ c ^ d
    } else if t <= 59 {
        (b & c) | (b & d) | (c & d)
    } else {
        b ^ c ^ d
    }
}

/// The round constant `K(t)`.
pub fn k(t: usize) -> (r: Word)
    requires
        t < 80,
    ensures
        r.0 == round_const(t as int),
{
    if t <= 19 {
        Word(0x5A827999)
    } else if t <= 39 {
        Word(0x6ED9EBA1)
    } else if t <= 59 {
        Word(0x8F1BBCDC)
    } else {
        Word(0xCA62C1D6)
    }
}

/// The initial chaining value `H0..H4`.
pub fn initial_state() -> (h: [Word; 5])
    ensures
        words(h) == initial_words(),
{
    [Word(0x67452301), Word(0xEFCDAB89), Word(0x98BADCFE), Word(0x10325476), Word(0xC3D2E1F0)]
}

/// Reads the big-endian 32-bit word that starts at byte `i` of a block.
fn load_be32(m: &[u8; 64], i: usize) -> (r: Word)
    requires
        i + 3 < 64,
    ensures
        r.0 == be32(m@, i as int),
{
    let b0: u8 = m[i];
    let b1: u8 = m[i + 1];
    let b2: u8 = m[i + 2];
    let b3: u8 = m[i + 3];
    assert(((b0 as u32) << 24 | (b1 as u32) << 16 | (b2 as u32) << 8 | (b3 as u32)) == (b0
        * 0x100_0000 + b1 * 0x1_0000 + b2 * 0x100 + b3) as u32) by (bit_vector);
    Word((b0 as u32) << 24 | (b1 as u32) << 16 | (b2 as u32) << 8 | (b3 as u32))
}

/// Expands a block into its 80-word message schedule.
fn expand(m: &[u8; 64]) -> (w: [Word; 80])
    ensures
        forall|t: int| 0 <= t < 80 ==> (#[trigger] w[t]).0 == schedule(m@, t),
{
    let mut w: [Word; 80] = [Word(0); 80];
    for i in 0..16usize
        invariant
            forall|t: int| 0 <= t < i ==> (#[trigger] w[t]).0 == schedule(m@, t),
    {
        w[i] = load_be32(m, i * 4);
    }
    for i in 16..80usize
        invariant
            forall|t: int| 0 <= t < i ==> (#[trigger] w[t]).0 == schedule(m@, t),
    {
        w[i] = (w[i - 3] ^ w[i - 8] ^ w[i - 14] ^ w[i - 16]).rotate_left(1);
    }
    w
}

/// Folds one 64-byte block into the chaining value.
pub fn compress(h: [Word; 5], m: &[u8; 64]) -> (r: [Word; 5])
    ensures
        words(r) == compressed(words(h), m@),
{
    let w = expand(m);
    let mut a: Word = h[0];
    let mut b: Word = h[1];
    let mut c: Word = h[2];
    let mut d: Word = h[3];
    let mut e: Word = h[4];
    assert(seq![a.0, b.0, c.0, d.0, e.0] =~= words(h));
    for i in 0..80usize
        invariant
            forall|t: int| 0 <= t < 80 ==> (#[trigger] w[t]).0 == schedule(m@, t),
            seq![a.0, b.0, c.0, d.0, e.0] == rounds(words(h), m@, i as nat),
    {
        let ghost v = seq![a.0, b.0, c.0, d.0, e.0];
        let temp: Word = a.rotate_left(5) + f(i, b, c, d) + e + w[i] + k(i);
        e = d;
        d = c;
        c = b.rotate_left(30);
        b = a;
        a = temp;
        assert(seq![a.0, b.0, c.0, d.0, e.0] =~= round(v, m@, i as int));
    }
    let r = [h[0] + a, h[1] + b, h[2] + c, h[3] + d, h[4] + e];
    assert(words(r) =~= compressed(words(h), m@));
    r
}

} // verus!
