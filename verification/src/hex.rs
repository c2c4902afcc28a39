//! Rendering of a digest as lowercase hexadecimal text.

use crate::compress::words;
use crate::word::Word;
use vstd::prelude::*;

verus! {

/// The lowercase hexadecimal digit for a value below 16.
pub open spec fn hex_digit(d: int) -> char {
    seq!['0', '1', '2', '3', '4', '5', '6', '7', '8', '9', 'a', 'b', 'c', 'd', 'e', 'f'][d]
}

/// Hexadecimal digit `j` of `w`, counted from the most significant, as a
/// value below 16.
pub open spec fn nibble(w: u32, j: int) -> u32 {
    if j == 0 {
        w / 0x1000_0000 % 16
    } else if j == 1 {
        w / 0x100_0000 % 16
    } else if j == 2 {
        w / 0x10_0000 % 16
    } else if j == 3 {
        w / 0x1_0000 % 16
    } else if j == 4 {
        w / 0x1000 % 16
    } else if j == 5 {
        w / 0x100 % 16
    } else if j == 6 {
        w / 0x10 % 16
    } else {
        w % 16
    }
}

/// The text of a digest: for each of the five numbers its eight
/// hexadecimal digits, leading zeros included, `H0` first.
pub open spec fn hex_text(h: Seq<u32>) -> Seq<char> {
    Seq::new(40, |i: int| hex_digit(nibble(h[i / 8], i % 8) as int))
}

/// Appending a character to a `String` extends its view by that character,
/// as the documentation of `String::push` says.
pub assume_specification[ String::push ](s: &mut String, c: char)
    ensures
        final(s)@ == old(s)@.push(c),
;

proof fn lemma_nibble_shifts(w: u32)
    by (bit_vector)
    ensures
        (w >> 28u32) & 0xfu32 == w / 0x1000_0000u32 % 16u32,
        (w >> 24u32) & 0xfu32 == w / 0x100_0000u32 % 16u32,
        (w >> 20u32) & 0xfu32 == w / 0x10_0000u32 % 16u32,
        (w >> 16u32) & 0xfu32 == w / 0x1_0000u32 % 16u32,
        (w >> 12u32) & 0xfu32 == w / 0x1000u32 % 16u32,
        (w >> 8u32) & 0xfu32 == w / 0x100u32 % 16u32,
        (w >> 4u32) & 0xfu32 == w / 0x10u32 % 16u32,
        (w >> 0u32) & 0xfu32 == w % 16u32,
{
}

/// The character of a hexadecimal digit.
fn digit_char(d: u32) -> (c: char)
    requires
        d < 16,
    ensures
        c == hex_digit(d as int),
{
    match d {
        0 => '0',
        1 => '1',
        2 => '2',
        3 => '3',
        4 => '4',
        5 => '5',
        6 => '6',
        7 => '7',
        8 => '8',
        9 => '9',
        10 => 'a',
        11 => 'b',
        12 => 'c',
        13 => 'd',
        14 => 'e',
        _ => 'f',
    }
}

/// Renders a digest as 40 lowercase hexadecimal characters.
pub fn format_hash(hash: [Word; 5]) -> (text: String)
    ensures
        text@ == hex_text(words(hash)),
{
    let mut text = String::new();
    for i in 0..5usize
        invariant
            text@.len() == 8 * i,
            forall|p: int| 0 <= p < 8 * i ==> text@[p] == hex_text(words(hash))[p],
    {
        let w: u32 = hash[i].0;
        proof {
            lemma_nibble_shifts(w);
        }
        for j in 0..8usize
            invariant
                i < 5,
                w == hash[i as int].0,
                text@.len() == 8 * i + j,
                forall|p: int| 0 <= p < 8 * i + j ==> text@[p] == hex_text(words(hash))[p],
                (w >> 28u32) & 0xfu32 == w / 0x1000_0000u32 % 16u32,
                (w >> 24u32) & 0xfu32 == w / 0x100_0000u32 % 16u32,
                (w >> 20u32) & 0xfu32 == w / 0x10_0000u32 % 16u32,
                (w >> 16u32) & 0xfu32 == w / 0x1_0000u32 % 16u32,
                (w >> 12u32) & 0xfu32 == w / 0x1000u32 % 16u32,
                (w >> 8u32) & 0xfu32 == w / 0x100u32 % 16u32,
                (w >> 4u32) & 0xfu32 == w / 0x10u32 % 16u32,
                (w >> 0u32) & 0xfu32 == w % 16u32,
        {
            let shift: u32 = ((7 - j) * 4) as u32;
            let d: u32 = (w >> shift) & 0xf;
            assert(d == nibble(w, j as int));
            assert((8 * i + j) / 8 == i && (8 * i + j) % 8 == j);
            text.push(digit_char(d));
        }
    }
    assert(text@ =~= hex_text(words(hash)));
    text
}

} // verus!
