//! The padded message: what the padding rule appends to a byte sequence,
//! and how the padded sequence splits into 64-byte blocks.

use crate::padding::{be64, bit_length, length_block, tail_block, zeros};
use vstd::arithmetic::div_mod::{lemma_fundamental_div_mod, lemma_mul_mod_noop_left};
use vstd::prelude::*;

verus! {

/// The number of zero bytes between the terminator and the length field:
/// the least that makes the padded length a multiple of 64.
pub open spec fn zero_fill(len: nat) -> nat {
    ((119 - len % 64) % 64) as nat
}

/// The length field of a message of `len` bytes: its length in bits,
/// reduced modulo 2^64.
pub open spec fn length_field(len: nat) -> u64 {
    (len * 8 % 0x1_0000_0000_0000_0000) as u64
}

/// What the padding rule appends to a message of `len` bytes: the
/// terminator `0x80`, the zero fill and the big-endian length field.
pub open spec fn padding(len: nat) -> Seq<u8> {
    seq![0x80u8] + zeros(zero_fill(len) as int) + be64(length_field(len))
}

/// The message with its padding.
pub open spec fn padded(data: Seq<u8>) -> Seq<u8> {
    data + padding(data.len())
}

/// Block `i` of a message.
pub open spec fn block_at(msg: Seq<u8>, i: int) -> Seq<u8> {
    msg.subrange(64 * i, 64 * i + 64)
}

/// The 64-byte blocks of a message, in order (bytes behind the last whole
/// block are left out).
pub open spec fn blocks_of(msg: Seq<u8>) -> Seq<Seq<u8>> {
    Seq::new(msg.len() / 64, |i: int| block_at(msg, i))
}

/// The counter of a padder that has consumed `len` bytes.
pub open spec fn counter(len: nat) -> u64 {
    (len % 0x1_0000_0000_0000_0000) as u64
}

/// The length field computed from the wrapped byte counter is the length
/// field of the message.
pub proof fn lemma_length_field(len: nat)
    ensures
        bit_length(counter(len)) == length_field(len),
{
    lemma_mul_mod_noop_left(len as int, 8, 0x1_0000_0000_0000_0000);
}

/// The padded length: a multiple of 64, one block beyond the whole blocks
/// of the data where at most 55 bytes are left over, two blocks beyond them
/// otherwise.
pub proof fn lemma_padded_len(data: Seq<u8>)
    ensures
        padded(data).len() == data.len() + 9 + zero_fill(data.len()),
        padded(data).len() % 64 == 0,
        data.len() % 64 <= 55 ==> padded(data).len() == 64 * (data.len() / 64 + 1),
        data.len() % 64 >= 56 ==> padded(data).len() == 64 * (data.len() / 64 + 2),
        blocks_of(padded(data)).len() == padded(data).len() / 64,
{
    let len = data.len() as int;
    lemma_fundamental_div_mod(len, 64);
}

/// A block that lies within the data is the same in the padded message.
pub proof fn lemma_data_block(data: Seq<u8>, i: int)
    requires
        0 <= i,
        64 * i + 64 <= data.len(),
    ensures
        block_at(padded(data), i) == block_at(data, i),
{
    assert(block_at(padded(data), i) =~= block_at(data, i));
}

/// The blocks of the padded message from the end of the whole data blocks
/// on: the block made from the bytes left over and, where more than 55
/// bytes are left over, the block that holds only the length field.
pub proof fn lemma_tail_blocks(data: Seq<u8>)
    ensures
        block_at(padded(data), data.len() as int / 64) == tail_block(
            data.subrange(64 * (data.len() as int / 64), data.len() as int),
            counter(data.len()),
        ),
        data.len() % 64 >= 56 ==> block_at(padded(data), data.len() as int / 64 + 1)
            == length_block(counter(data.len())),
{
    let len = data.len() as int;
    let n = len / 64;
    let c = counter(data.len());
    let rest = data.subrange(64 * n, len);
    lemma_fundamental_div_mod(len, 64);
    lemma_padded_len(data);
    lemma_length_field(data.len());
    assert(block_at(padded(data), n) =~= tail_block(rest, c));
    if len % 64 >= 56 {
        assert(block_at(padded(data), n + 1) =~= length_block(c));
    }
}

/// Padding boundary. Let `r` be the number of bytes left over behind the
/// whole 64-byte blocks of the data. The whole blocks come first, unchanged.
/// Where `r` is at most 55, one more block follows: the bytes left over,
/// the terminator, zero fill and the length field. Where `r` is 56 or more,
/// two blocks follow: the bytes left over with the terminator and zero
/// fill, then an extra block that holds only zero fill and the length field.
pub proof fn lemma_padding_boundary(data: Seq<u8>)
    ensures
        ({
            let len = data.len() as int;
            let q = len / 64;
            let r = len % 64;
            let rest = data.subrange(64 * q, len);
            let blocks = blocks_of(padded(data));
            &&& forall|i: int| 0 <= i < q ==> #[trigger] blocks[i] == block_at(data, i)
            &&& r <= 55 ==> {
                &&& blocks.len() == q + 1
                &&& blocks[q] == rest + seq![0x80u8] + zeros(55 - r) + be64(
                    length_field(data.len()),
                )
            }
            &&& r >= 56 ==> {
                &&& blocks.len() == q + 2
                &&& blocks[q] == rest + seq![0x80u8] + zeros(63 - r)
                &&& blocks[q + 1] == zeros(56) + be64(length_field(data.len()))
            }
        }),
{
    let len = data.len() as int;
    let q = len / 64;
    let blocks = blocks_of(padded(data));
    lemma_fundamental_div_mod(len, 64);
    lemma_padded_len(data);
    lemma_tail_blocks(data);
    lemma_length_field(data.len());
    assert forall|i: int| 0 <= i < q implies #[trigger] blocks[i] == block_at(data, i) by {
        lemma_data_block(data, i);
    }
}

} // verus!
