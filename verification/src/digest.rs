//! The digest of a byte sequence: the padder drives the blocks of the
//! padded message into the compression function.

use crate::compress::{compress, compressed, initial_state, initial_words, words};
use crate::message::{
    block_at, blocks_of, counter, lemma_data_block, lemma_padded_len, lemma_tail_blocks, padded,
};
use crate::padding::{advance, start, step, wants_read, PadState, SHA1Pad};
use crate::word::Word;
use vstd::arithmetic::div_mod::{lemma_add_mod_noop, lemma_fundamental_div_mod, lemma_mod_twice};
use vstd::prelude::*;
use vstd::slice::slice_subrange;

verus! {

/// The chaining value after absorbing `blocks` in order, started from `h`.
pub open spec fn absorbed(h: Seq<u32>, blocks: Seq<Seq<u8>>) -> Seq<u32>
    decreases blocks.len(),
{
    if blocks.len() == 0 {
        h
    } else {
        compressed(absorbed(h, blocks.drop_last()), blocks.last())
    }
}

/// The SHA-1 digest of `data` as five 32-bit numbers, `H0` first: the
/// blocks of the padded message absorbed into the initial chaining value.
pub open spec fn sha1_digest(data: Seq<u8>) -> Seq<u32> {
    absorbed(initial_words(), blocks_of(padded(data)))
}

/// Absorbing one more block extends the fold by one compression.
pub proof fn lemma_absorb_next(h: Seq<u32>, blocks: Seq<Seq<u8>>, n: int)
    requires
        0 <= n < blocks.len(),
    ensures
        absorbed(h, blocks.take(n + 1)) == compressed(absorbed(h, blocks.take(n)), blocks[n]),
{
    assert(blocks.take(n + 1).drop_last() =~= blocks.take(n));
}

/// The driver's invariant: a padder in state `s` has been fed the first
/// `pos` bytes of `data` and has handed out the first `n` blocks of the
/// padded message.
pub open spec fn in_step(data: Seq<u8>, s: PadState, pos: int, n: int) -> bool {
    let len = data.len() as int;
    &&& 0 <= pos <= len
    &&& 0 <= n <= blocks_of(padded(data)).len()
    &&& s.consumed == counter(pos as nat)
    &&& wants_read(s) ==> pos == 64 * n
    &&& !s.exhausted && s.length_owed ==> pos == len && len % 64 >= 56 && n == len / 64 + 1
    &&& s.exhausted ==> n == blocks_of(padded(data)).len()
}

/// The number of bytes that the driver reads next: none where the padder
/// wants none, else 64 or what is left of the data.
pub open spec fn next_take(data: Seq<u8>, s: PadState, pos: int) -> int {
    if !wants_read(s) {
        0
    } else if data.len() - pos >= 64 {
        64
    } else {
        data.len() - pos
    }
}

/// The steps that are left before the padder is exhausted, as a bound.
pub open spec fn steps_left(data: Seq<u8>, s: PadState, n: int) -> int {
    blocks_of(padded(data)).len() - n + (if s.exhausted {
        0int
    } else {
        1int
    })
}

/// One step of the driver: the block that the padder hands out is the next
/// block of the padded message, the invariant holds again, and the padder
/// stops exactly when all blocks are out.
pub proof fn lemma_drive(data: Seq<u8>, s: PadState, pos: int, n: int)
    requires
        in_step(data, s, pos, n),
    ensures
        ({
            let take = next_take(data, s, pos);
            let (s2, out) = step(s, data.subrange(pos, pos + take));
            match out {
                None => n == blocks_of(padded(data)).len(),
                Some(b) => {
                    &&& n < blocks_of(padded(data)).len()
                    &&& b == blocks_of(padded(data))[n]
                    &&& in_step(data, s2, pos + take, n + 1)
                    &&& 0 <= steps_left(data, s2, n + 1) < steps_left(data, s, n)
                },
            }
        }),
{
    let len = data.len() as int;
    let take = next_take(data, s, pos);
    let read = data.subrange(pos, pos + take);
    lemma_padded_len(data);
    lemma_tail_blocks(data);
    lemma_fundamental_div_mod(len, 64);
    if wants_read(s) {
        if take == 64 {
            lemma_data_block(data, n);
            assert(read =~= block_at(data, n));
            assert(counter((pos + 64) as nat) == advance(s.consumed, 64)) by {
                lemma_counter_advance(pos as nat, 64);
            }
        } else {
            assert(n == len / 64) by {
                lemma_fundamental_div_mod(pos, 64);
            }
            assert(counter(len as nat) == advance(s.consumed, take as nat)) by {
                lemma_counter_advance(pos as nat, take as nat);
            }
        }
    }
}

/// The blocks that a padder in state `s` hands out, in order, when it is
/// driven over the bytes `rest` with reads of 64 bytes, until it returns
/// `None`.
pub open spec fn emitted(s: PadState, rest: Seq<u8>) -> Seq<Seq<u8>>
    decreases
            rest.len(),
            (if s.exhausted {
                0int
            } else if s.length_owed {
                1int
            } else {
                2int
            }),
{
    let take = next_take(rest, s, 0);
    let (s2, out) = step(s, rest.take(take));
    match out {
        None => Seq::empty(),
        Some(b) => seq![b] + emitted(s2, rest.skip(take)),
    }
}

/// From any step of the driver on, the padder hands out the blocks of the
/// padded message that are still to come.
pub proof fn lemma_emitted_from(data: Seq<u8>, s: PadState, pos: int, n: int)
    requires
        in_step(data, s, pos, n),
    ensures
        emitted(s, data.skip(pos)) == blocks_of(padded(data)).skip(n),
    decreases steps_left(data, s, n),
{
    let rest = data.skip(pos);
    let take = next_take(data, s, pos);
    assert(take == next_take(rest, s, 0));
    assert(rest.take(take) =~= data.subrange(pos, pos + take));
    assert(rest.skip(take) =~= data.skip(pos + take));
    lemma_drive(data, s, pos, n);
    let (s2, out) = step(s, rest.take(take));
    let blocks = blocks_of(padded(data));
    match out {
        None => {
            assert(blocks.skip(n) =~= Seq::<Seq<u8>>::empty());
        },
        Some(b) => {
            lemma_emitted_from(data, s2, pos + take, n + 1);
            assert(blocks.skip(n) =~= seq![b] + blocks.skip(n + 1));
        },
    }
}

/// Driven over `data` from the start, the padder hands out exactly the
/// blocks of the padded message: the whole blocks of the data, the block
/// with the bytes left over and the terminator, and, where more than 55
/// bytes are left over, the extra block that holds only the length field.
pub proof fn lemma_padder_output(data: Seq<u8>)
    ensures
        emitted(start(), data) == blocks_of(padded(data)),
        data.len() % 64 <= 55 ==> emitted(start(), data).len() == data.len() / 64 + 1,
        data.len() % 64 >= 56 ==> emitted(start(), data).len() == data.len() / 64 + 2,
{
    lemma_padded_len(data);
    assert(data.skip(0) =~= data);
    lemma_emitted_from(data, start(), 0, 0);
    assert(blocks_of(padded(data)).skip(0) =~= blocks_of(padded(data)));
}

/// The wrapped counter after `n` more bytes.
pub proof fn lemma_counter_advance(len: nat, n: nat)
    ensures
        advance(counter(len), n) == counter(len + n),
{
    lemma_add_mod_noop(len as int, n as int, 0x1_0000_0000_0000_0000);
    lemma_mod_twice(len as int, 0x1_0000_0000_0000_0000);
    lemma_add_mod_noop((len % 0x1_0000_0000_0000_0000) as int, n as int, 0x1_0000_0000_0000_0000);
}

/// Determinism: two digests that `sha1` returns for the same byte sequence
/// are the same five words.
pub proof fn lemma_digest_deterministic(a: Seq<u8>, b: Seq<u8>, da: [Word; 5], db: [Word; 5])
    requires
        a == b,
        words(da) == sha1_digest(a),
        words(db) == sha1_digest(b),
    ensures
        da == db,
{
    assert forall|i: int| 0 <= i < 5 implies da[i] == db[i] by {
        assert(words(da)[i] == words(db)[i]);
    }
    assert(da@ =~= db@);
}

/// Computes the SHA-1 digest of `data`, read in steps of 64 bytes.
pub fn sha1(data: &[u8]) -> (digest: [Word; 5])
    ensures
        words(digest) == sha1_digest(data@),
{
    let mut h = initial_state();
    let mut pad = SHA1Pad::new();
    let mut pos: usize = 0;
    let len: usize = data.len();
    let ghost blocks = blocks_of(padded(data@));
    let ghost mut n: int = 0;
    proof {
        assert(blocks.take(0) =~= Seq::<Seq<u8>>::empty());
    }
    loop
        invariant
            len == data@.len(),
            blocks == blocks_of(padded(data@)),
            in_step(data@, pad@, pos as int, n),
            words(h) == absorbed(initial_words(), blocks.take(n)),
        decreases steps_left(data@, pad@, n),
    {
        let take: usize = if !pad.needs_read() {
            0
        } else if len - pos >= 64 {
            64
        } else {
            len - pos
        };
        proof {
            lemma_drive(data@, pad@, pos as int, n);
        }
        let chunk = slice_subrange(data, pos, pos + take);
        match pad.next(chunk) {
            None => {
                assert(blocks.take(n) =~= blocks);
                return h;
            },
            Some(m) => {
                proof {
                    lemma_absorb_next(initial_words(), blocks, n);
                    n = n + 1;
                }
                h = compress(h, &m);
                pos = pos + take;
            },
        }
    }
}

} // verus!
