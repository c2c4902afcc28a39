//! Digesting a byte stream that arrives in pieces of any size.

use crate::compress::{compress, initial_state, initial_words, words};
use crate::digest::{absorbed, in_step, lemma_absorb_next, lemma_drive, sha1_digest};
use crate::message::{block_at, blocks_of, counter, lemma_data_block, lemma_padded_len, padded};
use crate::padding::{PadState, SHA1Pad};
use crate::word::Word;
use vstd::arithmetic::div_mod::lemma_fundamental_div_mod;
use vstd::prelude::*;
use vstd::slice::slice_subrange;

verus! {

/// A running digest computation. Bytes are handed to it piece by piece with
/// `update`; `finish` pads what was handed over and returns the digest. Its
/// view is the sequence of all bytes handed over so far.
pub struct Hasher {
    state: [Word; 5],
    pad: SHA1Pad,
    buffer: [u8; 64],
    filled: usize,
    seen: Ghost<Seq<u8>>,
}

impl View for Hasher {
    type V = Seq<u8>;

    closed spec fn view(&self) -> Seq<u8> {
        self.seen@
    }
}

/// The whole blocks of a prefix of the data are blocks of the padded data.
proof fn lemma_prefix_blocks(data: Seq<u8>, n: int)
    requires
        0 <= n,
        64 * n <= data.len(),
    ensures
        blocks_of(data.take(64 * n)) == blocks_of(padded(data)).take(n),
{
    lemma_padded_len(data);
    lemma_fundamental_div_mod(data.len() as int, 64);
    assert forall|i: int| 0 <= i < n implies block_at(data.take(64 * n), i) == block_at(
        padded(data),
        i,
    ) by {
        lemma_data_block(data, i);
        assert(block_at(data.take(64 * n), i) =~= block_at(data, i));
    }
    assert(blocks_of(data.take(64 * n)) =~= blocks_of(padded(data)).take(n));
}

/// The view of a hasher with view `seen` after the pieces `chunks` were
/// handed to `update` in order.
pub open spec fn fed(seen: Seq<u8>, chunks: Seq<Seq<u8>>) -> Seq<u8>
    decreases chunks.len(),
{
    if chunks.len() == 0 {
        seen
    } else {
        fed(seen + chunks.first(), chunks.drop_first())
    }
}

/// Handing over pieces one by one is handing over their concatenation.
pub proof fn lemma_fed_is_concatenation(seen: Seq<u8>, chunks: Seq<Seq<u8>>)
    ensures
        fed(seen, chunks) == seen + chunks.flatten(),
    decreases chunks.len(),
{
    if chunks.len() == 0 {
        assert(seen + chunks.flatten() =~= seen);
    } else {
        lemma_fed_is_concatenation(seen + chunks.first(), chunks.drop_first());
        assert(seen + chunks.flatten() =~= (seen + chunks.first())
            + chunks.drop_first().flatten());
    }
}

/// Streaming equivalence: how a source cuts its bytes into pieces does not
/// change the digest. A hasher that was fed the pieces `a` and one that was
/// fed the pieces `b` finish with the same digest whenever the pieces
/// deliver the same bytes, and that digest is the one `sha1` computes for
/// the bytes in one piece.
pub proof fn lemma_streaming_equivalence(a: Seq<Seq<u8>>, b: Seq<Seq<u8>>)
    requires
        a.flatten() == b.flatten(),
    ensures
        sha1_digest(fed(Seq::empty(), a)) == sha1_digest(fed(Seq::empty(), b)),
        sha1_digest(fed(Seq::empty(), a)) == sha1_digest(a.flatten()),
{
    lemma_fed_is_concatenation(Seq::empty(), a);
    lemma_fed_is_concatenation(Seq::empty(), b);
    assert(Seq::<u8>::empty() + a.flatten() =~= a.flatten());
    assert(Seq::<u8>::empty() + b.flatten() =~= b.flatten());
}

/// A block appended to a sequence of whole blocks is one more block.
proof fn lemma_blocks_push(prefix: Seq<u8>, block: Seq<u8>)
    requires
        prefix.len() % 64 == 0,
        block.len() == 64,
    ensures
        blocks_of(prefix + block) == blocks_of(prefix).push(block),
{
    let n = prefix.len() as int / 64;
    lemma_fundamental_div_mod(prefix.len() as int, 64);
    lemma_fundamental_div_mod(prefix.len() as int + 64, 64);
    assert((prefix + block).len() / 64 == n + 1);
    assert forall|i: int| 0 <= i < n + 1 implies #[trigger] blocks_of(prefix + block)[i]
        == blocks_of(prefix).push(block)[i] by {
        if i < n {
            assert(block_at(prefix + block, i) =~= block_at(prefix, i));
        } else {
            assert(block_at(prefix + block, i) =~= block);
        }
    }
    assert(blocks_of(prefix + block) =~= blocks_of(prefix).push(block));
}

impl Hasher {
    /// The whole blocks of the bytes seen have been absorbed, the padder has
    /// counted them, and the bytes behind them wait in the buffer.
    pub closed spec fn wf(&self) -> bool {
        let data = self.seen@;
        let pos = data.len() - self.filled;
        &&& self.filled < 64
        &&& pos >= 0
        &&& pos % 64 == 0
        &&& self.pad@ == (PadState {
            consumed: counter(pos as nat),
            length_owed: false,
            exhausted: false,
        })
        &&& words(self.state) == absorbed(initial_words(), blocks_of(data.take(pos)))
        &&& self.buffer@.take(self.filled as int) == data.skip(pos)
    }

    /// A hasher that has seen no bytes.
    pub fn new() -> (hasher: Self)
        ensures
            hasher.wf(),
            hasher@ == Seq::<u8>::empty(),
    {
        let hasher = Hasher {
            state: initial_state(),
            pad: SHA1Pad::new(),
            buffer: [0; 64],
            filled: 0,
            seen: Ghost(Seq::empty()),
        };
        assert(blocks_of(hasher.seen@.take(0)) =~= Seq::<Seq<u8>>::empty());
        assert(hasher.buffer@.take(0) =~= hasher.seen@.skip(0));
        hasher
    }

    /// Takes in the bytes of `chunk`, absorbing each block as it fills.
    pub fn update(&mut self, chunk: &[u8])
        requires
            old(self).wf(),
        ensures
            final(self).wf(),
            final(self)@ == old(self)@ + chunk@,
    {
        assert(self@ =~= old(self)@ + chunk@.take(0));
        for i in 0..chunk.len()
            invariant
                self.wf(),
                self@ == old(self)@ + chunk@.take(i as int),
        {
            let ghost before = self.seen@;
            let ghost held = self.buffer@;
            let ghost pos = before.len() - self.filled;
            self.buffer[self.filled] = chunk[i];
            self.filled = self.filled + 1;
            self.seen = Ghost(before.push(chunk@[i as int]));
            proof {
                assert(self.seen@.take(pos) =~= before.take(pos));
                assert forall|j: int| 0 <= j < self.filled implies self.buffer@[j]
                    == self.seen@[pos + j] by {
                    if j < self.filled - 1 {
                        assert(held.take(self.filled - 1)[j] == before.skip(pos)[j]);
                    }
                }
                assert(self.buffer@.take(self.filled as int) =~= self.seen@.skip(pos));
                assert(self@ =~= old(self)@ + chunk@.take(i + 1));
            }
            if self.filled == 64 {
                proof {
                    crate::digest::lemma_counter_advance(pos as nat, 64);
                    assert(self.buffer@ =~= self.seen@.skip(pos));
                    assert(self.seen@ =~= before.take(pos) + self.buffer@);
                    assert(self.seen@.take(pos + 64) =~= self.seen@);
                    lemma_blocks_push(before.take(pos), self.buffer@);
                    assert(blocks_of(self.seen@).drop_last() =~= blocks_of(before.take(pos)));
                }
                match self.pad.next(self.buffer.as_slice()) {
                    Some(block) => {
                        self.state = compress(self.state, &block);
                    },
                    None => {},
                }
                self.filled = 0;
                proof {
                    assert(self.buffer@.take(0) =~= self.seen@.skip(pos + 64));
                }
            }
        }
        assert(chunk@.take(chunk@.len() as int) =~= chunk@);
    }

    /// Pads the bytes seen and returns their digest.
    pub fn finish(self) -> (digest: [Word; 5])
        requires
            self.wf(),
        ensures
            words(digest) == sha1_digest(self@),
    {
        let ghost data = self.seen@;
        let ghost blocks = blocks_of(padded(data));
        let ghost pos = data.len() - self.filled;
        let ghost n = pos / 64;
        let mut h = self.state;
        let mut pad = self.pad;
        let rest = slice_subrange(self.buffer.as_slice(), 0, self.filled);
        let nothing = slice_subrange(rest, 0, 0);
        proof {
            lemma_fundamental_div_mod(pos, 64);
            lemma_prefix_blocks(data, n);
            lemma_padded_len(data);
            assert(rest@ =~= data.subrange(pos, data.len() as int));
            assert(in_step(data, pad@, pos, n));
            lemma_drive(data, pad@, pos, n);
        }
        match pad.next(rest) {
            Some(m) => {
                proof {
                    lemma_absorb_next(initial_words(), blocks, n);
                }
                h = compress(h, &m);
            },
            None => {},
        }
        proof {
            assert(in_step(data, pad@, data.len() as int, n + 1));
            assert(!crate::padding::wants_read(pad@));
            assert(nothing@ =~= data.subrange(data.len() as int, data.len() as int));
            lemma_drive(data, pad@, data.len() as int, n + 1);
        }
        match pad.next(nothing) {
            Some(m) => {
                proof {
                    lemma_absorb_next(initial_words(), blocks, n + 1);
                    assert(blocks.take(n + 2) =~= blocks);
                }
                h = compress(h, &m);
            },
            None => {
                assert(blocks.take(n + 1) =~= blocks);
            },
        }
        h
    }
}

} // verus!
