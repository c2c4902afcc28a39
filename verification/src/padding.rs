//! The block padder: a state machine that turns the reads of a byte source
//! into the 64-byte blocks of the padded message.

use vstd::prelude::*;

verus! {

/// The eight bytes of `n`, most significant first.
pub open spec fn be64(n: u64) -> Seq<u8> {
    seq![
        (n / 0x100_0000_0000_0000 % 0x100) as u8,
        (n / 0x1_0000_0000_0000 % 0x100) as u8,
        (n / 0x100_0000_0000 % 0x100) as u8,
        (n / 0x1_0000_0000 % 0x100) as u8,
        (n / 0x100_0000 % 0x100) as u8,
        (n / 0x1_0000 % 0x100) as u8,
        (n / 0x100 % 0x100) as u8,
        (n % 0x100) as u8,
    ]
}

/// `n` zero bytes.
pub open spec fn zeros(n: int) -> Seq<u8> {
    Seq::new(
        if n >= 0 {
            n as nat
        } else {
            0
        },
        |i: int| 0u8,
    )
}

/// The length field for a message of `consumed` bytes: its length in bits,
/// reduced modulo 2^64.
pub open spec fn bit_length(consumed: u64) -> u64 {
    (consumed * 8 % 0x1_0000_0000_0000_0000) as u64
}

/// The block that holds nothing but the length field.
pub open spec fn length_block(consumed: u64) -> Seq<u8> {
    zeros(56) + be64(bit_length(consumed))
}

/// The block made from a short read: the bytes read, the terminator `0x80`,
/// zero fill, and the length field where at least eight bytes are left
/// behind the terminator. `consumed` counts the bytes of the read too.
pub open spec fn tail_block(read: Seq<u8>, consumed: u64) -> Seq<u8> {
    if read.len() <= 55 {
        read + seq![0x80u8] + zeros(55 - read.len()) + be64(bit_length(consumed))
    } else {
        read + seq![0x80u8] + zeros(63 - read.len())
    }
}

/// What the padder remembers between two blocks.
pub struct PadState {
    /// Bytes taken from the source so far, modulo 2^64.
    pub consumed: u64,
    /// One more block, which holds only the length field, is still owed.
    pub length_owed: bool,
    /// The last block has been handed out.
    pub exhausted: bool,
}

/// The state of a padder at the start of a stream.
pub open spec fn start() -> PadState {
    PadState { consumed: 0, length_owed: false, exhausted: false }
}

/// The padder reads from the source only in a state in which this holds.
pub open spec fn wants_read(s: PadState) -> bool {
    !s.exhausted && !s.length_owed
}

/// `consumed` after `n` more bytes.
pub open spec fn advance(consumed: u64, n: nat) -> u64 {
    ((consumed + n) % 0x1_0000_0000_0000_0000) as u64
}

/// One step of the padder: from the state and the bytes of one read (at
/// most 64; looked at only where `wants_read` holds) to the next state and
/// the block handed out, if any.
pub open spec fn step(s: PadState, read: Seq<u8>) -> (PadState, Option<Seq<u8>>) {
    if s.exhausted {
        (s, None)
    } else if s.length_owed {
        (PadState { exhausted: true, ..s }, Some(length_block(s.consumed)))
    } else {
        let consumed = advance(s.consumed, read.len());
        if read.len() >= 64 {
            (PadState { consumed, ..s }, Some(read))
        } else if read.len() <= 55 {
            (PadState { consumed, exhausted: true, ..s }, Some(tail_block(read, consumed)))
        } else {
            (PadState { consumed, length_owed: true, ..s }, Some(tail_block(read, consumed)))
        }
    }
}

/// Facts about the bytes of a 64-bit number that link the shifts of the
/// executable code to the quotients of `be64`.
proof fn lemma_be64_shifts(n: u64)
    by (bit_vector)
    ensures
        (n >> 56u64) & 0xffu64 == n / 0x100_0000_0000_0000u64 % 0x100u64,
        (n >> 48u64) & 0xffu64 == n / 0x1_0000_0000_0000u64 % 0x100u64,
        (n >> 40u64) & 0xffu64 == n / 0x100_0000_0000u64 % 0x100u64,
        (n >> 32u64) & 0xffu64 == n / 0x1_0000_0000u64 % 0x100u64,
        (n >> 24u64) & 0xffu64 == n / 0x100_0000u64 % 0x100u64,
        (n >> 16u64) & 0xffu64 == n / 0x1_0000u64 % 0x100u64,
        (n >> 8u64) & 0xffu64 == n / 0x100u64 % 0x100u64,
        (n >> 0u64) & 0xffu64 == n % 0x100u64,
{
}

/// The streaming padder. It holds no source: whoever drives it performs the
/// reads and hands each result to `next`.
pub struct SHA1Pad {
    size: u64,
    need_additional_block: bool,
    done: bool,
}

impl View for SHA1Pad {
    type V = PadState;

    closed spec fn view(&self) -> PadState {
        PadState {
            consumed: self.size,
            length_owed: self.need_additional_block,
            exhausted: self.done,
        }
    }
}

impl SHA1Pad {
    /// A padder at the start of a stream.
    pub fn new() -> (pad: Self)
        ensures
            pad@ == start(),
    {
        Self { size: 0, need_additional_block: false, done: false }
    }

    /// Whether the next call of `next` consumes a read.
    pub fn needs_read(&self) -> (b: bool)
        ensures
            b == wants_read(self@),
    {
        !self.done && !self.need_additional_block
    }

    /// Writes the length field, the number of bits consumed so far as a
    /// big-endian 64-bit number, into the last eight bytes of `block`.
    pub fn assign_size(&self, block: &mut [u8; 64])
        ensures
            final(block)@ == old(block)@.subrange(0, 56) + be64(bit_length(self@.consumed)),
    {
        let bits: u64 = self.size.wrapping_mul(8);
        proof {
            lemma_be64_shifts(bits);
        }
        let ghost start = block@;
        for i in 56..64usize
            invariant
                bits == bit_length(self@.consumed),
                block@.len() == 64,
                forall|j: int| 0 <= j < 56 ==> block@[j] == start[j],
                forall|j: int| 56 <= j < i ==> block@[j] == be64(bits)[j - 56],
                (bits >> 56u64) & 0xffu64 == bits / 0x100_0000_0000_0000u64 % 0x100u64,
                (bits >> 48u64) & 0xffu64 == bits / 0x1_0000_0000_0000u64 % 0x100u64,
                (bits >> 40u64) & 0xffu64 == bits / 0x100_0000_0000u64 % 0x100u64,
                (bits >> 32u64) & 0xffu64 == bits / 0x1_0000_0000u64 % 0x100u64,
                (bits >> 24u64) & 0xffu64 == bits / 0x100_0000u64 % 0x100u64,
                (bits >> 16u64) & 0xffu64 == bits / 0x1_0000u64 % 0x100u64,
                (bits >> 8u64) & 0xffu64 == bits / 0x100u64 % 0x100u64,
                (bits >> 0u64) & 0xffu64 == bits % 0x100u64,
        {
            let shift: u64 = ((63 - i) * 8) as u64;
            let byte: u64 = (bits >> shift) & 0xff;
            block[i] = byte as u8;
        }
    }

    /// Hands out the next block of the padded stream, or `None` once the
    /// last one is out. `read` is the result of one read of at most 64 bytes
    /// from the source; a read of fewer than 64 bytes ends the stream.
    pub fn next(&mut self, read: &[u8]) -> (r: Option<[u8; 64]>)
        requires
            read@.len() <= 64,
        ensures
            final(self)@ == step(old(self)@, read@).0,
            match r {
                Some(block) => step(old(self)@, read@).1 == Some(block@),
                None => step(old(self)@, read@).1 is None,
            },
    {
        if self.done {
            return None;
        }
        if self.need_additional_block {
            self.done = true;
            let mut block: [u8; 64] = [0; 64];
            self.assign_size(&mut block);
            assert(block@ =~= length_block(self@.consumed));
            return Some(block);
        }
        let mut block: [u8; 64] = [0; 64];
        let read_bytes: usize = read.len();
        for i in 0..read_bytes
            invariant
                read_bytes == read@.len(),
                read_bytes <= 64,
                forall|j: int| 0 <= j < i ==> block@[j] == read@[j],
                forall|j: int| i <= j < 64 ==> block@[j] == 0,
        {
            block[i] = read[i];
        }
        self.size = self.size.wrapping_add(read_bytes as u64);
        if read_bytes < 64 {
            block[read_bytes] = 0x80;
            if read_bytes < 56 {
                self.assign_size(&mut block);
                self.done = true;
            } else {
                self.need_additional_block = true;
            }
            assert(block@ =~= tail_block(read@, self@.consumed));
        } else {
            assert(block@ =~= read@);
        }
        Some(block)
    }
}

} // verus!
