//! 32-bit words with wraparound addition, rotation and bitwise logic.

use vstd::prelude::*;

verus! {

/// Circular left rotation of a 32-bit value by `n % 32` bit positions.
pub open spec fn rotl(x: u32, n: u32) -> u32 {
    let k = n % 32;
    if k == 0 {
        x
    } else {
        (x << k) | (x >> ((32 - k) as u32))
    }
}

/// Rotation moves bits and loses none: rotating on by the positions that
/// are missing to 32 gives the value back.
pub proof fn lemma_rotl_is_circular(x: u32, n: u32)
    by (bit_vector)
    requires
        n < 32u32,
    ensures
        rotl(rotl(x, n), (32u32 - n) as u32) == x,
{
}

/// Sum of two 32-bit values reduced modulo 2^32.
pub open spec fn wrap_sum(x: u32, y: u32) -> u32 {
    ((x + y) % 0x1_0000_0000) as u32
}

/// A 32-bit unsigned value whose arithmetic wraps around modulo 2^32.
#[derive(Clone, Copy, Debug, PartialEq, Eq, Structural)]
pub struct Word(pub u32);

impl Word {
    /// Rotates the bits to the left by `n` positions; bits shifted out on the
    /// left re-enter on the right.
    pub fn rotate_left(self, n: u32) -> (r: Self)
        ensures
            r.0 == rotl(self.0, n),
    {
        let k: u32 = n % 32;
        if k == 0 {
            self
        } else {
            Word((self.0 << k) | (self.0 >> (32 - k)))
        }
    }

    /// Adds modulo 2^32.
    pub fn add(self, y: Self) -> (r: Self)
        ensures
            r.0 == (self.0 + y.0) % 0x1_0000_0000,
            r.0 == wrap_sum(self.0, y.0),
    {
        let ans: u64 = (self.0 as u64 + y.0 as u64) % 0x1_0000_0000;
        Word(ans as u32)
    }

    /// Bitwise conjunction.
    pub fn and(self, rhs: Self) -> (r: Self)
        ensures
            r.0 == self.0 & rhs.0,
    {
        Word(self.0 & rhs.0)
    }

    /// Bitwise disjunction.
    pub fn or(self, rhs: Self) -> (r: Self)
        ensures
            r.0 == self.0 | rhs.0,
    {
        Word(self.0 | rhs.0)
    }

    /// Bitwise exclusive or.
    pub fn xor(self, rhs: Self) -> (r: Self)
        ensures
            r.0 == self.0 ^ rhs.0,
    {
        Word(self.0 ^ rhs.0)
    }

    /// Bitwise complement.
    pub fn not(self) -> (r: Self)
        ensures
            r.0 == !self.0,
    {
        Word(!self.0)
    }
}

impl core::ops::Add for Word {
    type Output = Word;

    fn add(self, rhs: Self) -> (r: Word) {
        Word::add(self, rhs)
    }
}

impl vstd::std_specs::ops::AddSpecImpl for Word {
    open spec fn obeys_add_spec() -> bool {
        true
    }

    open spec fn add_req(self, rhs: Self) -> bool {
        true
    }

    open spec fn add_spec(self, rhs: Self) -> Word {
        Word(wrap_sum(self.0, rhs.0))
    }
}

impl core::ops::BitAnd for Word {
    type Output = Word;

    fn bitand(self, rhs: Self) -> (r: Word) {
        self.and(rhs)
    }
}

impl vstd::std_specs::ops::BitAndSpecImpl for Word {
    open spec fn obeys_bitand_spec() -> bool {
        true
    }

    open spec fn bitand_req(self, rhs: Self) -> bool {
        true
    }

    open spec fn bitand_spec(self, rhs: Self) -> Word {
        Word(self.0 & rhs.0)
    }
}

impl core::ops::Not for Word {
    type Output = Word;

    fn not(self) -> (r: Word) {
        Word::not(self)
    }
}

impl vstd::std_specs::ops::NotSpecImpl for Word {
    open spec fn obeys_not_spec() -> bool {
        true
    }

    open spec fn not_req(self) -> bool {
        true
    }

    open spec fn not_spec(self) -> Word {
        Word(!self.0)
    }
}

impl core::ops::BitOr for Word {
    type Output = Word;

    fn bitor(self, rhs: Self) -> (r: Word) {
        self.or(rhs)
    }
}

impl vstd::std_specs::ops::BitOrSpecImpl for Word {
    open spec fn obeys_bitor_spec() -> bool {
        true
    }

    open spec fn bitor_req(self, rhs: Self) -> bool {
        true
    }

    open spec fn bitor_spec(self, rhs: Self) -> Word {
        Word(self.0 | rhs.0)
    }
}

impl core::ops::BitXor for Word {
    type Output = Word;

    fn bitxor(self, rhs: Self) -> (r: Word) {
        self.xor(rhs)
    }
}

impl vstd::std_specs::ops::BitXorSpecImpl for Word {
    open spec fn obeys_bitxor_spec() -> bool {
        true
    }

    open spec fn bitxor_req(self, rhs: Self) -> bool {
        true
    }

    open spec fn bitxor_spec(self, rhs: Self) -> Word {
        Word(self.0 ^ rhs.0)
    }
}

impl core::ops::AddAssign for Word {
    fn add_assign(&mut self, other: Self)
        ensures
            final(self).0 == wrap_sum(old(self).0, other.0),
    {
        *self = Word::add(*self, other);
    }
}

} // verus!
