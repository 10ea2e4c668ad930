//! Keys of the trie: fixed-width unsigned integers, read bit by bit from the
//! most significant end. Each width has a module of its own.

use vstd::prelude::*;

pub mod bits128;
pub mod bits16;
pub mod bits32;
pub mod bits64;
pub mod bits8;
pub mod word;

verus! {

/// A fixed-width unsigned integer that can serve as a key.
///
/// Bit positions count from the most significant bit, which is position 0.
/// A key also serves as a position: the position it denotes is its value.
pub trait BitKey: Copy + Sized {
    /// The number of bits of a key.
    spec fn width() -> nat;

    /// The key as a number.
    spec fn index(self) -> nat;

    /// The bit at `pos`; positions from `width()` on hold no bit.
    spec fn bit(self, pos: nat) -> bool;

    /// The critical bit of two different keys: the first position at which
    /// they differ, held as a key.
    spec fn crit(self, other: Self) -> Self;

    /// Two different keys differ at their critical bit and nowhere before it,
    /// and the key with the set bit there is the larger one.
    proof fn lemma_crit(a: Self, b: Self)
        requires
            a != b,
        ensures
            a.crit(b).index() < Self::width(),
            a.bit(a.crit(b).index()) != b.bit(a.crit(b).index()),
            forall|i: nat| i < a.crit(b).index() ==> a.bit(i) == b.bit(i),
            a.index() < b.index() <==> b.bit(a.crit(b).index()),
    ;

    /// Tests the bit at the position that `pos` denotes, taken modulo the
    /// width: the key is rotated left by that many bits, and the bit is set
    /// where the rotated key has no leading zero.
    fn test_bit(&self, pos: &Self) -> (b: bool)
        ensures
            b == self.bit(pos.index() % Self::width()),
    ;

    /// Computes the critical bit of two different keys: the number of leading
    /// zeros of their exclusive or.
    fn critical_bit(&self, other: &Self) -> (c: Self)
        requires
            *self != *other,
        ensures
            c == self.crit(*other),
    ;

    /// Whether the key, taken as a position, lies within the width.
    fn in_width(&self) -> (b: bool)
        ensures
            b == (self.index() < Self::width()),
    ;

    /// Equality of keys.
    fn same(&self, other: &Self) -> (b: bool)
        ensures
            b == (*self == *other),
    ;

    /// Numeric order of keys.
    fn below(&self, other: &Self) -> (b: bool)
        ensures
            b == (self.index() < other.index()),
    ;
}

/// The value of the bit of `value` at position `pos`, counted from the most
/// significant bit; `pos` is taken modulo the width of the key.
pub fn bit_at<T: BitKey>(value: &T, pos: &T) -> (b: bool)
    ensures
        b == value.bit(pos.index() % T::width()),
{
    value.test_bit(pos)
}

} // verus!
