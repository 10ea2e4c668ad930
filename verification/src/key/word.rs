//! Keys of the width of a machine word. Their leading zeros are counted in
//! 64 bits, and the bits that a narrower word lacks are taken off.

use crate::key::BitKey;
use vstd::prelude::*;
use vstd::std_specs::bits::{axiom_u64_leading_zeros, u64_leading_zeros};

verus! {

/// The number of leading zeros of a word, in the width of a word.
pub open spec fn usize_leading_zeros(x: usize) -> nat {
    (u64_leading_zeros(x as u64) - (64 - usize::BITS)) as nat
}

/// What the leading zeros of a word, counted in 64 bits, say of the word in
/// its own width.
proof fn lemma_usize_in_u64(x: usize, y: u64, n: u64)
    by (bit_vector)
    requires
        y == x as u64,
        n <= 64,
        n < 64 ==> (y >> ((63 - n) as u64)) & 1u64 != 0u64,
        y >> ((64 - n) as u64) == 0,
        y == 0 <==> n == 64,
    ensures
        n >= 64 - usize::BITS,
        x == 0 <==> n == 64,
        n < 64 ==> (x >> ((63 - n) as usize)) & 1usize != 0usize,
        x >> ((64 - n) as usize) == 0,
{
}

/// After a rotation to the left by `p` bits the bit at position `p` leads.
proof fn lemma_usize_top_bit(v: usize, p: usize, r: usize, n: u64)
    by (bit_vector)
    requires
        p < usize::BITS,
        r == (if p == 0 {
            v
        } else {
            (v << p) | (v >> ((usize::BITS - p) as usize))
        }),
        64 - usize::BITS <= n <= 64,
        n < 64 ==> (r >> ((63 - n) as usize)) & 1usize != 0usize,
        r >> ((64 - n) as usize) == 0,
    ensures
        n == 64 - usize::BITS <==> (v >> ((usize::BITS - 1 - p) as usize)) & 1usize == 1usize,
{
}

/// If `x`, the exclusive or of `a` and `b`, has `l` leading zeros, `a` and
/// `b` agree before position `l` and differ at it, and the larger has the bit.
proof fn lemma_usize_first_difference(a: usize, b: usize, x: usize, l: usize)
    by (bit_vector)
    requires
        x == a ^ b,
        l < usize::BITS,
        (x >> ((usize::BITS - 1 - l) as usize)) & 1usize != 0usize,
        x >> ((usize::BITS - l) as usize) == 0,
    ensures
        ((a >> ((usize::BITS - 1 - l) as usize)) & 1usize == 1usize) != ((b >> ((usize::BITS - 1
            - l) as usize)) & 1usize == 1usize),
        a < b <==> (b >> ((usize::BITS - 1 - l) as usize)) & 1usize == 1usize,
        forall|j: usize|
            usize::BITS - l <= j < usize::BITS ==> ((a >> j) & 1usize == 1usize) == ((b >> j)
                & 1usize == 1usize),
{
}

/// Two keys whose exclusive or is zero are equal.
proof fn lemma_usize_xor_zero(a: usize, b: usize)
    by (bit_vector)
    ensures
        a ^ b == 0 ==> a == b,
{
}

/// Counts the leading zeros of a word.
fn count_leading_zeros_usize(x: usize) -> (n: u32)
    ensures
        n == usize_leading_zeros(x),
        n <= usize::BITS,
{
    let wide: u64 = x as u64;
    proof {
        axiom_u64_leading_zeros(wide);
        lemma_usize_in_u64(x, wide, u64_leading_zeros(wide) as u64);
    }
    wide.leading_zeros() - (64 - usize::BITS)
}

impl BitKey for usize {
    open spec fn width() -> nat {
        usize::BITS as nat
    }

    open spec fn index(self) -> nat {
        self as nat
    }

    open spec fn bit(self, pos: nat) -> bool {
        pos < usize::BITS && (self >> ((usize::BITS - 1 - pos) as usize)) & 1usize == 1usize
    }

    open spec fn crit(self, other: usize) -> usize {
        usize_leading_zeros(self ^ other) as usize
    }

    proof fn lemma_crit(a: usize, b: usize) {
        let x = a ^ b;
        let wide = x as u64;
        let n = u64_leading_zeros(wide) as u64;
        axiom_u64_leading_zeros(wide);
        lemma_usize_in_u64(x, wide, n);
        lemma_usize_xor_zero(a, b);
        let l = usize_leading_zeros(x) as usize;
        lemma_usize_first_difference(a, b, x, l);
    }

    fn test_bit(&self, pos: &usize) -> (b: bool) {
        let turn: usize = *pos % (usize::BITS as usize);
        let rotated: usize = if turn == 0 {
            *self
        } else {
            (*self << turn) | (*self >> (usize::BITS as usize - turn))
        };
        let zeros: u32 = count_leading_zeros_usize(rotated);
        proof {
            let wide = rotated as u64;
            let n = u64_leading_zeros(wide) as u64;
            axiom_u64_leading_zeros(wide);
            lemma_usize_in_u64(rotated, wide, n);
            lemma_usize_top_bit(*self, turn, rotated, n);
        }
        zeros == 0
    }

    fn critical_bit(&self, other: &usize) -> (c: usize) {
        count_leading_zeros_usize(*self ^ *other) as usize
    }

    fn in_width(&self) -> (b: bool) {
        *self < usize::BITS as usize
    }

    fn same(&self, other: &usize) -> (b: bool) {
        *self == *other
    }

    fn below(&self, other: &usize) -> (b: bool) {
        *self < *other
    }
}

} // verus!
