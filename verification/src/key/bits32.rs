//! Keys of 32 bits.

use crate::key::BitKey;
use vstd::prelude::*;
use vstd::std_specs::bits::{axiom_u32_leading_zeros, u32_leading_zeros};

verus! {

/// After a rotation to the left by `p` bits the bit at position `p` leads.
proof fn lemma_u32_top_bit(v: u32, p: u32, r: u32, l: u32)
    by (bit_vector)
    requires
        p < 32,
        r == (if p == 0 {
            v
        } else {
            (v << p) | (v >> ((32 - p) as u32))
        }),
        l <= 32,
        l < 32 ==> (r >> ((31 - l) as u32)) & 1u32 != 0u32,
        r >> ((32 - l) as u32) == 0,
    ensures
        l == 0 <==> (v >> ((31 - p) as u32)) & 1u32 == 1u32,
{
}

/// If `x`, the exclusive or of `a` and `b`, has `l` leading zeros, `a` and
/// `b` agree before position `l` and differ at it, and the larger has the bit.
proof fn lemma_u32_first_difference(a: u32, b: u32, x: u32, l: u32)
    by (bit_vector)
    requires
        x == a ^ b,
        l < 32,
        (x >> ((31 - l) as u32)) & 1u32 != 0u32,
        x >> ((32 - l) as u32) == 0,
    ensures
        ((a >> ((31 - l) as u32)) & 1u32 == 1u32) != ((b >> ((31 - l) as u32)) & 1u32 == 1u32),
        a < b <==> (b >> ((31 - l) as u32)) & 1u32 == 1u32,
        forall|j: u32| 32 - l <= j < 32 ==> ((a >> j) & 1u32 == 1u32) == ((b >> j) & 1u32 == 1u32),
{
}

/// Two keys whose exclusive or is zero are equal.
proof fn lemma_u32_xor_zero(a: u32, b: u32)
    by (bit_vector)
    ensures
        a ^ b == 0 ==> a == b,
{
}

impl BitKey for u32 {
    open spec fn width() -> nat {
        32
    }

    open spec fn index(self) -> nat {
        self as nat
    }

    open spec fn bit(self, pos: nat) -> bool {
        pos < 32 && (self >> ((31 - pos) as u32)) & 1u32 == 1u32
    }

    open spec fn crit(self, other: u32) -> u32 {
        u32_leading_zeros(self ^ other) as u32
    }

    proof fn lemma_crit(a: u32, b: u32) {
        let x = a ^ b;
        let l = u32_leading_zeros(x) as u32;
        axiom_u32_leading_zeros(x);
        lemma_u32_xor_zero(a, b);
        lemma_u32_first_difference(a, b, x, l);
    }

    fn test_bit(&self, pos: &u32) -> (b: bool) {
        let turn: u32 = *pos % 32;
        let rotated: u32 = if turn == 0 {
            *self
        } else {
            (*self << turn) | (*self >> (32 - turn))
        };
        let zeros: u32 = rotated.leading_zeros();
        proof {
            axiom_u32_leading_zeros(rotated);
            lemma_u32_top_bit(*self, turn, rotated, zeros as u32);
        }
        zeros == 0
    }

    fn critical_bit(&self, other: &u32) -> (c: u32) {
        proof {
            axiom_u32_leading_zeros(*self ^ *other);
        }
        (*self ^ *other).leading_zeros() as u32
    }

    fn in_width(&self) -> (b: bool) {
        *self < 32
    }

    fn same(&self, other: &u32) -> (b: bool) {
        *self == *other
    }

    fn below(&self, other: &u32) -> (b: bool) {
        *self < *other
    }
}

} // verus!
