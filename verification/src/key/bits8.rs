//! Keys of 8 bits.

use crate::key::BitKey;
use vstd::prelude::*;
use vstd::std_specs::bits::{axiom_u8_leading_zeros, u8_leading_zeros};

verus! {

/// After a rotation to the left by `p` bits the bit at position `p` leads.
proof fn lemma_u8_top_bit(v: u8, p: u8, r: u8, l: u8)
    by (bit_vector)
    requires
        p < 8,
        r == (if p == 0 {
            v
        } else {
            (v << p) | (v >> ((8 - p) as u8))
        }),
        l <= 8,
        l < 8 ==> (r >> ((7 - l) as u8)) & 1u8 != 0u8,
        r >> ((8 - l) as u8) == 0,
    ensures
        l == 0 <==> (v >> ((7 - p) as u8)) & 1u8 == 1u8,
{
}

/// If `x`, the exclusive or of `a` and `b`, has `l` leading zeros, `a` and
/// `b` agree before position `l` and differ at it, and the larger has the bit.
proof fn lemma_u8_first_difference(a: u8, b: u8, x: u8, l: u8)
    by (bit_vector)
    requires
        x == a ^ b,
        l < 8,
        (x >> ((7 - l) as u8)) & 1u8 != 0u8,
        x >> ((8 - l) as u8) == 0,
    ensures
        ((a >> ((7 - l) as u8)) & 1u8 == 1u8) != ((b >> ((7 - l) as u8)) & 1u8 == 1u8),
        a < b <==> (b >> ((7 - l) as u8)) & 1u8 == 1u8,
        forall|j: u8| 8 - l <= j < 8 ==> ((a >> j) & 1u8 == 1u8) == ((b >> j) & 1u8 == 1u8),
{
}

/// Two keys whose exclusive or is zero are equal.
proof fn lemma_u8_xor_zero(a: u8, b: u8)
    by (bit_vector)
    ensures
        a ^ b == 0 ==> a == b,
{
}

impl BitKey for u8 {
    open spec fn width() -> nat {
        8
    }

    open spec fn index(self) -> nat {
        self as nat
    }

    open spec fn bit(self, pos: nat) -> bool {
        pos < 8 && (self >> ((7 - pos) as u8)) & 1u8 == 1u8
    }

    open spec fn crit(self, other: u8) -> u8 {
        u8_leading_zeros(self ^ other) as u8
    }

    proof fn lemma_crit(a: u8, b: u8) {
        let x = a ^ b;
        let l = u8_leading_zeros(x) as u8;
        axiom_u8_leading_zeros(x);
        lemma_u8_xor_zero(a, b);
        lemma_u8_first_difference(a, b, x, l);
    }

    fn test_bit(&self, pos: &u8) -> (b: bool) {
        let turn: u8 = *pos % 8;
        let rotated: u8 = if turn == 0 {
            *self
        } else {
            (*self << turn) | (*self >> (8 - turn))
        };
        let zeros: u32 = rotated.leading_zeros();
        proof {
            axiom_u8_leading_zeros(rotated);
            lemma_u8_top_bit(*self, turn, rotated, zeros as u8);
        }
        zeros == 0
    }

    fn critical_bit(&self, other: &u8) -> (c: u8) {
        proof {
            axiom_u8_leading_zeros(*self ^ *other);
        }
        (*self ^ *other).leading_zeros() as u8
    }

    fn in_width(&self) -> (b: bool) {
        *self < 8
    }

    fn same(&self, other: &u8) -> (b: bool) {
        *self == *other
    }

    fn below(&self, other: &u8) -> (b: bool) {
        *self < *other
    }
}

} // verus!
