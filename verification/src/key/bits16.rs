//! Keys of 16 bits.

use crate::key::BitKey;
use vstd::prelude::*;
use vstd::std_specs::bits::{axiom_u16_leading_zeros, u16_leading_zeros};

verus! {

/// After a rotation to the left by `p` bits the bit at position `p` leads.
proof fn lemma_u16_top_bit(v: u16, p: u16, r: u16, l: u16)
    by (bit_vector)
    requires
        p < 16,
        r == (if p == 0 {
            v
        } else {
            (v << p) | (v >> ((16 - p) as u16))
        }),
        l <= 16,
        l < 16 ==> (r >> ((15 - l) as u16)) & 1u16 != 0u16,
        r >> ((16 - l) as u16) == 0,
    ensures
        l == 0 <==> (v >> ((15 - p) as u16)) & 1u16 == 1u16,
{
}

/// If `x`, the exclusive or of `a` and `b`, has `l` leading zeros, `a` and
/// `b` agree before position `l` and differ at it, and the larger has the bit.
proof fn lemma_u16_first_difference(a: u16, b: u16, x: u16, l: u16)
    by (bit_vector)
    requires
        x == a ^ b,
        l < 16,
        (x >> ((15 - l) as u16)) & 1u16 != 0u16,
        x >> ((16 - l) as u16) == 0,
    ensures
        ((a >> ((15 - l) as u16)) & 1u16 == 1u16) != ((b >> ((15 - l) as u16)) & 1u16 == 1u16),
        a < b <==> (b >> ((15 - l) as u16)) & 1u16 == 1u16,
        forall|j: u16| 16 - l <= j < 16 ==> ((a >> j) & 1u16 == 1u16) == ((b >> j) & 1u16 == 1u16),
{
}

/// Two keys whose exclusive or is zero are equal.
proof fn lemma_u16_xor_zero(a: u16, b: u16)
    by (bit_vector)
    ensures
        a ^ b == 0 ==> a == b,
{
}

impl BitKey for u16 {
    open spec fn width() -> nat {
        16
    }

    open spec fn index(self) -> nat {
        self as nat
    }

    open spec fn bit(self, pos: nat) -> bool {
        pos < 16 && (self >> ((15 - pos) as u16)) & 1u16 == 1u16
    }

    open spec fn crit(self, other: u16) -> u16 {
        u16_leading_zeros(self ^ other) as u16
    }

    proof fn lemma_crit(a: u16, b: u16) {
        let x = a ^ b;
        let l = u16_leading_zeros(x) as u16;
        axiom_u16_leading_zeros(x);
        lemma_u16_xor_zero(a, b);
        lemma_u16_first_difference(a, b, x, l);
    }

    fn test_bit(&self, pos: &u16) -> (b: bool) {
        let turn: u16 = *pos % 16;
        let rotated: u16 = if turn == 0 {
            *self
        } else {
            (*self << turn) | (*self >> (16 - turn))
        };
        let zeros: u32 = rotated.leading_zeros();
        proof {
            axiom_u16_leading_zeros(rotated);
            lemma_u16_top_bit(*self, turn, rotated, zeros as u16);
        }
        zeros == 0
    }

    fn critical_bit(&self, other: &u16) -> (c: u16) {
        proof {
            axiom_u16_leading_zeros(*self ^ *other);
        }
        (*self ^ *other).leading_zeros() as u16
    }

    fn in_width(&self) -> (b: bool) {
        *self < 16
    }

    fn same(&self, other: &u16) -> (b: bool) {
        *self == *other
    }

    fn below(&self, other: &u16) -> (b: bool) {
        *self < *other
    }
}

} // verus!
