//! Keys of 64 bits.

use crate::key::BitKey;
use vstd::prelude::*;
use vstd::std_specs::bits::{axiom_u64_leading_zeros, u64_leading_zeros};

verus! {

/// After a rotation to the left by `p` bits the bit at position `p` leads.
proof fn lemma_u64_top_bit(v: u64, p: u64, r: u64, l: u64)
    by (bit_vector)
    requires
        p < 64,
        r == (if p == 0 {
            v
        } else {
            (v << p) | (v >> ((64 - p) as u64))
        }),
        l <= 64,
        l < 64 ==> (r >> ((63 - l) as u64)) & 1u64 != 0u64,
        r >> ((64 - l) as u64) == 0,
    ensures
        l == 0 <==> (v >> ((63 - p) as u64)) & 1u64 == 1u64,
{
}

/// If `x`, the exclusive or of `a` and `b`, has `l` leading zeros, `a` and
/// `b` agree before position `l` and differ at it, and the larger has the bit.
proof fn lemma_u64_first_difference(a: u64, b: u64, x: u64, l: u64)
    by (bit_vector)
    requires
        x == a ^ b,
        l < 64,
        (x >> ((63 - l) as u64)) & 1u64 != 0u64,
        x >> ((64 - l) as u64) == 0,
    ensures
        ((a >> ((63 - l) as u64)) & 1u64 == 1u64) != ((b >> ((63 - l) as u64)) & 1u64 == 1u64),
        a < b <==> (b >> ((63 - l) as u64)) & 1u64 == 1u64,
        forall|j: u64| 64 - l <= j < 64 ==> ((a >> j) & 1u64 == 1u64) == ((b >> j) & 1u64 == 1u64),
{
}

/// Two keys whose exclusive or is zero are equal.
proof fn lemma_u64_xor_zero(a: u64, b: u64)
    by (bit_vector)
    ensures
        a ^ b == 0 ==> a == b,
{
}

impl BitKey for u64 {
    open spec fn width() -> nat {
        64
    }

    open spec fn index(self) -> nat {
        self as nat
    }

    open spec fn bit(self, pos: nat) -> bool {
        pos < 64 && (self >> ((63 - pos) as u64)) & 1u64 == 1u64
    }

    open spec fn crit(self, other: u64) -> u64 {
        u64_leading_zeros(self ^ other) as u64
    }

    proof fn lemma_crit(a: u64, b: u64) {
        let x = a ^ b;
        let l = u64_leading_zeros(x) as u64;
        axiom_u64_leading_zeros(x);
        lemma_u64_xor_zero(a, b);
        lemma_u64_first_difference(a, b, x, l);
    }

    fn test_bit(&self, pos: &u64) -> (b: bool) {
        let turn: u64 = *pos % 64;
        let rotated: u64 = if turn == 0 {
            *self
        } else {
            (*self << turn) | (*self >> (64 - turn))
        };
        let zeros: u32 = rotated.leading_zeros();
        proof {
            axiom_u64_leading_zeros(rotated);
            lemma_u64_top_bit(*self, turn, rotated, zeros as u64);
        }
        zeros == 0
    }

    fn critical_bit(&self, other: &u64) -> (c: u64) {
        proof {
            axiom_u64_leading_zeros(*self ^ *other);
        }
        (*self ^ *other).leading_zeros() as u64
    }

    fn in_width(&self) -> (b: bool) {
        *self < 64
    }

    fn same(&self, other: &u64) -> (b: bool) {
        *self == *other
    }

    fn below(&self, other: &u64) -> (b: bool) {
        *self < *other
    }
}

} // verus!
