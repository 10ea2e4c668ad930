//! Keys of 128 bits. Their leading zeros are counted half by half.

use crate::key::BitKey;
use vstd::prelude::*;
use vstd::std_specs::bits::{axiom_u64_leading_zeros, u64_leading_zeros};

verus! {

/// The upper 64 bits of a 128-bit key.
pub open spec fn upper_half(x: u128) -> u64 {
    (x >> 64) as u64
}

/// The lower 64 bits of a 128-bit key.
pub open spec fn lower_half(x: u128) -> u64 {
    (x & 0xffff_ffff_ffff_ffff) as u64
}

/// The number of leading zeros of a 128-bit key: those of its upper half,
/// and where that is zero, those of its lower half after it.
pub open spec fn u128_leading_zeros(x: u128) -> nat {
    if upper_half(x) != 0 {
        u64_leading_zeros(upper_half(x)) as nat
    } else {
        (64 + u64_leading_zeros(lower_half(x))) as nat
    }
}

/// What the leading zeros of the two halves say of the whole key.
proof fn lemma_u128_in_halves(x: u128, hi: u64, lo: u64, nh: u64, nl: u64, n: u128)
    by (bit_vector)
    requires
        hi == (x >> 64) as u64,
        lo == (x & 0xffff_ffff_ffff_ffff) as u64,
        nh <= 64,
        nh < 64 ==> (hi >> ((63 - nh) as u64)) & 1u64 != 0u64,
        hi >> ((64 - nh) as u64) == 0,
        hi == 0 <==> nh == 64,
        nl <= 64,
        nl < 64 ==> (lo >> ((63 - nl) as u64)) & 1u64 != 0u64,
        lo >> ((64 - nl) as u64) == 0,
        lo == 0 <==> nl == 64,
        n == (if hi != 0 {
            nh as u128
        } else {
            (64 + nl) as u128
        }),
    ensures
        n <= 128,
        x == 0 <==> n == 128,
        n < 128 ==> (x >> ((127 - n) as u128)) & 1u128 != 0u128,
        x >> ((128 - n) as u128) == 0,
{
}

/// Each half of a 128-bit key fits in 64 bits.
proof fn lemma_u128_halves_fit(x: u128)
    by (bit_vector)
    ensures
        x >> 64 <= 0xffff_ffff_ffff_ffff,
        x & 0xffff_ffff_ffff_ffff <= 0xffff_ffff_ffff_ffff,
{
}

/// The facts about the leading zeros of a 128-bit key.
proof fn lemma_u128_leading_zeros(x: u128)
    ensures
        u128_leading_zeros(x) <= 128,
        x == 0 <==> u128_leading_zeros(x) == 128,
        u128_leading_zeros(x) < 128 ==> (x >> ((127 - u128_leading_zeros(x)) as u128)) & 1u128
            != 0u128,
        x >> ((128 - u128_leading_zeros(x)) as u128) == 0,
{
    let hi = upper_half(x);
    let lo = lower_half(x);
    axiom_u64_leading_zeros(hi);
    axiom_u64_leading_zeros(lo);
    lemma_u128_in_halves(
        x,
        hi,
        lo,
        u64_leading_zeros(hi) as u64,
        u64_leading_zeros(lo) as u64,
        u128_leading_zeros(x) as u128,
    );
}

/// Counts the leading zeros of a 128-bit key, half by half.
fn count_leading_zeros_u128(x: u128) -> (n: u32)
    ensures
        n == u128_leading_zeros(x),
        n <= 128,
{
    proof {
        lemma_u128_halves_fit(x);
        axiom_u64_leading_zeros(upper_half(x));
        axiom_u64_leading_zeros(lower_half(x));
    }
    let hi: u64 = (x >> 64) as u64;
    let lo: u64 = (x & 0xffff_ffff_ffff_ffff) as u64;
    if hi != 0 {
        hi.leading_zeros()
    } else {
        64 + lo.leading_zeros()
    }
}

/// After a rotation to the left by `p` bits the bit at position `p` leads.
proof fn lemma_u128_top_bit(v: u128, p: u128, r: u128, l: u128)
    by (bit_vector)
    requires
        p < 128,
        r == (if p == 0 {
            v
        } else {
            (v << p) | (v >> ((128 - p) as u128))
        }),
        l <= 128,
        l < 128 ==> (r >> ((127 - l) as u128)) & 1u128 != 0u128,
        r >> ((128 - l) as u128) == 0,
    ensures
        l == 0 <==> (v >> ((127 - p) as u128)) & 1u128 == 1u128,
{
}

/// If `x`, the exclusive or of `a` and `b`, has `l` leading zeros, `a` and
/// `b` agree before position `l` and differ at it, and the larger has the bit.
proof fn lemma_u128_first_difference(a: u128, b: u128, x: u128, l: u128)
    by (bit_vector)
    requires
        x == a ^ b,
        l < 128,
        (x >> ((127 - l) as u128)) & 1u128 != 0u128,
        x >> ((128 - l) as u128) == 0,
    ensures
        ((a >> ((127 - l) as u128)) & 1u128 == 1u128) != ((b >> ((127 - l) as u128)) & 1u128
            == 1u128),
        a < b <==> (b >> ((127 - l) as u128)) & 1u128 == 1u128,
        forall|j: u128|
            128 - l <= j < 128 ==> ((a >> j) & 1u128 == 1u128) == ((b >> j) & 1u128 == 1u128),
{
}

/// Two keys whose exclusive or is zero are equal.
proof fn lemma_u128_xor_zero(a: u128, b: u128)
    by (bit_vector)
    ensures
        a ^ b == 0 ==> a == b,
{
}

impl BitKey for u128 {
    open spec fn width() -> nat {
        128
    }

    open spec fn index(self) -> nat {
        self as nat
    }

    open spec fn bit(self, pos: nat) -> bool {
        pos < 128 && (self >> ((127 - pos) as u128)) & 1u128 == 1u128
    }

    open spec fn crit(self, other: u128) -> u128 {
        u128_leading_zeros(self ^ other) as u128
    }

    proof fn lemma_crit(a: u128, b: u128) {
        let x = a ^ b;
        let l = u128_leading_zeros(x) as u128;
        lemma_u128_leading_zeros(x);
        lemma_u128_xor_zero(a, b);
        lemma_u128_first_difference(a, b, x, l);
    }

    fn test_bit(&self, pos: &u128) -> (b: bool) {
        let turn: u128 = *pos % 128;
        let rotated: u128 = if turn == 0 {
            *self
        } else {
            (*self << turn) | (*self >> (128 - turn))
        };
        let zeros: u32 = count_leading_zeros_u128(rotated);
        proof {
            lemma_u128_leading_zeros(rotated);
            lemma_u128_top_bit(*self, turn, rotated, zeros as u128);
        }
        zeros == 0
    }

    fn critical_bit(&self, other: &u128) -> (c: u128) {
        count_leading_zeros_u128(*self ^ *other) as u128
    }

    fn in_width(&self) -> (b: bool) {
        *self < 128
    }

    fn same(&self, other: &u128) -> (b: bool) {
        *self == *other
    }

    fn below(&self, other: &u128) -> (b: bool) {
        *self < *other
    }
}

} // verus!
