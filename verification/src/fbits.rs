//! Bit-level model of 64-bit IEEE-754 values.
//!
//! Statistic samples are carried through the library as the raw bit
//! patterns of 64-bit IEEE-754 doubles.  That keeps every comparison and
//! every ordering argument inside integer arithmetic: a pattern is a NaN
//! exactly when its exponent field is all ones and its fraction field is
//! non-zero, and the remaining patterns are ordered by the standard
//! monotone key (negative patterns reversed by complement, non-negative
//! patterns offset past them).  On non-NaN patterns that key order agrees
//! with the usual ordering of the encoded values, with the one refinement
//! that the negative zero pattern sorts immediately before the positive
//! zero pattern.

use vstd::prelude::*;

verus! {

/// Sign bit of a 64-bit IEEE-754 pattern.
pub const SIGN_BIT: u64 = 0x8000_0000_0000_0000;

/// Exponent field of a 64-bit IEEE-754 pattern.
pub const EXP_MASK: u64 = 0x7ff0_0000_0000_0000;

/// Fraction field of a 64-bit IEEE-754 pattern.
pub const FRAC_MASK: u64 = 0x000f_ffff_ffff_ffff;

/// The pattern of positive infinity.
pub const POS_INF_BITS: u64 = 0x7ff0_0000_0000_0000;

/// The pattern of negative infinity.
pub const NEG_INF_BITS: u64 = 0xfff0_0000_0000_0000;

/// True when the pattern encodes a NaN: exponent all ones, fraction non-zero.
pub open spec fn is_nan_bits(b: u64) -> bool {
    b & EXP_MASK == EXP_MASK && b & FRAC_MASK != 0
}

/// The monotone sort key of a pattern: complements negative patterns so
/// that larger magnitudes sort first, and offsets non-negative patterns
/// above all of them.
pub open spec fn order_key(b: u64) -> u64 {
    if b & SIGN_BIT == SIGN_BIT {
        !b
    } else {
        b ^ SIGN_BIT
    }
}

/// Key order: `a` sorts no later than `b`.
pub open spec fn le_bits(a: u64, b: u64) -> bool {
    order_key(a) <= order_key(b)
}

/// Strict key order: `a` sorts strictly before `b`.
pub open spec fn lt_bits(a: u64, b: u64) -> bool {
    order_key(a) < order_key(b)
}

/// The key order tells two patterns apart: equal keys mean equal patterns.
pub proof fn lemma_order_key_injective(a: u64, b: u64)
    requires
        order_key(a) == order_key(b),
    ensures
        a == b,
{
    assert(!a == !b ==> a == b) by (bit_vector);
    assert(a ^ 0x8000_0000_0000_0000u64 == b ^ 0x8000_0000_0000_0000u64 ==> a == b)
        by (bit_vector);
    assert(a & 0x8000_0000_0000_0000u64 == 0x8000_0000_0000_0000u64
        && b & 0x8000_0000_0000_0000u64 != 0x8000_0000_0000_0000u64
        ==> !a != b ^ 0x8000_0000_0000_0000u64) by (bit_vector);
    assert(b & 0x8000_0000_0000_0000u64 == 0x8000_0000_0000_0000u64
        && a & 0x8000_0000_0000_0000u64 != 0x8000_0000_0000_0000u64
        ==> !b != a ^ 0x8000_0000_0000_0000u64) by (bit_vector);
}

/// Runtime NaN test on a pattern.
pub fn nan_bits(b: u64) -> (r: bool)
    ensures
        r == is_nan_bits(b),
{
    b & EXP_MASK == EXP_MASK && b & FRAC_MASK != 0
}

/// Runtime sort key of a pattern.
pub fn key_of(b: u64) -> (r: u64)
    ensures
        r == order_key(b),
{
    if b & SIGN_BIT == SIGN_BIT {
        !b
    } else {
        b ^ SIGN_BIT
    }
}

/// Runtime strict key-order comparison.
pub fn lt_of(a: u64, b: u64) -> (r: bool)
    ensures
        r == lt_bits(a, b),
{
    key_of(a) < key_of(b)
}

} // verus!
