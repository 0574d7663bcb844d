//! Facts about `f32` values read from their IEEE-754 bit patterns.

use vstd::prelude::*;

verus! {

/// Bit pattern of the `f32` value positive infinity.
pub const POSITIVE_INFINITY_BITS: u32 = 0x7F80_0000;

/// Bit pattern of the `f32` value negative zero.
pub const NEGATIVE_ZERO_BITS: u32 = 0x8000_0000;

/// The 8-bit exponent field of a bit pattern.
pub open spec fn exponent_field(bits: u32) -> int {
    ((bits / 0x80_0000) % 0x100) as int
}

/// The 23-bit fraction field of a bit pattern.
pub open spec fn fraction_field(bits: u32) -> int {
    (bits % 0x80_0000) as int
}

/// The value is neither infinite nor NaN: its exponent field is not all ones.
pub open spec fn is_finite_bits(bits: u32) -> bool {
    exponent_field(bits) != 0xFF
}

/// The value is a NaN: all-ones exponent and a non-zero fraction.
pub open spec fn is_nan_bits(bits: u32) -> bool {
    exponent_field(bits) == 0xFF && fraction_field(bits) != 0
}

/// The value compares below zero with `<`: the sign bit is set, it is not a
/// negative zero, and it is not a NaN.
pub open spec fn is_below_zero_bits(bits: u32) -> bool {
    bits > NEGATIVE_ZERO_BITS && !is_nan_bits(bits)
}

/// Rank of a bit pattern in the total order of `f32::total_cmp`: negative
/// values (sign bit set) are ranked by their flipped bits below all positive
/// values, which are ranked by their bits.
pub open spec fn total_order_key(bits: u32) -> int {
    if bits >= NEGATIVE_ZERO_BITS {
        0xFFFF_FFFF - bits
    } else {
        bits + 0x8000_0000
    }
}

/// Distinct bit patterns have distinct ranks.
pub proof fn lemma_total_order_key_injective(a: u32, b: u32)
    ensures
        total_order_key(a) == total_order_key(b) <==> a == b,
        0 <= total_order_key(a) <= 0xFFFF_FFFF,
{
}

/// Computes `total_order_key`.
pub fn total_order_key_of(bits: u32) -> (key: u32)
    ensures
        key == total_order_key(bits),
{
    if bits >= NEGATIVE_ZERO_BITS {
        0xFFFF_FFFFu32 - bits
    } else {
        bits + 0x8000_0000u32
    }
}

/// The value is a zero of either sign.
pub open spec fn is_zero_bits(bits: u32) -> bool {
    bits == 0 || bits == NEGATIVE_ZERO_BITS
}

/// `a < b` for the `f32` values with these bit patterns: false when either
/// is a NaN and between two zeros, and otherwise their order in
/// `total_order_key`.
pub open spec fn float_less(a: u32, b: u32) -> bool {
    &&& !is_nan_bits(a)
    &&& !is_nan_bits(b)
    &&& !(is_zero_bits(a) && is_zero_bits(b))
    &&& total_order_key(a) < total_order_key(b)
}

/// Decides `float_less`.
pub fn bits_less(a: u32, b: u32) -> (less: bool)
    ensures
        less == float_less(a, b),
{
    let a_nan = (a / 0x80_0000u32) % 0x100u32 == 0xFFu32 && a % 0x80_0000u32 != 0;
    let b_nan = (b / 0x80_0000u32) % 0x100u32 == 0xFFu32 && b % 0x80_0000u32 != 0;
    let a_zero = a == 0 || a == NEGATIVE_ZERO_BITS;
    let b_zero = b == 0 || b == NEGATIVE_ZERO_BITS;
    !a_nan && !b_nan && !(a_zero && b_zero) && total_order_key_of(a) < total_order_key_of(b)
}

/// Decides `is_finite_bits`.
pub fn bits_are_finite(bits: u32) -> (finite: bool)
    ensures
        finite == is_finite_bits(bits),
{
    (bits / 0x80_0000u32) % 0x100u32 != 0xFFu32
}

/// Decides `is_below_zero_bits`.
pub fn bits_are_below_zero(bits: u32) -> (below: bool)
    ensures
        below == is_below_zero_bits(bits),
{
    let nan = (bits / 0x80_0000u32) % 0x100u32 == 0xFFu32 && bits % 0x80_0000u32 != 0;
    bits > NEGATIVE_ZERO_BITS && !nan
}

} // verus!
