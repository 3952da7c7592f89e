//! Ordering single-precision numbers by their bit patterns.
//!
//! A distance or a score reaches this crate as the 32 bits of an IEEE-754
//! single-precision number. Bit 31 is the sign, the 31 bits below it are the
//! magnitude; magnitudes above that of infinity are not numbers. [`less`] is
//! the order of the numbers themselves: positive and negative zero are equal,
//! and a pattern that is not a number is neither below nor above anything.

use vstd::prelude::*;

verus! {

/// The bit pattern of positive zero.
pub const ZERO: u32 = 0;

/// The bit pattern of one.
pub const ONE: u32 = 0x3f80_0000;

/// The bit pattern of positive infinity.
pub const INFINITY: u32 = 0x7f80_0000;

/// A bit pattern that is not a number.
pub const NOT_A_NUMBER: u32 = 0x7fc0_0000;

/// The pattern with its sign bit cleared.
pub open spec fn magnitude(bits: u32) -> int {
    bits as int % 0x8000_0000
}

/// Whether the sign bit is set.
pub open spec fn negative(bits: u32) -> bool {
    bits >= 0x8000_0000
}

/// Whether the pattern stands for no number at all.
pub open spec fn is_nan(bits: u32) -> bool {
    magnitude(bits) > 0x7f80_0000
}

/// Where a pattern that is a number lies on the line of integers: numbers
/// compare as their places do. Both zeros lie at 0.
pub open spec fn place(bits: u32) -> int {
    if negative(bits) {
        -magnitude(bits)
    } else {
        magnitude(bits)
    }
}

/// Whether `a` is a number strictly below the number `b`. False as soon as
/// either pattern is not a number.
pub open spec fn less(a: u32, b: u32) -> bool {
    !is_nan(a) && !is_nan(b) && place(a) < place(b)
}

/// Whether the pattern is a number from zero to one, sign bit clear.
pub open spec fn in_unit_interval(bits: u32) -> bool {
    bits <= ONE
}

/// Tells whether the pattern stands for no number.
pub fn not_a_number(bits: u32) -> (r: bool)
    ensures
        r == is_nan(bits),
{
    bits % 0x8000_0000 > 0x7f80_0000
}

/// The place of a pattern on the line of integers.
pub fn place_of(bits: u32) -> (p: i64)
    ensures
        p == place(bits),
{
    let m: u32 = bits % 0x8000_0000;
    if bits >= 0x8000_0000 {
        -(m as i64)
    } else {
        m as i64
    }
}

/// Tells whether `a` is a number strictly below the number `b`.
pub fn is_less(a: u32, b: u32) -> (r: bool)
    ensures
        r == less(a, b),
{
    !not_a_number(a) && !not_a_number(b) && place_of(a) < place_of(b)
}

/// Nothing is below itself, and nothing is at once below and above another.
pub proof fn lemma_less_strict(a: u32, b: u32)
    ensures
        !less(a, a),
        less(a, b) ==> !less(b, a),
{
}

/// What is below something that is below a third is below the third.
pub proof fn lemma_less_transitive(a: u32, b: u32, c: u32)
    requires
        less(a, b),
        less(b, c),
    ensures
        less(a, c),
{
}

/// A pattern that is not a number is never below or above anything.
pub proof fn lemma_nan_unordered(a: u32, b: u32)
    requires
        is_nan(a),
    ensures
        !less(a, b),
        !less(b, a),
{
}

/// Two numbers are ordered one way or the other, or lie at the same place.
pub proof fn lemma_numbers_ordered(a: u32, b: u32)
    requires
        !is_nan(a),
        !is_nan(b),
    ensures
        less(a, b) || less(b, a) || place(a) == place(b),
{
}

/// Every number but positive infinity itself is below positive infinity,
/// and every pattern from zero to one, sign bit clear, is a number that is
/// not below zero and not above one.
pub proof fn lemma_bounds(a: u32)
    ensures
        !is_nan(a) && a != INFINITY ==> less(a, INFINITY),
        in_unit_interval(a) ==> !is_nan(a) && !less(a, ZERO) && !less(ONE, a),
        in_unit_interval(a) && a != ONE ==> less(a, ONE),
        in_unit_interval(a) && a != ZERO ==> less(ZERO, a),
{
}

} // verus!
