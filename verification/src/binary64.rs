//! IEEE 754 binary64 numbers as bit patterns.
//!
//! A pattern has a sign bit, eleven exponent bits and fifty-two fraction
//! bits. Everything here is integer arithmetic on the pattern: a caller turns
//! a number into its pattern and back without loss.
//!
//! The patterns are ordered by [`order_key`]. That this is the order of the
//! numbers is [`lemma_order_key_orders_numbers`].

use vstd::prelude::*;
use vstd::arithmetic::power2::{
    lemma2_to64, lemma_pow2_pos, lemma_pow2_strictly_increases, lemma_pow2_unfold, pow2,
};

verus! {

/// The pattern in which only the sign bit is set (negative zero).
pub const SIGN_BIT: u64 = 0x8000_0000_0000_0000;

/// The pattern of positive infinity: all exponent bits set, no fraction bit.
pub const INFINITY: u64 = 0x7ff0_0000_0000_0000;

/// The weight of the lowest exponent bit, two to the power 52.
pub const FRACTION_RANGE: u64 = 0x0010_0000_0000_0000;

/// Whether the sign bit is set.
pub open spec fn is_negative(bits: u64) -> bool {
    bits >= SIGN_BIT
}

/// The pattern without its sign bit.
pub open spec fn magnitude(bits: u64) -> u64 {
    if bits >= SIGN_BIT {
        (bits - SIGN_BIT) as u64
    } else {
        bits
    }
}

/// Whether the pattern is not a number: all exponent bits set and some
/// fraction bit too.
pub open spec fn is_nan(bits: u64) -> bool {
    magnitude(bits) > INFINITY
}

/// Whether the pattern is a finite number.
pub open spec fn is_finite(bits: u64) -> bool {
    magnitude(bits) < INFINITY
}

/// An integer that orders the patterns as their numbers are ordered: the
/// magnitude, negated where the sign bit is set. Both zeros have key 0.
pub open spec fn order_key(bits: u64) -> int {
    if is_negative(bits) {
        -(magnitude(bits) as int)
    } else {
        magnitude(bits) as int
    }
}

/// Tells whether `bits` is not a number.
pub fn has_nan_pattern(bits: u64) -> (r: bool)
    ensures
        r == is_nan(bits),
{
    if bits >= SIGN_BIT {
        bits - SIGN_BIT > INFINITY
    } else {
        bits > INFINITY
    }
}

/// Computes the order key of `bits`.
pub fn key_of(bits: u64) -> (key: i64)
    ensures
        key == order_key(bits),
{
    if bits >= SIGN_BIT {
        let m: u64 = bits - SIGN_BIT;
        -(m as i64)
    } else {
        bits as i64
    }
}

/// The exponent bits, read as a number from 0 to 2047.
pub open spec fn exponent_field(bits: u64) -> nat {
    (magnitude(bits) / FRACTION_RANGE) as nat
}

/// The fraction bits, read as a number below two to the power 52.
pub open spec fn fraction_field(bits: u64) -> nat {
    (magnitude(bits) % FRACTION_RANGE) as nat
}

/// The significand as a whole number: the fraction bits, with the implicit
/// leading bit in front of them unless the exponent bits are all zero.
pub open spec fn significand(bits: u64) -> nat {
    if exponent_field(bits) == 0 {
        fraction_field(bits)
    } else {
        FRACTION_RANGE as nat + fraction_field(bits)
    }
}

/// The power of two by which the significand is multiplied, counted from that
/// of the smallest numbers.
pub open spec fn scale(bits: u64) -> nat {
    if exponent_field(bits) == 0 {
        0
    } else {
        (exponent_field(bits) - 1) as nat
    }
}

/// The absolute value of a finite pattern's number, in units of the smallest
/// positive number, two to the power -1074.
pub open spec fn scaled_magnitude(bits: u64) -> nat {
    significand(bits) * pow2(scale(bits))
}

/// The number that a finite pattern stands for, in units of the smallest
/// positive number, two to the power -1074. In these units every finite
/// number is whole.
pub open spec fn scaled_value(bits: u64) -> int {
    if is_negative(bits) {
        -(scaled_magnitude(bits) as int)
    } else {
        scaled_magnitude(bits) as int
    }
}

/// A greater magnitude stands for a greater absolute value.
proof fn lemma_magnitude_orders_absolute_values(a: u64, b: u64)
    requires
        magnitude(a) < magnitude(b),
    ensures
        scaled_magnitude(a) < scaled_magnitude(b),
{
    let range = FRACTION_RANGE as nat;
    let (sig_a, sig_b) = (significand(a), significand(b));
    let (pow_a, pow_b) = (pow2(scale(a)), pow2(scale(b)));
    lemma_pow2_pos(scale(a));
    lemma_pow2_pos(scale(b));
    if exponent_field(a) == exponent_field(b) {
        assert(sig_a * pow_a < sig_b * pow_a) by (nonlinear_arith)
            requires
                sig_a < sig_b,
                pow_a > 0,
        ;
    } else if exponent_field(a) == 0 {
        lemma2_to64();
        assert(sig_a * pow_a == sig_a) by (nonlinear_arith)
            requires
                pow_a == 1,
        ;
        assert(range <= sig_b * pow_b) by (nonlinear_arith)
            requires
                range <= sig_b,
                pow_b >= 1,
        ;
    } else {
        let doubled = pow2(exponent_field(a));
        lemma_pow2_unfold(exponent_field(a));
        if exponent_field(a) < scale(b) {
            lemma_pow2_strictly_increases(exponent_field(a), scale(b));
        }
        assert(sig_a * pow_a < range * doubled) by (nonlinear_arith)
            requires
                sig_a < 2 * range,
                doubled == 2 * pow_a,
                pow_a > 0,
        ;
        assert(range * doubled <= sig_b * pow_b) by (nonlinear_arith)
            requires
                range <= sig_b,
                doubled <= pow_b,
        ;
    }
}

/// Only the two zeros stand for zero.
proof fn lemma_zero_magnitude(a: u64)
    ensures
        scaled_magnitude(a) == 0 <==> magnitude(a) == 0,
{
    let sig = significand(a);
    let pow = pow2(scale(a));
    lemma_pow2_pos(scale(a));
    if magnitude(a) == 0 {
        assert(sig * pow == 0) by (nonlinear_arith)
            requires
                sig == 0,
        ;
    } else {
        assert(sig * pow > 0) by (nonlinear_arith)
            requires
                sig > 0,
                pow > 0,
        ;
    }
}

/// Equal magnitudes stand for equal absolute values, and the other way round.
proof fn lemma_magnitude_decides_absolute_value(a: u64, b: u64)
    ensures
        magnitude(a) < magnitude(b) <==> scaled_magnitude(a) < scaled_magnitude(b),
        magnitude(a) == magnitude(b) <==> scaled_magnitude(a) == scaled_magnitude(b),
{
    if magnitude(a) < magnitude(b) {
        lemma_magnitude_orders_absolute_values(a, b);
    } else if magnitude(b) < magnitude(a) {
        lemma_magnitude_orders_absolute_values(b, a);
    }
}

/// The order keys order the finite patterns as their numbers are ordered:
/// one key is smaller than another exactly if its number is smaller, and two
/// keys are equal exactly if the numbers are. Negative zero and zero are the
/// same number and have the same key.
pub proof fn lemma_order_key_orders_numbers(a: u64, b: u64)
    requires
        is_finite(a),
        is_finite(b),
    ensures
        order_key(a) < order_key(b) <==> scaled_value(a) < scaled_value(b),
        order_key(a) == order_key(b) <==> scaled_value(a) == scaled_value(b),
{
    lemma_magnitude_decides_absolute_value(a, b);
    lemma_zero_magnitude(a);
    lemma_zero_magnitude(b);
}

/// Every finite number lies between the two infinities, and so does its key
/// between theirs.
pub proof fn lemma_infinities_enclose_finite_numbers(a: u64)
    requires
        is_finite(a),
    ensures
        order_key((SIGN_BIT + INFINITY) as u64) < order_key(a) < order_key(INFINITY),
{
}

} // verus!
