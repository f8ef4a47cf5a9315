//! Lox numbers are IEEE-754 binary64 values, held as their 64-bit patterns.
//!
//! Everything the evaluator has to *decide* about a number (is it zero, is
//! it a NaN, how do two numbers compare) is a question about the sign bit
//! and the 63-bit magnitude, and is answered here on the bit pattern.

use vstd::prelude::*;

verus! {

/// The pattern whose only set bit is the sign.
pub const SIGN: u64 = 0x8000_0000_0000_0000;

/// The magnitude of positive infinity: all exponent bits, no fraction bit.
pub const INFINITY: u64 = 0x7ff0_0000_0000_0000;

/// Whether the sign bit of `b` is set.
pub open spec fn is_negative(b: u64) -> bool {
    b >= SIGN
}

/// The pattern `b` with its sign bit cleared.
pub open spec fn magnitude(b: u64) -> int {
    if b >= SIGN {
        b - SIGN
    } else {
        b as int
    }
}

/// A NaN has every exponent bit set and a fraction that is not zero, so its
/// magnitude lies above that of infinity.
pub open spec fn is_nan(b: u64) -> bool {
    magnitude(b) > INFINITY
}

/// Positive or negative zero.
pub open spec fn is_zero(b: u64) -> bool {
    magnitude(b) == 0
}

/// Position of a number on the real line as far as ordering goes: the
/// magnitude, mirrored for negative patterns. Both zeros sit at 0.
pub open spec fn rank(b: u64) -> int {
    if is_negative(b) {
        -magnitude(b)
    } else {
        magnitude(b)
    }
}

/// IEEE equality: NaN equals nothing, not even itself; the two zeros are equal.
pub open spec fn eq_spec(a: u64, b: u64) -> bool {
    !is_nan(a) && !is_nan(b) && rank(a) == rank(b)
}

/// IEEE `<`: false whenever a NaN takes part.
pub open spec fn lt_spec(a: u64, b: u64) -> bool {
    !is_nan(a) && !is_nan(b) && rank(a) < rank(b)
}

/// The pattern with the sign bit flipped.
pub open spec fn neg_spec(b: u64) -> u64 {
    if b >= SIGN {
        (b - SIGN) as u64
    } else {
        (b + SIGN) as u64
    }
}

pub fn is_nan_bits(b: u64) -> (r: bool)
    ensures
        r == is_nan(b),
{
    let m: u64 = if b >= SIGN { b - SIGN } else { b };
    m > INFINITY
}

pub fn is_zero_bits(b: u64) -> (r: bool)
    ensures
        r == is_zero(b),
{
    b == 0 || b == SIGN
}

pub fn eq_bits(a: u64, b: u64) -> (r: bool)
    ensures
        r == eq_spec(a, b),
{
    if is_nan_bits(a) || is_nan_bits(b) {
        false
    } else {
        a == b || (is_zero_bits(a) && is_zero_bits(b))
    }
}

pub fn lt_bits(a: u64, b: u64) -> (r: bool)
    ensures
        r == lt_spec(a, b),
{
    if is_nan_bits(a) || is_nan_bits(b) {
        false
    } else if a >= SIGN {
        if b >= SIGN {
            a > b
        } else {
            !(a == SIGN && b == 0)
        }
    } else {
        b < SIGN && a < b
    }
}

pub fn neg_bits(b: u64) -> (r: u64)
    ensures
        r == neg_spec(b),
{
    if b >= SIGN {
        b - SIGN
    } else {
        b + SIGN
    }
}

} // verus!
