//! Order and equality of binary64 numbers, read off their bit patterns.
//!
//! A number is carried as the 64 bits of its binary64 encoding: one sign bit,
//! eleven exponent bits, fifty-two fraction bits. Nothing here computes with
//! numbers; the functions only compare them, and they compare as the numbers
//! do: the two zeros are equal, and a NaN is neither below, above nor equal
//! to anything, itself included.
use vstd::prelude::*;

verus! {

/// The bit pattern of `+0.0`.
pub const ZERO: u64 = 0;

/// The bit pattern of `1.0`.
pub const ONE: u64 = 0x3FF0_0000_0000_0000;

/// The sign bit; alone it is the bit pattern of `-0.0`.
pub const SIGN: u64 = 0x8000_0000_0000_0000;

/// The bit pattern of positive infinity, the largest magnitude that is a number.
pub const INFINITY: u64 = 0x7FF0_0000_0000_0000;

/// The pattern without its sign bit.
pub open spec fn magnitude(x: u64) -> int {
    if x >= SIGN {
        x - SIGN
    } else {
        x as int
    }
}

/// Whether the pattern encodes a NaN: all exponent bits set and a fraction
/// that is not zero.
pub open spec fn spec_is_nan(x: u64) -> bool {
    magnitude(x) > INFINITY
}

/// The place of a number on the number line: patterns of numbers that are not
/// NaN are ordered as their ranks are. Both zeros have rank 0.
pub open spec fn rank(x: u64) -> int {
    if x >= SIGN {
        -magnitude(x)
    } else {
        magnitude(x)
    }
}

/// `a < b` as binary64 numbers.
pub open spec fn spec_less(a: u64, b: u64) -> bool {
    !spec_is_nan(a) && !spec_is_nan(b) && rank(a) < rank(b)
}

/// `a > b` as binary64 numbers.
pub open spec fn spec_greater(a: u64, b: u64) -> bool {
    !spec_is_nan(a) && !spec_is_nan(b) && rank(a) > rank(b)
}

/// `a >= b` as binary64 numbers.
pub open spec fn spec_at_least(a: u64, b: u64) -> bool {
    !spec_is_nan(a) && !spec_is_nan(b) && rank(a) >= rank(b)
}

/// `a <= b` as binary64 numbers.
pub open spec fn spec_at_most(a: u64, b: u64) -> bool {
    !spec_is_nan(a) && !spec_is_nan(b) && rank(a) <= rank(b)
}

/// `a == b` as binary64 numbers.
pub open spec fn spec_equal(a: u64, b: u64) -> bool {
    !spec_is_nan(a) && !spec_is_nan(b) && rank(a) == rank(b)
}

/// Tells whether `x` encodes a NaN.
#[verifier::when_used_as_spec(spec_is_nan)]
pub fn is_nan(x: u64) -> (r: bool)
    ensures
        r == spec_is_nan(x),
{
    if x >= SIGN {
        x - SIGN > INFINITY
    } else {
        x > INFINITY
    }
}

/// The rank of `x` as a machine integer.
fn rank_of(x: u64) -> (r: i128)
    ensures
        r == rank(x),
{
    if x >= SIGN {
        let m: u64 = x - SIGN;
        -(m as i128)
    } else {
        x as i128
    }
}

/// Tells whether `a < b` as binary64 numbers.
#[verifier::when_used_as_spec(spec_less)]
pub fn less(a: u64, b: u64) -> (r: bool)
    ensures
        r == spec_less(a, b),
{
    !is_nan(a) && !is_nan(b) && rank_of(a) < rank_of(b)
}

/// Tells whether `a > b` as binary64 numbers.
#[verifier::when_used_as_spec(spec_greater)]
pub fn greater(a: u64, b: u64) -> (r: bool)
    ensures
        r == spec_greater(a, b),
{
    !is_nan(a) && !is_nan(b) && rank_of(a) > rank_of(b)
}

/// Tells whether `a >= b` as binary64 numbers.
#[verifier::when_used_as_spec(spec_at_least)]
pub fn at_least(a: u64, b: u64) -> (r: bool)
    ensures
        r == spec_at_least(a, b),
{
    !is_nan(a) && !is_nan(b) && rank_of(a) >= rank_of(b)
}

/// Tells whether `a <= b` as binary64 numbers.
#[verifier::when_used_as_spec(spec_at_most)]
pub fn at_most(a: u64, b: u64) -> (r: bool)
    ensures
        r == spec_at_most(a, b),
{
    !is_nan(a) && !is_nan(b) && rank_of(a) <= rank_of(b)
}

/// Tells whether `a == b` as binary64 numbers.
#[verifier::when_used_as_spec(spec_equal)]
pub fn equal(a: u64, b: u64) -> (r: bool)
    ensures
        r == spec_equal(a, b),
{
    !is_nan(a) && !is_nan(b) && rank_of(a) == rank_of(b)
}

} // verus!
