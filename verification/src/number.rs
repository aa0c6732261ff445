//! Order of IEEE 754 binary64 numbers, read from their 64-bit encoding.
//!
//! An encoding has a sign bit, eleven exponent bits and fifty-two fraction
//! bits. Without its sign bit it is the number's magnitude, and magnitudes
//! grow with the numbers they encode. Everything above the encoding of
//! infinity is not a number.

use vstd::prelude::*;

verus! {

/// The sign bit of an encoding.
pub const SIGN_BIT: u64 = 0x8000_0000_0000_0000;

/// The encoding of positive infinity: the largest magnitude that is a number.
pub const INFINITY: u64 = 0x7ff0_0000_0000_0000;

/// The encoding without its sign bit.
pub open spec fn magnitude(bits: u64) -> int {
    if bits >= SIGN_BIT {
        bits - SIGN_BIT
    } else {
        bits as int
    }
}

/// Whether the encoding is not a number.
pub open spec fn nan(bits: u64) -> bool {
    magnitude(bits) > INFINITY
}

/// The place of an encoding in the total order by which scores are ranked:
/// numbers by their size, the two zeros together, and everything that is
/// not a number in one place after positive infinity.
pub open spec fn rank(bits: u64) -> int {
    if nan(bits) {
        INFINITY + 1
    } else if bits >= SIGN_BIT {
        -magnitude(bits)
    } else {
        magnitude(bits)
    }
}

/// Numeric `a < b`: false as soon as either side is not a number.
pub open spec fn less(a: u64, b: u64) -> bool {
    !nan(a) && !nan(b) && rank(a) < rank(b)
}

/// Numeric `a <= b`: false as soon as either side is not a number.
pub open spec fn less_eq(a: u64, b: u64) -> bool {
    !nan(a) && !nan(b) && rank(a) <= rank(b)
}

/// Whether `value` lies in the half-open range from `low` up to `high`.
pub open spec fn within(low: u64, value: u64, high: u64) -> bool {
    less_eq(low, value) && less(value, high)
}

/// The place of an optional score: an absent score comes before every
/// present one.
pub open spec fn value_rank(value: Option<u64>) -> int {
    match value {
        None => -0x8000_0000_0000_0000,
        Some(bits) => rank(bits),
    }
}

pub fn is_nan(bits: u64) -> (r: bool)
    ensures
        r == nan(bits),
{
    let m: u64 = if bits >= SIGN_BIT { bits - SIGN_BIT } else { bits };
    m > INFINITY
}

/// Computes `rank`.
pub fn order_key(bits: u64) -> (key: i64)
    ensures
        key == rank(bits),
{
    if bits >= SIGN_BIT {
        let m: u64 = bits - SIGN_BIT;
        if m > INFINITY {
            0x7ff0_0000_0000_0001
        } else {
            -(m as i64)
        }
    } else if bits > INFINITY {
        0x7ff0_0000_0000_0001
    } else {
        bits as i64
    }
}

/// Computes `value_rank`.
pub fn value_key(value: Option<u64>) -> (key: i64)
    ensures
        key == value_rank(value),
{
    match value {
        None => i64::MIN,
        Some(bits) => order_key(bits),
    }
}

pub fn is_less(a: u64, b: u64) -> (r: bool)
    ensures
        r == less(a, b),
{
    !is_nan(a) && !is_nan(b) && order_key(a) < order_key(b)
}

pub fn is_less_eq(a: u64, b: u64) -> (r: bool)
    ensures
        r == less_eq(a, b),
{
    !is_nan(a) && !is_nan(b) && order_key(a) <= order_key(b)
}

pub fn is_within(low: u64, value: u64, high: u64) -> (r: bool)
    ensures
        r == within(low, value, high),
{
    is_less_eq(low, value) && is_less(value, high)
}

/// The numeric order is irreflexive and transitive, `less_eq` is `less` or
/// equal rank, and a non-empty range has its lower bound below its upper one.
pub proof fn lemma_numeric_order(a: u64, b: u64, c: u64)
    ensures
        !less(a, a),
        less(a, b) && less(b, c) ==> less(a, c),
        less_eq(a, b) && less(b, c) ==> less(a, c),
        less_eq(a, b) <==> less(a, b) || (!nan(a) && !nan(b) && rank(a) == rank(b)),
        within(a, b, c) ==> less(a, c),
{
}

/// The rank orders numbers as they compare, takes the two zeros as one, and
/// puts what is not a number after every number, all of it in one place. An
/// absent score comes before every present one.
pub proof fn lemma_rank_orders_numbers(a: u64, b: u64)
    ensures
        !nan(a) && !nan(b) ==> (less(a, b) <==> rank(a) < rank(b)),
        !nan(a) && !nan(b) ==> (less_eq(a, b) <==> rank(a) <= rank(b)),
        nan(a) && !nan(b) ==> rank(b) < rank(a),
        nan(a) && nan(b) ==> rank(a) == rank(b),
        rank(0) == rank(SIGN_BIT),
        value_rank(None) < value_rank(Some(a)),
        value_rank(Some(a)) == rank(a),
{
}

} // verus!
