//! The order of ordinates.
//!
//! An ordinate is an IEEE 754 double, held as its 64 bits. The order of the
//! doubles is the order of their sign and magnitude, read as an integer.

use vstd::prelude::*;

verus! {

/// The sign bit of a double.
pub const SIGN: u64 = 0x8000_0000_0000_0000;

/// The bits of positive infinity. A larger magnitude is no number.
pub const INFINITY: u64 = 0x7ff0_0000_0000_0000;

/// The magnitude of an ordinate: its bits without the sign bit.
pub open spec fn magnitude(bits: u64) -> int {
    if bits >= SIGN {
        bits - SIGN
    } else {
        bits as int
    }
}

/// An integer that is ordered as the ordinate is. It is the same for the two
/// zeros, which are equal as ordinates.
pub open spec fn rank(bits: u64) -> int {
    if bits >= SIGN {
        -magnitude(bits)
    } else {
        magnitude(bits)
    }
}

/// Whether the bits are those of a value that is no number.
pub open spec fn nan(bits: u64) -> bool {
    magnitude(bits) > INFINITY
}

/// Whether the ordinate `a` is less than the ordinate `b`.
pub open spec fn less(a: u64, b: u64) -> bool {
    !nan(a) && !nan(b) && rank(a) < rank(b)
}

/// Whether an ordinate is no number.
pub fn is_nan(bits: u64) -> (r: bool)
    ensures
        r == nan(bits),
{
    if bits >= SIGN {
        bits - SIGN > INFINITY
    } else {
        bits > INFINITY
    }
}

/// Whether the ordinate `a` is less than the ordinate `b`.
pub fn is_less(a: u64, b: u64) -> (r: bool)
    ensures
        r == less(a, b),
{
    if is_nan(a) || is_nan(b) {
        false
    } else if a >= SIGN {
        if b >= SIGN {
            b < a
        } else {
            a > SIGN || b > 0
        }
    } else {
        b < SIGN && a < b
    }
}

/// Ordinates are ordered as IEEE 754 orders doubles. What is no number has all
/// exponent bits and some bit of the fraction set, and is not ordered at all.
/// Positive ordinates are ordered as their bits, negative ones the other way,
/// and a negative one is less than a positive one, the two zeros aside.
pub proof fn law_order_is_that_of_doubles(a: u64, b: u64)
    ensures
        nan(a) <==> a as int % 0x8000_0000_0000_0000 > 0x7ff0_0000_0000_0000,
        nan(a) || nan(b) ==> !less(a, b),
        !nan(a) && !nan(b) && a < 0x8000_0000_0000_0000 && b < 0x8000_0000_0000_0000 ==> (less(a, b)
            <==> a < b),
        !nan(a) && !nan(b) && a >= 0x8000_0000_0000_0000 && b >= 0x8000_0000_0000_0000 ==> (less(
            a,
            b,
        ) <==> b < a),
        !nan(a) && !nan(b) && a >= 0x8000_0000_0000_0000 && b < 0x8000_0000_0000_0000 ==> (less(
            a,
            b,
        ) <==> a != 0x8000_0000_0000_0000 || b != 0),
        !nan(a) && !nan(b) && a < 0x8000_0000_0000_0000 && b >= 0x8000_0000_0000_0000 ==> !less(
            a,
            b,
        ),
        !nan(a) && !nan(b) ==> (less(a, b) <==> rank(a) < rank(b)),
{
}

/// The order is strict, and total but for equal ordinates: two zeros, or the same
/// bits.
pub proof fn law_order_is_strict_and_total(a: u64, b: u64, c: u64)
    ensures
        !less(a, a),
        less(a, b) && less(b, c) ==> less(a, c),
        !nan(a) && !nan(b) && !less(a, b) && !less(b, a) ==> a == b || (a as int
            % 0x8000_0000_0000_0000 == 0 && b as int % 0x8000_0000_0000_0000 == 0),
{
}

} // verus!
