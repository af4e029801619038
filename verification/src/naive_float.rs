//! Numbers that compare with a tolerance.
//!
//! A `NaiveFloat` is an IEEE 754 binary64 number, held as its 64-bit pattern:
//! one sign bit, eleven exponent bits, fifty-two fraction bits. Among numbers
//! of one sign the patterns grow with the magnitude, so the distance between
//! two patterns counts the representable numbers between the two values:
//! their distance in units in the last place (ULPs).
//!
//! Two numbers within `TOLERANCE` ULPs of each other compare equal. This
//! damps the noise of numbers that were printed and read again. It is not
//! transitive: of three numbers spaced two ULPs apart, the outer two differ
//! although each equals the middle one.

use crate::order::reversed;
use core::cmp::Ordering;
use vstd::prelude::*;

verus! {

/// The pattern of negative zero: the sign bit alone.
pub const SIGN_BIT: u64 = 0x8000_0000_0000_0000;

/// The largest distance, in ULPs, at which two numbers still compare equal.
pub const TOLERANCE: u64 = 2;

/// A number, as its binary64 bit pattern.
#[derive(Clone, Copy, Debug)]
pub struct NaiveFloat {
    pub bits: u64,
}

/// The pattern is that of positive or of negative zero.
pub open spec fn is_zero(bits: u64) -> bool {
    bits == 0 || bits == SIGN_BIT
}

/// The pattern's sign bit is clear.
pub open spec fn sign_positive(bits: u64) -> bool {
    bits < SIGN_BIT
}

/// For two patterns of one sign: how many ULPs the first number lies above
/// the second; negative where it lies below.
pub open spec fn ulps_above(a: u64, b: u64) -> int {
    if sign_positive(a) {
        a - b
    } else {
        b - a
    }
}

/// The order of two numbers under the tolerance.
///
/// The two zeros are equal. Otherwise a number with the sign bit clear is
/// greater than any with the sign bit set, and two numbers of one sign are
/// equal within `TOLERANCE` ULPs and ordered by value beyond it.
pub open spec fn approx_order(a: u64, b: u64) -> Ordering {
    if is_zero(a) && is_zero(b) {
        Ordering::Equal
    } else if sign_positive(a) && !sign_positive(b) {
        Ordering::Greater
    } else if !sign_positive(a) && sign_positive(b) {
        Ordering::Less
    } else if ulps_above(a, b) + TOLERANCE < 0 {
        Ordering::Less
    } else if ulps_above(a, b) <= TOLERANCE {
        Ordering::Equal
    } else {
        Ordering::Greater
    }
}

impl NaiveFloat {
    /// The number with the given bit pattern.
    pub fn from_bits(bits: u64) -> (number: NaiveFloat)
        ensures
            number.bits == bits,
    {
        NaiveFloat { bits }
    }

    /// The number's bit pattern.
    pub fn to_bits(&self) -> (bits: u64)
        ensures
            bits == self.bits,
    {
        self.bits
    }

    /// Compares two numbers under the tolerance.
    pub fn cmp(&self, other: &NaiveFloat) -> (order: Ordering)
        ensures
            order == approx_order(self.bits, other.bits),
    {
        let a: u64 = self.bits;
        let b: u64 = other.bits;
        let a_zero = a == 0 || a == SIGN_BIT;
        let b_zero = b == 0 || b == SIGN_BIT;
        let a_positive = a < SIGN_BIT;
        let b_positive = b < SIGN_BIT;
        if a_zero && b_zero {
            Ordering::Equal
        } else if a_positive && !b_positive {
            Ordering::Greater
        } else if !a_positive && b_positive {
            Ordering::Less
        } else {
            // One sign: the patterns themselves are compared, upwards for
            // positive numbers and downwards for negative ones.
            let (high, low) = if a_positive {
                (a, b)
            } else {
                (b, a)
            };
            if high >= low {
                if high - low <= TOLERANCE {
                    Ordering::Equal
                } else {
                    Ordering::Greater
                }
            } else if low - high <= TOLERANCE {
                Ordering::Equal
            } else {
                Ordering::Less
            }
        }
    }
}

impl PartialEq for NaiveFloat {
    /// Equality under the tolerance.
    fn eq(&self, other: &NaiveFloat) -> (equal: bool) {
        matches!(self.cmp(other), Ordering::Equal)
    }
}

impl Eq for NaiveFloat {

}

impl vstd::std_specs::cmp::PartialEqSpecImpl for NaiveFloat {
    open spec fn obeys_eq_spec() -> bool {
        true
    }

    open spec fn eq_spec(&self, other: &NaiveFloat) -> bool {
        approx_order(self.bits, other.bits) is Equal
    }
}

impl PartialOrd for NaiveFloat {
    /// The order under the tolerance; every two numbers have one.
    fn partial_cmp(&self, other: &NaiveFloat) -> (order: Option<Ordering>) {
        Some(self.cmp(other))
    }
}

impl vstd::std_specs::cmp::PartialOrdSpecImpl for NaiveFloat {
    open spec fn obeys_partial_cmp_spec() -> bool {
        true
    }

    open spec fn partial_cmp_spec(&self, other: &NaiveFloat) -> Option<Ordering> {
        Some(approx_order(self.bits, other.bits))
    }
}

/// Swapping the operands reverses the order.
pub proof fn lemma_approx_order_reverses(a: u64, b: u64)
    ensures
        approx_order(b, a) == reversed(approx_order(a, b)),
{
}

/// Numbers of one sign within the tolerance are equal, and beyond it the one
/// of greater value is greater.
pub proof fn lemma_approx_order_by_distance(a: u64, b: u64)
    requires
        sign_positive(a) == sign_positive(b),
    ensures
        0 <= ulps_above(a, b) + TOLERANCE && ulps_above(a, b) <= TOLERANCE ==> approx_order(
            a,
            b,
        ) is Equal,
        ulps_above(a, b) > TOLERANCE ==> approx_order(a, b) is Greater,
        ulps_above(a, b) + TOLERANCE < 0 ==> approx_order(a, b) is Less,
{
}

/// Among numbers of which no two that differ are equal under the tolerance,
/// the order is transitive.
pub proof fn lemma_approx_order_transitive(a: u64, b: u64, c: u64)
    requires
        approx_order(a, b) is Equal ==> a == b,
        approx_order(b, c) is Equal ==> b == c,
        approx_order(a, c) is Equal ==> a == c,
        !(approx_order(a, b) is Greater),
        !(approx_order(b, c) is Greater),
    ensures
        !(approx_order(a, c) is Greater),
{
}

} // verus!
