//! Non-negative double-precision numbers, held as their bit patterns.
//!
//! The scores that this library compares are doubles. It holds each as the integer whose bits
//! are those of the double. For doubles that are neither negative nor NaN the order of the
//! integers is the order of the numbers.

use vstd::prelude::*;

verus! {

/// The bits of 1.0.
pub const ONE: u64 = 0x3ff0000000000000;

/// The bits of positive infinity, the largest pattern of a number that is not negative.
pub const INFINITY: u64 = 0x7ff0000000000000;

/// The bits of 0.3.
pub const THREE_TENTHS: u64 = 0x3fd3333333333333;

/// The bits of 0.6.
pub const SIX_TENTHS: u64 = 0x3fe3333333333333;

/// The bits of 1.2.
pub const SIX_FIFTHS: u64 = 0x3ff3333333333333;

/// Whether `b` is the pattern of a number in the range from 0 to 1.
pub open spec fn is_fraction(b: u64) -> bool {
    b <= ONE
}

/// Whether `b` is the pattern of a number that is at least 1.
pub open spec fn is_factor(b: u64) -> bool {
    ONE <= b <= INFINITY
}

/// The bits of a number brought into the range from 0 to 1. A NaN stays what it is.
#[verifier::allow_in_spec]
pub fn clamp_fraction(b: u64) -> (r: u64)
    returns
        (if b > 0xfff0000000000000 {
            b
        } else if b >= 0x8000000000000000 {
            0
        } else if b > INFINITY {
            b
        } else if b > ONE {
            ONE
        } else {
            b
        }),
{
    if b > 0xfff0000000000000 {
        b
    } else if b >= 0x8000000000000000 {
        0
    } else if b > INFINITY {
        b
    } else if b > ONE {
        ONE
    } else {
        b
    }
}

/// Whether `b` is the pattern of a number greater than 0.
#[verifier::allow_in_spec]
pub fn is_positive(b: u64) -> (r: bool)
    returns
        0 < b && b <= INFINITY,
{
    0 < b && b <= INFINITY
}

} // verus!
