//! Doubles by their bit patterns: which patterns are numbers, and how they are ordered.

use vstd::prelude::*;

verus! {

/// The sign bit of a double.
pub const SIGN: u64 = 0x8000_0000_0000_0000;

/// The bit pattern of infinity: beyond it lie the patterns that are no numbers.
pub const INFINITY: u64 = 0x7FF0_0000_0000_0000;

/// The pattern is a number, an infinite one too.
pub open spec fn is_number(bits: u64) -> bool {
    bits <= INFINITY || SIGN <= bits <= SIGN + INFINITY
}

/// Where a number stands among the others. Positive patterns are in the order of their
/// values, negative ones in the opposite order, and the two zeros stand in one place.
pub open spec fn rank(bits: u64) -> int {
    if bits < SIGN {
        bits as int
    } else {
        SIGN - bits
    }
}

/// The number is the lesser of the two.
pub open spec fn is_less(a: u64, b: u64) -> bool {
    rank(a) < rank(b)
}

/// Whether the pattern is a number.
pub fn number(bits: u64) -> (r: bool)
    ensures
        r == is_number(bits),
{
    bits <= INFINITY || (SIGN <= bits && bits <= SIGN + INFINITY)
}

/// Whether one number is less than another.
pub fn less(a: u64, b: u64) -> (r: bool)
    ensures
        r == is_less(a, b),
{
    if a < SIGN {
        b < SIGN && a < b
    } else if b < SIGN {
        a > SIGN || b > 0
    } else {
        b < a
    }
}

} // verus!
