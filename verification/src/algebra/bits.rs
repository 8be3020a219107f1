//! The few facts about binary64 bit patterns that the library relies on.

use vstd::prelude::*;

verus! {

/// Bit pattern of positive zero.
pub const ZERO: u64 = 0;

/// Bit pattern of one: sign 0, biased exponent 1023, fraction 0.
pub const ONE: u64 = 0x3FF0_0000_0000_0000;

/// Lowest pattern whose sign bit is set.
pub const SIGN_BIT: u64 = 0x8000_0000_0000_0000;

/// The sign bit of `bits` is clear. This holds of positive zero and of
/// every quiet or signalling NaN with a clear sign bit as well.
pub open spec fn sign_positive(bits: u64) -> bool {
    bits < SIGN_BIT
}

/// Tests the sign bit of a pattern.
pub fn is_sign_positive(bits: u64) -> (r: bool)
    ensures
        r == sign_positive(bits),
{
    bits < SIGN_BIT
}

} // verus!
