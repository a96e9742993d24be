//! Bit-level reasoning about IEEE 754 single-precision values.
//!
//! The decoder produces a probability distribution of single-precision
//! values. The library never computes with such values directly: it
//! carries each one as its 32-bit pattern, classifies NaN patterns, and
//! ranks patterns by a total order that agrees with the usual ordering
//! on all non-NaN values. That is all the decoding policy ever needs.

use vstd::prelude::*;

verus! {

/// Bits of the exponent field of a single-precision value.
pub const EXPONENT_MASK: u32 = 0x7f80_0000;

/// Bits of the mantissa field of a single-precision value.
pub const MANTISSA_MASK: u32 = 0x007f_ffff;

/// The sign bit of a single-precision value.
pub const SIGN_MASK: u32 = 0x8000_0000;

/// A bit pattern encodes NaN exactly when the exponent field is all
/// ones and the mantissa field is not zero.
pub open spec fn is_nan_bits(b: u32) -> bool {
    b & EXPONENT_MASK == EXPONENT_MASK && b & MANTISSA_MASK != 0u32
}

/// Classifies a single-precision bit pattern as NaN.
pub fn is_nan(b: u32) -> (r: bool)
    ensures
        r == is_nan_bits(b),
{
    b & EXPONENT_MASK == EXPONENT_MASK && b & MANTISSA_MASK != 0
}

/// Maps a single-precision bit pattern to a key whose unsigned order
/// agrees with the numeric order of the encoded values wherever neither
/// is NaN: negative values (sign bit set) are complemented, so larger
/// magnitudes rank lower; non-negative values get the sign bit set, so
/// they rank above every negative one.
pub open spec fn order_key(b: u32) -> u32 {
    if b & SIGN_MASK != 0u32 {
        !b
    } else {
        b | SIGN_MASK
    }
}

/// Computes the ranking key of a single-precision bit pattern.
pub fn to_order_key(b: u32) -> (r: u32)
    ensures
        r == order_key(b),
{
    if b & SIGN_MASK != 0 {
        !b
    } else {
        b | SIGN_MASK
    }
}

} // verus!
