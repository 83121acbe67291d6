//! Scores as IEEE-754 binary32 bit patterns, and the integer key that orders them.

use vstd::prelude::*;

verus! {

/// The sign bit of a binary32 value.
pub const SIGN_BIT: u32 = 0x8000_0000;

/// The bit pattern of positive infinity; any larger magnitude is a NaN.
pub const INFINITY_BITS: u32 = 0x7f80_0000;

/// The bit pattern with the sign bit cleared.
pub open spec fn magnitude(bits: u32) -> u32 {
    if bits >= SIGN_BIT {
        (bits - SIGN_BIT) as u32
    } else {
        bits
    }
}

/// The pattern encodes a NaN: all exponent bits set and a non-zero fraction.
pub open spec fn spec_is_nan(bits: u32) -> bool {
    magnitude(bits) > INFINITY_BITS
}

/// The pattern encodes `+0.0` or `-0.0`.
pub open spec fn spec_is_zero(bits: u32) -> bool {
    magnitude(bits) == 0
}

/// An unsigned key whose order is the numeric order of the encoded values:
/// negative values map below `SIGN_BIT`, positive values above it, and both
/// zeros map to `SIGN_BIT` itself, as they compare equal.
pub open spec fn rank_key(bits: u32) -> u32 {
    if bits == SIGN_BIT {
        SIGN_BIT
    } else if bits > SIGN_BIT {
        (u32::MAX - bits) as u32
    } else {
        (bits + SIGN_BIT) as u32
    }
}

/// Whether a score is NaN.
pub fn is_nan(bits: u32) -> (r: bool)
    ensures
        r == spec_is_nan(bits),
{
    let mag: u32 = if bits >= SIGN_BIT {
        bits - SIGN_BIT
    } else {
        bits
    };
    mag > INFINITY_BITS
}

/// Whether a score is zero, of either sign.
pub fn is_zero(bits: u32) -> (r: bool)
    ensures
        r == spec_is_zero(bits),
{
    bits == 0 || bits == SIGN_BIT
}

/// The ordering key of a score.
pub fn order_key(bits: u32) -> (r: u32)
    ensures
        r == rank_key(bits),
{
    if bits == SIGN_BIT {
        SIGN_BIT
    } else if bits > SIGN_BIT {
        u32::MAX - bits
    } else {
        bits + SIGN_BIT
    }
}

/// Keys order signs correctly: every non-zero negative value ranks below
/// both zeros, and every non-zero positive value above them.
pub proof fn lemma_key_orders_signs(neg: u32, zero: u32, pos: u32)
    requires
        neg > SIGN_BIT,
        spec_is_zero(zero),
        0 < pos < SIGN_BIT,
    ensures
        rank_key(neg) < rank_key(zero) < rank_key(pos),
{
}

/// Among values of one sign the key is strictly monotone in the encoded
/// magnitude: larger magnitudes rank higher when positive, lower when negative.
pub proof fn lemma_key_monotone(a: u32, b: u32)
    requires
        magnitude(a) < magnitude(b),
        (a >= SIGN_BIT) == (b >= SIGN_BIT),
    ensures
        a < SIGN_BIT ==> rank_key(a) < rank_key(b),
        a >= SIGN_BIT ==> rank_key(a) > rank_key(b),
{
}

} // verus!
