//! Single-precision scalars as IEEE-754 bit patterns.

use vstd::prelude::*;

verus! {

/// The pattern of `+0.0`.
pub const ZERO_BITS: u32 = 0;

/// The pattern of `1.0`.
pub const ONE_BITS: u32 = 0x3F80_0000;

/// The sign bit; alone it is the pattern of `-0.0`.
pub const SIGN_BIT: u32 = 0x8000_0000;

/// The pattern of `+infinity`; every larger magnitude is a NaN.
pub const INFINITY_BITS: u32 = 0x7F80_0000;

/// The pattern with its sign bit cleared.
pub open spec fn magnitude(bits: u32) -> u32 {
    if bits >= SIGN_BIT {
        (bits - SIGN_BIT) as u32
    } else {
        bits
    }
}

/// Whether the pattern encodes a NaN.
pub open spec fn is_nan(bits: u32) -> bool {
    magnitude(bits) > INFINITY_BITS
}

/// An integer that orders non-NaN patterns as the scalars they encode:
/// both zeros have rank 0, positive scalars rank by magnitude, negative
/// scalars by negated magnitude.
pub open spec fn rank(bits: u32) -> int {
    if bits >= SIGN_BIT {
        -(magnitude(bits) as int)
    } else {
        bits as int
    }
}

/// The scalar order `a < b`: false whenever either side is a NaN.
pub open spec fn precedes(a: u32, b: u32) -> bool {
    !is_nan(a) && !is_nan(b) && rank(a) < rank(b)
}

/// The clamp of a scalar to `[0, 1]`: a NaN and either zero pass through
/// unchanged, negative scalars become `+0.0`, scalars above one become `1.0`.
pub open spec fn unit_clamped(bits: u32) -> u32 {
    if is_nan(bits) {
        bits
    } else if rank(bits) < 0 {
        ZERO_BITS
    } else if rank(bits) > ONE_BITS as int {
        ONE_BITS
    } else {
        bits
    }
}

pub fn scalar_is_nan(bits: u32) -> (nan: bool)
    ensures
        nan == is_nan(bits),
{
    let mag: u32 = if bits >= SIGN_BIT { bits - SIGN_BIT } else { bits };
    mag > INFINITY_BITS
}

pub fn scalar_rank(bits: u32) -> (r: i64)
    ensures
        r == rank(bits),
{
    if bits >= SIGN_BIT {
        let mag: u32 = bits - SIGN_BIT;
        -(mag as i64)
    } else {
        bits as i64
    }
}

/// Scalar `a < b` on bit patterns.
pub fn scalar_less(a: u32, b: u32) -> (less: bool)
    ensures
        less == precedes(a, b),
{
    !scalar_is_nan(a) && !scalar_is_nan(b) && scalar_rank(a) < scalar_rank(b)
}

/// Clamps a scalar to the unit interval.
pub fn clamp_unit(bits: u32) -> (clamped: u32)
    ensures
        clamped == unit_clamped(bits),
        !is_nan(bits) ==> 0 <= rank(clamped) <= ONE_BITS,
{
    if scalar_is_nan(bits) {
        bits
    } else if scalar_rank(bits) < 0 {
        ZERO_BITS
    } else if scalar_rank(bits) > ONE_BITS as i64 {
        ONE_BITS
    } else {
        bits
    }
}

} // verus!
