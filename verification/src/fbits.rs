//! The scalar model: IEEE 754 binary32 values carried as raw `u32` bit
//! patterns.
//!
//! A bit pattern splits into a sign bit, an eight-bit exponent and a
//! twenty-three-bit fraction.  A pattern is NaN exactly when its magnitude
//! (the bits with the sign cleared) exceeds the magnitude of infinity.  For
//! the remaining patterns the represented numbers are ordered exactly like
//! the signed magnitudes of their bit patterns, with the two zero patterns
//! sharing the place zero; [`key`] is that signed magnitude, so comparisons
//! of represented values are integer comparisons of keys.  All comparison
//! and clamping code of this crate is written against [`key`], and the
//! unverified shell converts with `to_bits` / `from_bits` only, so the code
//! that decides is the code proved here.

use vstd::prelude::*;

verus! {

/// Bit pattern of positive zero.
pub const ZERO_BITS: u32 = 0x0000_0000;

/// Bit pattern of negative zero.
pub const NEG_ZERO_BITS: u32 = 0x8000_0000;

/// Bit pattern of one.
pub const ONE_BITS: u32 = 0x3F80_0000;

/// Bit pattern of positive infinity; also the largest non-NaN magnitude.
pub const INF_BITS: u32 = 0x7F80_0000;

/// The magnitude of a pattern: its bits with the sign bit cleared.
pub open spec fn mag(b: u32) -> int {
    (b as int) % 0x8000_0000
}

/// Whether the sign bit is set (negative zero included).
pub open spec fn is_sign_neg(b: u32) -> bool {
    b >= 0x8000_0000
}

/// Whether the pattern is a NaN: magnitude strictly above infinity.
pub open spec fn is_nan(b: u32) -> bool {
    mag(b) > INF_BITS
}

/// Whether the pattern represents the number zero (either zero pattern).
pub open spec fn is_zero_val(b: u32) -> bool {
    mag(b) == 0
}

/// The place of the represented number on the number line: the signed
/// magnitude.  Keys of non-NaN patterns compare exactly as the represented
/// numbers do, and two patterns share a key only when they represent the
/// same number (the two zeros).  Meaningless for NaN patterns.
pub open spec fn key(b: u32) -> int {
    if is_sign_neg(b) {
        -mag(b)
    } else {
        mag(b)
    }
}

/// Strict order on represented values; false whenever either side is NaN.
pub open spec fn lt_val(a: u32, b: u32) -> bool {
    !is_nan(a) && !is_nan(b) && key(a) < key(b)
}

/// Non-strict order on represented values; false whenever either side is
/// NaN.
pub open spec fn le_val(a: u32, b: u32) -> bool {
    !is_nan(a) && !is_nan(b) && key(a) <= key(b)
}

/// The clamp that every color channel passes through: NaN and negative
/// values to zero, values above one to one, anything else kept.  Negative
/// zero is not below zero, so it is kept, as the represented value is zero.
pub open spec fn clamp01(b: u32) -> u32 {
    if is_nan(b) || key(b) < 0 {
        ZERO_BITS
    } else if key(b) > ONE_BITS {
        ONE_BITS
    } else {
        b
    }
}

/// A pattern the clamp can produce: not NaN, and a represented value
/// between zero and one inclusive.
pub open spec fn is_unit(b: u32) -> bool {
    !is_nan(b) && 0 <= key(b) <= ONE_BITS
}

/// The magnitude of a pattern, as executable code.
pub fn magnitude(b: u32) -> (m: u32)
    ensures
        m == mag(b),
{
    if b >= 0x8000_0000 {
        b - 0x8000_0000
    } else {
        b
    }
}

/// Whether the pattern is a NaN.
pub fn nan_bits(b: u32) -> (r: bool)
    ensures
        r == is_nan(b),
{
    magnitude(b) > INF_BITS
}

/// The key of a pattern, as executable code.  The magnitude is below `2^31`,
/// so the signed value fits an `i64`.
pub fn value_key(b: u32) -> (k: i64)
    ensures
        k == key(b),
{
    let m: i64 = magnitude(b) as i64;
    if b >= 0x8000_0000 {
        -m
    } else {
        m
    }
}

/// Non-strict comparison of represented values.
pub fn le_bits(a: u32, b: u32) -> (r: bool)
    ensures
        r == le_val(a, b),
{
    !nan_bits(a) && !nan_bits(b) && value_key(a) <= value_key(b)
}

/// Strict comparison of represented values.
pub fn lt_bits(a: u32, b: u32) -> (r: bool)
    ensures
        r == lt_val(a, b),
{
    !nan_bits(a) && !nan_bits(b) && value_key(a) < value_key(b)
}

/// Whether the pattern represents zero.
pub fn zero_bits(b: u32) -> (r: bool)
    ensures
        r == is_zero_val(b),
{
    magnitude(b) == 0
}

/// The channel clamp, as executable code.
pub fn clamp01_bits(b: u32) -> (r: u32)
    ensures
        r == clamp01(b),
        is_unit(r),
{
    if nan_bits(b) {
        ZERO_BITS
    } else {
        let k: i64 = value_key(b);
        if k < 0 {
            ZERO_BITS
        } else if k > ONE_BITS as i64 {
            ONE_BITS
        } else {
            b
        }
    }
}

} // verus!
