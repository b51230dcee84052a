//! Geometric validity and spatial predicates.
//!
//! Coordinate arithmetic — sums of positions and extents, products of
//! extents, distances — is floating-point work and is performed by the
//! unverified shell around this crate.  What is decided about the results
//! is decided here: whether a size is valid, whether a point lies within
//! a rectangle's edges, whether two rectangles' closed spans overlap, and
//! whether a divisor has a zero component.  The shell hands the bit
//! patterns of the numbers it computed to these functions and acts on the
//! answers.

use vstd::prelude::*;

use crate::fbits::ZERO_BITS;
use crate::fbits::is_zero_val;
use crate::fbits::le_bits;
use crate::fbits::le_val;
use crate::fbits::lt_bits;
use crate::fbits::lt_val;
use crate::fbits::zero_bits;

verus! {

/// The extent of a rectangle: width and height, as scalar bit patterns.
///
/// No invariant is enforced at construction; negative or NaN extents are
/// simply reported by [`Size::is_valid`], and only a valid size has an
/// area.
#[derive(Clone, Copy, Debug, PartialEq, Eq, Structural)]
pub struct Size {
    /// Width of a rectangle.
    pub width: u32,

    /// Height of a rectangle.
    pub height: u32,
}

impl Size {
    /// A size with the given width and height, kept as they are.
    pub fn new(width: u32, height: u32) -> (s: Size)
        ensures
            s.width == width,
            s.height == height,
    {
        Size { width, height }
    }

    /// The size with zero width and height.
    pub fn zero() -> (s: Size)
        ensures
            s.width == ZERO_BITS,
            s.height == ZERO_BITS,
    {
        Size { width: ZERO_BITS, height: ZERO_BITS }
    }

    /// Whether both extents are at least zero.  A NaN extent is not, so
    /// it makes the size invalid; a negative zero extent is zero and
    /// keeps it valid.
    pub fn is_valid(&self) -> (r: bool)
        ensures
            r == (le_val(ZERO_BITS, self.width) && le_val(ZERO_BITS, self.height)),
    {
        le_bits(ZERO_BITS, self.width) && le_bits(ZERO_BITS, self.height)
    }

    /// Whether both extents are strictly above zero.
    pub fn is_positive(&self) -> (r: bool)
        ensures
            r == (lt_val(ZERO_BITS, self.width) && lt_val(ZERO_BITS, self.height)),
    {
        lt_bits(ZERO_BITS, self.width) && lt_bits(ZERO_BITS, self.height)
    }
}

/// Whether a point lies within the closed rectangle spanned by the four
/// edges; a point exactly on an edge counts as contained.  The edges are
/// the rectangle's derived bounds (left, top, left plus width, top plus
/// height), computed by the caller.
pub fn edges_contain_point(left: u32, top: u32, right: u32, bottom: u32, px: u32, py: u32) -> (r:
    bool)
    ensures
        r == (le_val(left, px) && le_val(px, right) && le_val(py, bottom) && le_val(top, py)),
{
    le_bits(left, px) && le_bits(px, right) && le_bits(py, bottom) && le_bits(top, py)
}

/// Whether two rectangles' closed spans overlap on both axes: rectangles
/// that merely touch count as intersecting, and a rectangle contained in
/// the other counts as intersecting.  Each rectangle is given by its four
/// derived edges.
pub fn edges_intersect(
    left_a: u32,
    top_a: u32,
    right_a: u32,
    bottom_a: u32,
    left_b: u32,
    top_b: u32,
    right_b: u32,
    bottom_b: u32,
) -> (r: bool)
    ensures
        r == (le_val(left_a, right_b) && le_val(left_b, right_a) && le_val(top_a, bottom_b)
            && le_val(top_b, bottom_a)),
{
    le_bits(left_a, right_b) && le_bits(left_b, right_a) && le_bits(top_a, bottom_b) && le_bits(
        top_b,
        bottom_a,
    )
}

/// Whether a component-wise divisor must be rejected: true exactly when
/// one of its two components represents zero (either zero pattern).
/// Division by such a divisor is a fatal precondition violation, and the
/// shell refuses it with an error naming both operands.
pub fn divisor_has_zero_component(x: u32, y: u32) -> (r: bool)
    ensures
        r == (is_zero_val(x) || is_zero_val(y)),
{
    zero_bits(x) || zero_bits(y)
}

} // verus!
