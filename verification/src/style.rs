//! Visual attributes: padding around content and borders around boxes.
//!
//! Both carry non-negative scalar quantities.  Their shared clamp sends
//! NaN and negative inputs to zero and keeps everything else — positive
//! infinity included, which is a legal "fill" padding.

use vstd::prelude::*;

use crate::color::Color;
use crate::fbits::ZERO_BITS;
use crate::fbits::is_nan;
use crate::fbits::key;
use crate::fbits::nan_bits;
use crate::fbits::value_key;

verus! {

/// The clamp every padding side and border width passes through: NaN and
/// negative values become zero, anything else is kept.  Negative zero is
/// not below zero and is kept; positive infinity is kept.
pub open spec fn to_valid(b: u32) -> u32 {
    if is_nan(b) || key(b) < 0 {
        ZERO_BITS
    } else {
        b
    }
}

/// A pattern the clamp can produce: not NaN, and at least zero (positive
/// infinity included).
pub open spec fn is_valid_measure(b: u32) -> bool {
    !is_nan(b) && key(b) >= 0
}

/// The shared clamp, as executable code.
fn to_valid_bits(b: u32) -> (r: u32)
    ensures
        r == to_valid(b),
        is_valid_measure(r),
{
    if nan_bits(b) {
        ZERO_BITS
    } else if value_key(b) < 0 {
        ZERO_BITS
    } else {
        b
    }
}

/// Padding inside a rectangular component: one non-negative quantity per
/// side.
#[derive(Clone, Copy, Debug, PartialEq, Eq, Structural)]
pub struct Padding {
    /// Left padding.
    pub left: u32,

    /// Right padding.
    pub right: u32,

    /// Top padding.
    pub top: u32,

    /// Bottom padding.
    pub bottom: u32,
}

/// All four sides of a padding hold clamped, non-negative quantities.
pub open spec fn padding_valid(p: Padding) -> bool {
    is_valid_measure(p.left) && is_valid_measure(p.right) && is_valid_measure(p.top)
        && is_valid_measure(p.bottom)
}

impl Padding {
    /// A padding with the four given sides, each clamped: NaN and
    /// negative sides become zero, positive infinity is preserved.
    pub fn new(left: u32, right: u32, top: u32, bottom: u32) -> (p: Padding)
        ensures
            p.left == to_valid(left),
            p.right == to_valid(right),
            p.top == to_valid(top),
            p.bottom == to_valid(bottom),
            padding_valid(p),
    {
        Padding {
            left: to_valid_bits(left),
            right: to_valid_bits(right),
            top: to_valid_bits(top),
            bottom: to_valid_bits(bottom),
        }
    }

    /// A padding with all four sides set to the same clamped value.
    pub fn all(value: u32) -> (p: Padding)
        ensures
            p.left == to_valid(value),
            p.right == to_valid(value),
            p.top == to_valid(value),
            p.bottom == to_valid(value),
            padding_valid(p),
    {
        Padding::new(value, value, value, value)
    }

    /// A padding with the horizontal sides set to the clamped value and
    /// the vertical sides zero.
    pub fn horizontal(value: u32) -> (p: Padding)
        ensures
            p.left == to_valid(value),
            p.right == to_valid(value),
            p.top == ZERO_BITS,
            p.bottom == ZERO_BITS,
            padding_valid(p),
    {
        Padding::new(value, value, ZERO_BITS, ZERO_BITS)
    }

    /// A padding with the vertical sides set to the clamped value and
    /// the horizontal sides zero.
    pub fn vertical(value: u32) -> (p: Padding)
        ensures
            p.left == ZERO_BITS,
            p.right == ZERO_BITS,
            p.top == to_valid(value),
            p.bottom == to_valid(value),
            padding_valid(p),
    {
        Padding::new(ZERO_BITS, ZERO_BITS, value, value)
    }

    /// A padding with the horizontal sides set to one clamped value and
    /// the vertical sides to another.
    pub fn symmetric(horizontal: u32, vertical: u32) -> (p: Padding)
        ensures
            p.left == to_valid(horizontal),
            p.right == to_valid(horizontal),
            p.top == to_valid(vertical),
            p.bottom == to_valid(vertical),
            padding_valid(p),
    {
        Padding::new(horizontal, horizontal, vertical, vertical)
    }

    /// The padding with all four sides zero.
    pub fn zero() -> (p: Padding)
        ensures
            p.left == ZERO_BITS,
            p.right == ZERO_BITS,
            p.top == ZERO_BITS,
            p.bottom == ZERO_BITS,
            padding_valid(p),
    {
        Padding::all(ZERO_BITS)
    }
}

/// A border: a non-negative line width and a color.
#[derive(Clone, Copy, Debug, PartialEq, Eq, Structural)]
pub struct Border {
    /// Border line width.
    pub width: u32,

    /// Border line color.
    pub color: Color,
}

/// A border's width holds a clamped, non-negative quantity.
pub open spec fn border_valid(b: Border) -> bool {
    is_valid_measure(b.width)
}

impl Border {
    /// A border with the given width, clamped (NaN and negative widths
    /// become zero), and the given color stored unchanged.
    pub fn new(width: u32, color: Color) -> (b: Border)
        ensures
            b.width == to_valid(width),
            b.color == color,
            border_valid(b),
    {
        let width = to_valid_bits(width);
        Border { width, color }
    }

    /// The empty border: zero width, fully transparent color.
    pub fn none() -> (b: Border)
        ensures
            b.width == ZERO_BITS,
            b.color == (Color {
                r: ZERO_BITS,
                g: ZERO_BITS,
                b: ZERO_BITS,
                a: ZERO_BITS,
            }),
            border_valid(b),
    {
        Border::new(ZERO_BITS, Color::transparent())
    }

    /// A solid border: the same construction as [`Border::new`], kept
    /// for symmetry at the call sites.
    pub fn solid(width: u32, color: Color) -> (b: Border)
        ensures
            b.width == to_valid(width),
            b.color == color,
            border_valid(b),
    {
        Border::new(width, color)
    }
}

} // verus!
