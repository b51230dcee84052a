//! RGBA color with clamped channels, byte and hex conversion, and string
//! parsing.
//!
//! A color holds four channels — red, green, blue, alpha — each the bit
//! pattern of a scalar between zero and one.  Every constructor clamps or
//! builds its channels, so every color it returns satisfies [`is_unit`] on
//! all four; [`Color::is_valid`] re-checks that as a diagnostic.  The byte
//! form (`0..=255` per channel) is related to the scalar form by the
//! quantization laws of [`crate::quantize`].

use vstd::arithmetic::power2::pow2;
use vstd::math::abs;
use vstd::prelude::*;
use vstd::string::StringSliceAdditionalSpecFns;

use crate::fbits::ONE_BITS;
use crate::fbits::ZERO_BITS;
use crate::fbits::clamp01;
use crate::fbits::clamp01_bits;
use crate::fbits::is_unit;
use crate::fbits::nan_bits;
use crate::fbits::value_key;
use crate::quantize::byte_of_bits;
use crate::quantize::byte_to_channel;
use crate::quantize::channel_of_byte;
use crate::quantize::channel_to_byte;
use crate::quantize::lemma_byte_round_trip;
use crate::quantize::lemma_channel_of_byte_full;
use crate::quantize::lemma_quantization_bound;
use crate::quantize::lemma_unit_round;
use crate::quantize::round_channel;
use crate::quantize::val_scaled;

verus! {

/// An RGBA color: four channel bit patterns, each representing a scalar
/// between zero and one when built by the constructors here.
#[derive(Clone, Copy, Debug, PartialEq, Eq, Structural)]
pub struct Color {
    /// Red channel.
    pub r: u32,

    /// Green channel.
    pub g: u32,

    /// Blue channel.
    pub b: u32,

    /// Alpha (opacity) channel.
    pub a: u32,
}

/// All four channels of a color represent scalars between zero and one.
pub open spec fn color_valid(c: Color) -> bool {
    is_unit(c.r) && is_unit(c.g) && is_unit(c.b) && is_unit(c.a)
}

impl Color {
    /// A color from four scalar channels, each clamped independently:
    /// NaN and negative channels become zero, channels above one become
    /// one, everything else is kept.  Whatever the inputs, the result is
    /// valid.
    pub fn new(r: u32, g: u32, b: u32, a: u32) -> (c: Color)
        ensures
            c.r == clamp01(r),
            c.g == clamp01(g),
            c.b == clamp01(b),
            c.a == clamp01(a),
            color_valid(c),
    {
        Color {
            r: clamp01_bits(r),
            g: clamp01_bits(g),
            b: clamp01_bits(b),
            a: clamp01_bits(a),
        }
    }

    /// An opaque color from three scalar channels, clamped as by
    /// [`Color::new`]; alpha is one.
    pub fn rgb(r: u32, g: u32, b: u32) -> (c: Color)
        ensures
            c.r == clamp01(r),
            c.g == clamp01(g),
            c.b == clamp01(b),
            c.a == ONE_BITS,
            color_valid(c),
    {
        Color::new(r, g, b, ONE_BITS)
    }

    /// A color from four byte channels, each scaled into the unit range
    /// as the pattern nearest to `byte / 255`.  Each channel quantizes
    /// back to exactly the byte it was built from, so byte colors
    /// round-trip without loss.
    pub fn rgba(r: u8, g: u8, b: u8, a: u8) -> (c: Color)
        ensures
            c.r == channel_of_byte(r as int),
            c.g == channel_of_byte(g as int),
            c.b == channel_of_byte(b as int),
            c.a == channel_of_byte(a as int),
            byte_of_bits(c.r) == r as int,
            byte_of_bits(c.g) == g as int,
            byte_of_bits(c.b) == b as int,
            byte_of_bits(c.a) == a as int,
            color_valid(c),
    {
        proof {
            lemma_byte_round_trip(r as int);
            lemma_byte_round_trip(g as int);
            lemma_byte_round_trip(b as int);
            lemma_byte_round_trip(a as int);
        }
        Color {
            r: byte_to_channel(r),
            g: byte_to_channel(g),
            b: byte_to_channel(b),
            a: byte_to_channel(a),
        }
    }

    /// A color from the low three bytes of an integer, read as red,
    /// green, blue from the most significant of the three; alpha is one.
    /// A value above the three-byte range saturates to it (the extra
    /// bits do not wrap), so any overlarge input gives opaque white.
    pub fn from_hex(hex: u32) -> (c: Color)
        ensures
            ({
                let h = if hex > 0xFF_FF_FF {
                    0xFF_FF_FF as int
                } else {
                    hex as int
                };
                &&& c.r == channel_of_byte(byte_at(h, 2))
                &&& c.g == channel_of_byte(byte_at(h, 1))
                &&& c.b == channel_of_byte(byte_at(h, 0))
                &&& c.a == ONE_BITS
                &&& byte_of_bits(c.r) == byte_at(h, 2)
                &&& byte_of_bits(c.g) == byte_at(h, 1)
                &&& byte_of_bits(c.b) == byte_at(h, 0)
                &&& color_valid(c)
            }),
    {
        proof {
            lemma_channel_of_byte_full();
        }
        let h: u32 = if hex > 0xFF_FF_FF {
            0xFF_FF_FF
        } else {
            hex
        };
        Color::rgba(extract_byte(h, 2), extract_byte(h, 1), extract_byte(h, 0), 0xFF)
    }

    /// A color from all four bytes of an integer, read as red, green,
    /// blue, alpha from the most significant byte down.  Every input is
    /// legal.
    pub fn from_hex_alpha(hex: u32) -> (c: Color)
        ensures
            c.r == channel_of_byte(byte_at(hex as int, 3)),
            c.g == channel_of_byte(byte_at(hex as int, 2)),
            c.b == channel_of_byte(byte_at(hex as int, 1)),
            c.a == channel_of_byte(byte_at(hex as int, 0)),
            byte_of_bits(c.r) == byte_at(hex as int, 3),
            byte_of_bits(c.g) == byte_at(hex as int, 2),
            byte_of_bits(c.b) == byte_at(hex as int, 1),
            byte_of_bits(c.a) == byte_at(hex as int, 0),
            color_valid(c),
    {
        Color::rgba(
            extract_byte(hex, 3),
            extract_byte(hex, 2),
            extract_byte(hex, 1),
            extract_byte(hex, 0),
        )
    }

    /// A color parsed from a textual hex form: a number sign, then six
    /// or eight hexadecimal digits read as red, green, blue and
    /// optionally alpha, case-insensitive; with six digits alpha is one.
    /// The checks run in order: a string without the leading number
    /// sign is an invalid format; then any non-digit after it is an
    /// invalid character; then a digit count other than six or eight is
    /// an invalid length.
    pub fn from_hex_str(hex: &str) -> (res: Result<Color, ColorParseError>)
        ensures
            ({
                let bs = hex.spec_bytes();
                let starts = bs.len() >= 1 && bs[0] == 0x23;
                let digits_ok = forall|j: int|
                    1 <= j < bs.len() ==> is_hex_digit(#[trigger] bs[j]);
                let len_ok = bs.len() == 7 || bs.len() == 9;
                &&& (res is Ok) <==> (starts && digits_ok && len_ok)
                &&& !starts ==> res is Err && res->Err_0 == ColorParseError::InvalidFormat
                &&& starts && !digits_ok ==> res is Err && res->Err_0
                    == ColorParseError::InvalidCharacter
                &&& starts && digits_ok && !len_ok ==> res is Err && res->Err_0
                    == ColorParseError::InvalidLength
                &&& res is Ok ==> ({
                    let c = res->Ok_0;
                    &&& c.r == channel_of_byte(hex_pair(bs, 1))
                    &&& c.g == channel_of_byte(hex_pair(bs, 3))
                    &&& c.b == channel_of_byte(hex_pair(bs, 5))
                    &&& c.a == (if bs.len() == 9 {
                        channel_of_byte(hex_pair(bs, 7))
                    } else {
                        ONE_BITS
                    })
                    &&& color_valid(c)
                })
            }),
    {
        let bytes = hex.as_bytes();
        if bytes.len() == 0 || bytes[0] != 0x23 {
            return Err(ColorParseError::InvalidFormat);
        }
        let mut i: usize = 1;
        while i < bytes.len()
            invariant
                bytes@ == hex.spec_bytes(),
                1 <= i <= bytes@.len(),
                bytes@[0] == 0x23,
                forall|j: int| 1 <= j < i ==> is_hex_digit(#[trigger] bytes@[j]),
            decreases bytes@.len() - i,
        {
            if !hex_digit_byte(bytes[i]) {
                return Err(ColorParseError::InvalidCharacter);
            }
            i = i + 1;
        }
        if bytes.len() != 7 && bytes.len() != 9 {
            return Err(ColorParseError::InvalidLength);
        }
        let pr = hex_pair_value(bytes, 1);
        let pg = hex_pair_value(bytes, 3);
        let pb = hex_pair_value(bytes, 5);
        let pa: u8 = if bytes.len() == 9 {
            hex_pair_value(bytes, 7)
        } else {
            0xFF
        };
        proof {
            lemma_channel_of_byte_full();
        }
        Ok(Color::rgba(pr, pg, pb, pa))
    }

    /// A copy with the same red, green and blue channels re-clamped and
    /// the alpha channel replaced by the given scalar, clamped.
    pub fn with_alpha(&self, a: u32) -> (c: Color)
        ensures
            c.r == clamp01(self.r),
            c.g == clamp01(self.g),
            c.b == clamp01(self.b),
            c.a == clamp01(a),
            color_valid(c),
    {
        Color::new(self.r, self.g, self.b, clamp01_bits(a))
    }

    /// Whether all four channels are non-NaN scalars between zero and
    /// one.  Constructors establish this, so it is a diagnostic for
    /// colors whose fields were written directly.
    pub fn is_valid(&self) -> (r: bool)
        ensures
            r == color_valid(*self),
    {
        channel_in_unit(self.r) && channel_in_unit(self.g) && channel_in_unit(self.b)
            && channel_in_unit(self.a)
    }

    /// The byte form of the four channels, each rounded half away from
    /// zero and saturated to the byte range.  On a valid color the trip
    /// back through [`Color::rgba`] moves each channel by less than one
    /// part in two hundred fifty-five.
    pub fn to_rgba_u8(&self) -> (t: (u8, u8, u8, u8))
        ensures
            t.0 as int == byte_of_bits(self.r),
            t.1 as int == byte_of_bits(self.g),
            t.2 as int == byte_of_bits(self.b),
            t.3 as int == byte_of_bits(self.a),
            color_valid(*self) ==> {
                &&& t.0 as int == round_channel(self.r)
                &&& t.1 as int == round_channel(self.g)
                &&& t.2 as int == round_channel(self.b)
                &&& t.3 as int == round_channel(self.a)
            },
    {
        proof {
            if color_valid(*self) {
                lemma_unit_round(self.r);
                lemma_unit_round(self.g);
                lemma_unit_round(self.b);
                lemma_unit_round(self.a);
            }
        }
        (
            channel_to_byte(self.r),
            channel_to_byte(self.g),
            channel_to_byte(self.b),
            channel_to_byte(self.a),
        )
    }

    /// Opaque white.
    pub fn white() -> (c: Color)
        ensures
            c == (Color { r: ONE_BITS, g: ONE_BITS, b: ONE_BITS, a: ONE_BITS }),
            color_valid(c),
    {
        proof {
            lemma_one_is_unit();
        }
        Color { r: ONE_BITS, g: ONE_BITS, b: ONE_BITS, a: ONE_BITS }
    }

    /// Opaque black.
    pub fn black() -> (c: Color)
        ensures
            c == (Color { r: ZERO_BITS, g: ZERO_BITS, b: ZERO_BITS, a: ONE_BITS }),
            color_valid(c),
    {
        proof {
            lemma_one_is_unit();
            lemma_zero_is_unit();
        }
        Color { r: ZERO_BITS, g: ZERO_BITS, b: ZERO_BITS, a: ONE_BITS }
    }

    /// Opaque red.
    pub fn red() -> (c: Color)
        ensures
            c == (Color { r: ONE_BITS, g: ZERO_BITS, b: ZERO_BITS, a: ONE_BITS }),
            color_valid(c),
    {
        proof {
            lemma_one_is_unit();
            lemma_zero_is_unit();
        }
        Color { r: ONE_BITS, g: ZERO_BITS, b: ZERO_BITS, a: ONE_BITS }
    }

    /// Opaque green.
    pub fn green() -> (c: Color)
        ensures
            c == (Color { r: ZERO_BITS, g: ONE_BITS, b: ZERO_BITS, a: ONE_BITS }),
            color_valid(c),
    {
        proof {
            lemma_one_is_unit();
            lemma_zero_is_unit();
        }
        Color { r: ZERO_BITS, g: ONE_BITS, b: ZERO_BITS, a: ONE_BITS }
    }

    /// Opaque blue.
    pub fn blue() -> (c: Color)
        ensures
            c == (Color { r: ZERO_BITS, g: ZERO_BITS, b: ONE_BITS, a: ONE_BITS }),
            color_valid(c),
    {
        proof {
            lemma_one_is_unit();
            lemma_zero_is_unit();
        }
        Color { r: ZERO_BITS, g: ZERO_BITS, b: ONE_BITS, a: ONE_BITS }
    }

    /// Opaque yellow.
    pub fn yellow() -> (c: Color)
        ensures
            c == (Color { r: ONE_BITS, g: ONE_BITS, b: ZERO_BITS, a: ONE_BITS }),
            color_valid(c),
    {
        proof {
            lemma_one_is_unit();
            lemma_zero_is_unit();
        }
        Color { r: ONE_BITS, g: ONE_BITS, b: ZERO_BITS, a: ONE_BITS }
    }

    /// Opaque cyan.
    pub fn cyan() -> (c: Color)
        ensures
            c == (Color { r: ZERO_BITS, g: ONE_BITS, b: ONE_BITS, a: ONE_BITS }),
            color_valid(c),
    {
        proof {
            lemma_one_is_unit();
            lemma_zero_is_unit();
        }
        Color { r: ZERO_BITS, g: ONE_BITS, b: ONE_BITS, a: ONE_BITS }
    }

    /// Opaque magenta.
    pub fn magenta() -> (c: Color)
        ensures
            c == (Color { r: ONE_BITS, g: ZERO_BITS, b: ONE_BITS, a: ONE_BITS }),
            color_valid(c),
    {
        proof {
            lemma_one_is_unit();
            lemma_zero_is_unit();
        }
        Color { r: ONE_BITS, g: ZERO_BITS, b: ONE_BITS, a: ONE_BITS }
    }

    /// Fully transparent: all channels zero, alpha included.
    pub fn transparent() -> (c: Color)
        ensures
            c == (Color { r: ZERO_BITS, g: ZERO_BITS, b: ZERO_BITS, a: ZERO_BITS }),
            color_valid(c),
    {
        proof {
            lemma_zero_is_unit();
        }
        Color { r: ZERO_BITS, g: ZERO_BITS, b: ZERO_BITS, a: ZERO_BITS }
    }
}

/// The quantization law at the color level: rebuilding a valid color
/// from its byte form moves every channel by less than one part in two
/// hundred fifty-five.  The channels of the rebuilt color are the
/// patterns [`Color::rgba`] builds from the bytes [`Color::to_rgba_u8`]
/// returns, and the distances are over the scaled values, in which
/// `pow2(149)` stands for one.
pub proof fn lemma_color_quantization_bound(c: Color)
    requires
        color_valid(c),
    ensures
        255 * abs(val_scaled(channel_of_byte(byte_of_bits(c.r))) - val_scaled(c.r)) < pow2(149),
        255 * abs(val_scaled(channel_of_byte(byte_of_bits(c.g))) - val_scaled(c.g)) < pow2(149),
        255 * abs(val_scaled(channel_of_byte(byte_of_bits(c.b))) - val_scaled(c.b)) < pow2(149),
        255 * abs(val_scaled(channel_of_byte(byte_of_bits(c.a))) - val_scaled(c.a)) < pow2(149),
{
    lemma_quantization_bound(c.r);
    lemma_quantization_bound(c.g);
    lemma_quantization_bound(c.b);
    lemma_quantization_bound(c.a);
}

/// The zero pattern is a unit scalar.
proof fn lemma_zero_is_unit()
    ensures
        is_unit(ZERO_BITS),
{
}

/// The pattern of one is a unit scalar.
proof fn lemma_one_is_unit()
    ensures
        is_unit(ONE_BITS),
{
}

/// Why a textual hex color failed to parse.
#[derive(Clone, Debug, PartialEq, Eq, Structural)]
pub enum ColorParseError {
    /// The digit count after the leading number sign is neither six nor
    /// eight.
    InvalidLength,
    /// The string does not start with a number sign.
    InvalidFormat,
    /// A character after the leading number sign is not a hexadecimal
    /// digit.
    InvalidCharacter,
}

impl ColorParseError {
    /// A short description of the parse failure.
    pub fn message(&self) -> (m: &'static str)
        ensures
            *self is InvalidLength ==> m@ == "Invalid hex string length (expected 7 or 9 characters)"@,
            *self is InvalidFormat ==> m@ == "Invalid hex string format (must start with '#')"@,
            *self is InvalidCharacter ==> m@ == "Invalid hex character (only 0-9, A-F, a-f allowed)"@,
    {
        match self {
            ColorParseError::InvalidLength => "Invalid hex string length (expected 7 or 9 characters)",
            ColorParseError::InvalidFormat => "Invalid hex string format (must start with '#')",
            ColorParseError::InvalidCharacter => "Invalid hex character (only 0-9, A-F, a-f allowed)",
        }
    }
}

/// Whether a byte is an ASCII hexadecimal digit.
pub open spec fn is_hex_digit(c: u8) -> bool {
    (0x30 <= c <= 0x39) || (0x41 <= c <= 0x46) || (0x61 <= c <= 0x66)
}

/// The numeric value of an ASCII hexadecimal digit, case-insensitive;
/// zero for any other byte.
pub open spec fn hex_digit_val(c: u8) -> int {
    if 0x30 <= c <= 0x39 {
        c - 0x30
    } else if 0x41 <= c <= 0x46 {
        c - 0x37
    } else if 0x61 <= c <= 0x66 {
        c - 0x57
    } else {
        0
    }
}

/// The byte written by the two hexadecimal digits at the given position.
pub open spec fn hex_pair(bs: Seq<u8>, i: int) -> int {
    16 * hex_digit_val(bs[i]) + hex_digit_val(bs[i + 1])
}

/// Whether a byte is an ASCII hexadecimal digit, as executable code.
fn hex_digit_byte(c: u8) -> (r: bool)
    ensures
        r == is_hex_digit(c),
{
    (0x30 <= c && c <= 0x39) || (0x41 <= c && c <= 0x46) || (0x61 <= c && c <= 0x66)
}

/// The numeric value of an ASCII hexadecimal digit.
fn hex_digit_value(c: u8) -> (v: u8)
    requires
        is_hex_digit(c),
    ensures
        v as int == hex_digit_val(c),
        v < 16,
{
    if c >= 0x61 {
        c - 0x57
    } else if c >= 0x41 {
        c - 0x37
    } else {
        c - 0x30
    }
}

/// The byte written by the two hexadecimal digits at the given position.
fn hex_pair_value(bytes: &[u8], i: usize) -> (v: u8)
    requires
        i + 1 < bytes@.len(),
        is_hex_digit(bytes@[i as int]),
        is_hex_digit(bytes@[i as int + 1]),
    ensures
        v as int == hex_pair(bytes@, i as int),
{
    16 * hex_digit_value(bytes[i]) + hex_digit_value(bytes[i + 1])
}

/// The byte at the given position of a four-byte integer, counted from
/// the least significant position; positions past the third read zero.
pub open spec fn byte_at(h: int, i: int) -> int {
    if i == 0 {
        h % 0x100
    } else if i == 1 {
        h / 0x100 % 0x100
    } else if i == 2 {
        h / 0x1_0000 % 0x100
    } else if i == 3 {
        h / 0x100_0000 % 0x100
    } else {
        0
    }
}

/// The byte at the given position, as executable code.
pub fn extract_byte(hex: u32, idx: u32) -> (v: u8)
    ensures
        v as int == byte_at(hex as int, idx as int),
{
    if idx > 3 {
        return 0;
    }
    let shifted: u32 = if idx == 0 {
        hex
    } else if idx == 1 {
        hex / 0x100
    } else if idx == 2 {
        hex / 0x1_0000
    } else {
        hex / 0x100_0000
    };
    proof {
        vstd::arithmetic::div_mod::lemma_mod_bound(shifted as int, 0x100);
    }
    (shifted % 0x100) as u8
}

/// Whether one channel is a non-NaN scalar between zero and one.
fn channel_in_unit(c: u32) -> (r: bool)
    ensures
        r == is_unit(c),
{
    if nan_bits(c) {
        false
    } else {
        let k: i64 = value_key(c);
        0 <= k && k <= ONE_BITS as i64
    }
}

} // verus!
