//! Quantization between byte channels and unit-interval scalars.
//!
//! A color channel lives in two representations: a byte in `0..=255`, and a
//! scalar between zero and one.  The two are related by the exact laws
//! `scalar == byte / 255` (rounded to the nearest representable scalar) and
//! `byte == round(scalar * 255)`, rounding half away from zero and
//! saturating at the byte range.
//!
//! Every finite scalar magnitude in the bit model is an integer multiple of
//! the smallest subnormal magnitude, which is two to the power of minus one
//! hundred forty-nine.  [`mag_scaled`] returns that integer — the magnitude
//! scaled by `pow2(149)` — so the two laws above become statements about
//! plain integers, and both conversion directions are integer code proved
//! against them: [`byte_to_channel`] produces the bit pattern nearest to
//! `byte / 255` (within half a unit of its last mantissa place), and
//! [`channel_to_byte`] computes `round(scalar * 255)` exactly.  The
//! round-trip laws stand as [`lemma_byte_round_trip`] (bytes survive a trip
//! through the scalar form unchanged) and [`lemma_quantization_bound`] (a
//! trip through the byte form moves a unit scalar by less than one part in
//! two hundred fifty-five).

use vstd::arithmetic::div_mod::lemma_basic_div;
use vstd::arithmetic::div_mod::lemma_div_denominator;
use vstd::arithmetic::div_mod::lemma_div_is_ordered;
use vstd::arithmetic::div_mod::lemma_div_multiples_vanish;
use vstd::arithmetic::div_mod::lemma_div_pos_is_pos;
use vstd::arithmetic::div_mod::lemma_fundamental_div_mod;
use vstd::arithmetic::div_mod::lemma_fundamental_div_mod_converse;
use vstd::arithmetic::div_mod::lemma_mod_bound;
use vstd::arithmetic::div_mod::lemma_multiply_divide_lt;
use vstd::arithmetic::div_mod::lemma_small_mod;
use vstd::arithmetic::power2::lemma2_to64;
use vstd::arithmetic::power2::lemma_pow2_adds;
use vstd::arithmetic::power2::lemma_pow2_pos;
use vstd::arithmetic::power2::lemma_pow2_strictly_increases;
use vstd::arithmetic::power2::pow2;
use vstd::math::abs;
use vstd::prelude::*;

use crate::fbits::INF_BITS;
use crate::fbits::ONE_BITS;
use crate::fbits::ZERO_BITS;
use crate::fbits::is_nan;
use crate::fbits::is_sign_neg;
use crate::fbits::is_unit;
use crate::fbits::key;
use crate::fbits::mag;
use crate::fbits::magnitude;

verus! {

/// The exponent field of a pattern: bits twenty-three through thirty.
pub open spec fn exp_of(b: u32) -> int {
    mag(b) / 0x0080_0000
}

/// The fraction field of a pattern: the low twenty-three bits.
pub open spec fn frac_of(b: u32) -> int {
    mag(b) % 0x0080_0000
}

/// The magnitude represented by a finite pattern, scaled by `pow2(149)` so
/// that it is an integer: a subnormal pattern represents `frac` units of
/// the smallest subnormal, a normal pattern `(pow2(23) + frac) * pow2(exp - 1)`
/// of them.  Applied to an infinite or NaN pattern the formula yields a
/// number above `pow2(149) * 255`, which the saturating consumers below
/// treat as the overlarge quantity it is.
pub open spec fn mag_scaled(b: u32) -> int {
    if exp_of(b) == 0 {
        frac_of(b)
    } else {
        (0x0080_0000 + frac_of(b)) * pow2((exp_of(b) - 1) as nat)
    }
}

/// The signed scaled value of a pattern.
pub open spec fn val_scaled(b: u32) -> int {
    if is_sign_neg(b) {
        -mag_scaled(b)
    } else {
        mag_scaled(b)
    }
}

/// The represented value times two hundred fifty-five, rounded half away
/// from zero to an integer (for the non-negative values at hand, the floor
/// of that product plus one half).
pub open spec fn round_channel(b: u32) -> int {
    (255 * val_scaled(b) + pow2(148)) / (pow2(149) as int)
}

/// The byte a channel pattern quantizes to: [`round_channel`] saturated to
/// the byte range, with NaN sent to zero.
pub open spec fn byte_of_bits(b: u32) -> int {
    if is_nan(b) {
        0
    } else if round_channel(b) < 0 {
        0
    } else if round_channel(b) > 255 {
        255
    } else {
        round_channel(b)
    }
}

/// How many doublings bring `n` into the normalization window
/// `[255 * pow2(23), 2 * 255 * pow2(23))`.
pub open spec fn norm_steps(n: int) -> nat
    decreases 2 * 255 * 0x0080_0000 - n,
{
    if n < 1 {
        0
    } else if n >= 255 * 0x0080_0000 {
        0
    } else {
        norm_steps(2 * n) + 1
    }
}

/// The channel pattern nearest to `v / 255`, for a byte quantity `v`: the
/// numerator is doubled into the normalization window, divided by two
/// hundred fifty-five, and the quotient rounded to the nearest mantissa
/// (the divisor being odd, no tie can arise); the window places the
/// mantissa so the pattern assembles directly.  Non-positive quantities
/// give the zero pattern.
pub open spec fn channel_of_byte(v: int) -> u32 {
    if v < 1 {
        ZERO_BITS
    } else {
        let s = norm_steps(v);
        let n = v * pow2(s);
        let q = n / 255;
        let r = n % 255;
        let m = if 2 * r > 255 {
            q + 1
        } else {
            q
        };
        if m == 0x0100_0000 {
            ((151 - s) * 0x0080_0000) as u32
        } else {
            ((150 - s) * 0x0080_0000 + m - 0x0080_0000) as u32
        }
    }
}

/// Doubling by [`norm_steps`] lands in the normalization window.
proof fn lemma_norm_range(n: int)
    requires
        1 <= n < 2 * 255 * 0x0080_0000,
    ensures
        255 * 0x0080_0000 <= n * pow2(norm_steps(n)) < 2 * 255 * 0x0080_0000,
    decreases 2 * 255 * 0x0080_0000 - n,
{
    lemma2_to64();
    if n >= 255 * 0x0080_0000 {
        assert(norm_steps(n) == 0);
        assert(n * pow2(0) == n);
    } else {
        lemma_norm_range(2 * n);
        let s = norm_steps(2 * n);
        assert(norm_steps(n) == s + 1);
        lemma_pow2_adds(1, s);
        assert(n * pow2(s + 1) == n * (2 * pow2(s))) by {
            assert(pow2(s + 1) == pow2(1) * pow2(s));
        }
        assert(n * (2 * pow2(s)) == (2 * n) * pow2(s)) by (nonlinear_arith);
    }
}

/// For byte quantities the window forces between twenty-three and
/// thirty-one doublings.
proof fn lemma_norm_steps_byte(v: int)
    requires
        1 <= v <= 255,
    ensures
        23 <= norm_steps(v) <= 31,
        255 * 0x0080_0000 <= v * pow2(norm_steps(v)) < 2 * 255 * 0x0080_0000,
{
    lemma2_to64();
    lemma_norm_range(v);
    let s = norm_steps(v);
    if s < 23 {
        lemma_pow2_strictly_increases(s, 23);
        assert(v * pow2(s) <= 255 * pow2(s)) by (nonlinear_arith)
            requires
                1 <= v <= 255,
                pow2(s) >= 0,
        ;
        assert(255 * pow2(s) < 255 * 0x0080_0000) by (nonlinear_arith)
            requires
                pow2(s) < 0x0080_0000,
        ;
    }
    if s > 31 {
        if s > 32 {
            lemma_pow2_strictly_increases(32, s);
        }
        assert(pow2(s) >= 0x1_0000_0000);
        assert(v * pow2(s) >= pow2(s)) by (nonlinear_arith)
            requires
                v >= 1,
                pow2(s) >= 0,
        ;
    }
}

/// Shape of the pattern produced for a positive byte quantity: the
/// rounded mantissa `m` sits within half a divisor of the exact scaled
/// quotient, and the assembled pattern is a non-negative unit whose
/// scaled value is exactly `m` times the window scale.
pub proof fn lemma_channel_of_byte_form(v: int)
    requires
        1 <= v <= 255,
    ensures
        ({
            let s = norm_steps(v);
            let n = v * pow2(s);
            let m = if 2 * (n % 255) > 255 {
                n / 255 + 1
            } else {
                n / 255
            };
            &&& 23 <= s <= 31
            &&& 0x0080_0000 <= m <= 0x0100_0000
            &&& abs(255 * m - n) <= 127
            &&& !is_sign_neg(channel_of_byte(v))
            &&& is_unit(channel_of_byte(v))
            &&& val_scaled(channel_of_byte(v)) == m * pow2((149 - s) as nat)
        }),
{
    lemma2_to64();
    lemma_norm_steps_byte(v);
    let s = norm_steps(v);
    let n = v * pow2(s);
    let q = n / 255;
    let r = n % 255;
    lemma_fundamental_div_mod(n, 255);
    lemma_mod_bound(n, 255);
    lemma_div_is_ordered(255int * 0x0080_0000, n, 255);
    lemma_div_multiples_vanish(0x0080_0000, 255);
    assert(q >= 0x0080_0000);
    lemma_multiply_divide_lt(n, 255, 2int * 0x0080_0000);
    assert(q < 0x0100_0000);
    let m = if 2 * r > 255 {
        q + 1
    } else {
        q
    };
    assert(abs(255 * m - n) <= 127);
    if s == 23 {
        assert(v * pow2(23) <= 255 * pow2(23)) by (nonlinear_arith)
            requires
                v <= 255,
                pow2(23) >= 0,
        ;
        assert(n == 255 * 0x0080_0000);
        lemma_fundamental_div_mod_converse(n, 255, 0x0080_0000, 0);
        assert(q == 0x0080_0000 && r == 0);
        assert(m == 0x0080_0000);
    }
    if m == 0x0100_0000 {
        assert(s >= 24);
        let ci = (151 - s) * 0x0080_0000;
        assert(0x0080_0000 <= (151 - s) * 0x0080_0000 <= 127 * 0x0080_0000) by (nonlinear_arith)
            requires
                24 <= s <= 31,
        ;
        let c = ci as u32;
        assert(c == ci);
        assert(channel_of_byte(v) == c);
        lemma_small_mod(c as nat, 0x8000_0000);
        assert(mag(c) == ci);
        lemma_fundamental_div_mod_converse(ci, 0x0080_0000, 151 - s, 0);
        assert(exp_of(c) == 151 - s);
        assert(frac_of(c) == 0);
        assert(mag_scaled(c) == 0x0080_0000 * pow2((150 - s) as nat));
        lemma_pow2_adds(1, (149 - s) as nat);
        assert(pow2((150 - s) as nat) == 2 * pow2((149 - s) as nat));
        assert(0x0080_0000 * (2 * pow2((149 - s) as nat)) == 0x0100_0000 * pow2(
            (149 - s) as nat,
        )) by (nonlinear_arith);
        assert(val_scaled(c) == m * pow2((149 - s) as nat));
        assert(key(c) == ci);
        assert(is_unit(c));
    } else {
        assert(m < 0x0100_0000);
        let ci = (150 - s) * 0x0080_0000 + m - 0x0080_0000;
        assert(119 * 0x0080_0000 <= (150 - s) * 0x0080_0000 <= 127 * 0x0080_0000)
            by (nonlinear_arith)
            requires
                23 <= s <= 31,
        ;
        let c = ci as u32;
        assert(c == ci);
        assert(channel_of_byte(v) == c);
        lemma_small_mod(c as nat, 0x8000_0000);
        assert(mag(c) == ci);
        lemma_fundamental_div_mod_converse(ci, 0x0080_0000, 150 - s, m - 0x0080_0000);
        assert(exp_of(c) == 150 - s);
        assert(frac_of(c) == m - 0x0080_0000);
        assert(mag_scaled(c) == m * pow2((149 - s) as nat));
        assert(val_scaled(c) == m * pow2((149 - s) as nat));
        if s == 23 {
            assert(ci == ONE_BITS);
        } else {
            assert((150 - s) * 0x0080_0000 <= 126 * 0x0080_0000) by (nonlinear_arith)
                requires
                    s >= 24,
            ;
            assert(ci < 127 * 0x0080_0000);
        }
        assert(key(c) == ci);
        assert(is_unit(c));
    }
}

/// A unit pattern's scaled value lies between zero and `pow2(149)`, the
/// scaled value of one.
pub proof fn lemma_unit_val_bounds(b: u32)
    requires
        is_unit(b),
    ensures
        0 <= val_scaled(b) <= pow2(149),
{
    lemma2_to64();
    if is_sign_neg(b) {
        assert(mag(b) == 0);
        lemma_small_mod(0, 0x0080_0000);
        assert(exp_of(b) == 0);
        assert(val_scaled(b) == 0);
    } else {
        lemma_small_mod(b as nat, 0x8000_0000);
        let g = mag(b);
        assert(g == b);
        let e = exp_of(b);
        let f = frac_of(b);
        lemma_fundamental_div_mod(g, 0x0080_0000);
        lemma_mod_bound(g, 0x0080_0000);
        lemma_div_pos_is_pos(g, 0x0080_0000);
        lemma_div_is_ordered(g, ONE_BITS as int, 0x0080_0000);
        lemma_div_multiples_vanish(127, 0x0080_0000);
        assert(ONE_BITS as int == 0x0080_0000 * 127);
        assert(e <= 127);
        if e == 0 {
            lemma_pow2_strictly_increases(23, 149);
            assert(val_scaled(b) == f);
        } else if e == 127 {
            assert(f == 0);
            lemma_pow2_adds(23, 126);
            assert(pow2(23) == 0x0080_0000);
            assert(val_scaled(b) == 0x0080_0000 * pow2(126));
        } else {
            assert(pow2((e - 1) as nat) <= pow2(125)) by {
                if e - 1 < 125 {
                    lemma_pow2_strictly_increases((e - 1) as nat, 125);
                }
            }
            lemma_pow2_pos((e - 1) as nat);
            lemma_pow2_adds(24, 125);
            assert(pow2(24) == 0x0100_0000);
            assert((0x0080_0000 + f) * pow2((e - 1) as nat) <= 0x0100_0000 * pow2(125))
                by (nonlinear_arith)
                requires
                    0 < 0x0080_0000 + f <= 0x0100_0000,
                    0 < pow2((e - 1) as nat) <= pow2(125),
            ;
            assert(0 <= (0x0080_0000 + f) * pow2((e - 1) as nat)) by (nonlinear_arith)
                requires
                    0 <= 0x0080_0000 + f,
                    0 <= pow2((e - 1) as nat),
            ;
        }
    }
}

/// The pattern built for a byte quantity lands within `127 / pow2(23)`
/// units of the last scaled place of the exact ratio: the scaled value of
/// the pattern differs from `v * pow2(149) / 255` by well under half a
/// scaled unit.
pub proof fn lemma_channel_of_byte_close(v: int)
    requires
        1 <= v <= 255,
    ensures
        is_unit(channel_of_byte(v)),
        abs(255 * val_scaled(channel_of_byte(v)) - v * pow2(149)) <= 127 * pow2(126),
{
    lemma2_to64();
    lemma_channel_of_byte_form(v);
    let s = norm_steps(v);
    let n = v * pow2(s);
    let q = n / 255;
    let r = n % 255;
    let m = if 2 * r > 255 {
        q + 1
    } else {
        q
    };
    let w = pow2((149 - s) as nat);
    let c = channel_of_byte(v);
    lemma_pow2_adds(s, (149 - s) as nat);
    assert(pow2(s) * w == pow2(149));
    assert(n * w == v * pow2(149)) by (nonlinear_arith)
        requires
            n == v * pow2(s),
            pow2(s) * w == pow2(149),
    ;
    let d = 255 * m - n;
    lemma_within_abs(255 * m - n, 127);
    assert(255 * (m * w) == (255 * m) * w) by (nonlinear_arith);
    assert((255 * m) * w - n * w == (255 * m - n) * w) by (nonlinear_arith);
    lemma_pow2_pos((149 - s) as nat);
    assert(-127 * w <= (255 * m - n) * w <= 127 * w) by (nonlinear_arith)
        requires
            -127 <= 255 * m - n <= 127,
            0 < w,
    ;
    assert(w <= pow2(126)) by {
        if s > 23 {
            lemma_pow2_strictly_increases((149 - s) as nat, 126);
        }
    }
    assert(255 * val_scaled(c) - v * pow2(149) == d * w);
    lemma_abs_within(255 * val_scaled(c) - v * pow2(149), 127 * (pow2(126) as int));
}

/// Absolute-value bounds from two-sided bounds.
proof fn lemma_abs_within(x: int, g: int)
    requires
        -g <= x <= g,
    ensures
        abs(x) <= g,
{
}

/// Two-sided bounds from an absolute-value bound.
proof fn lemma_within_abs(x: int, g: int)
    requires
        abs(x) <= g,
    ensures
        -g <= x <= g,
{
}

/// The gap `127 * pow2(126)` is far below the half unit `pow2(148)`.
proof fn lemma_gap_small()
    ensures
        0 < 127 * pow2(126) < pow2(148),
{
    lemma_pow2_pos(126);
    lemma_pow2_adds(7, 126);
    lemma2_to64();
    assert(127 * pow2(126) < 128 * pow2(126)) by (nonlinear_arith)
        requires
            0 < pow2(126),
    ;
    lemma_pow2_strictly_increases(133, 148);
    assert(0 < 127 * pow2(126)) by (nonlinear_arith)
        requires
            0 < pow2(126),
    ;
}

/// A byte survives the round trip through the scalar form unchanged: the
/// pattern built for it quantizes back to the same byte.
pub proof fn lemma_byte_round_trip(v: int)
    requires
        0 <= v <= 255,
    ensures
        byte_of_bits(channel_of_byte(v)) == v,
{
    lemma2_to64();
    lemma_pow2_strictly_increases(148, 149);
    lemma_pow2_pos(148);
    lemma_pow2_pos(149);
    if v < 1 {
        assert(channel_of_byte(v) == ZERO_BITS);
        lemma_small_mod(0, 0x8000_0000);
        lemma_small_mod(0, 0x0080_0000);
        assert(mag(ZERO_BITS) == 0);
        assert(exp_of(ZERO_BITS) == 0);
        assert(val_scaled(ZERO_BITS) == 0);
        lemma_basic_div(pow2(148) as int, pow2(149) as int);
        assert(round_channel(ZERO_BITS) == 0);
        assert(!is_nan(ZERO_BITS));
    } else {
        lemma_channel_of_byte_close(v);
        lemma_gap_small();
        lemma_pow2_adds(1, 148);
        assert(pow2(149) == 2 * pow2(148));
        let c = channel_of_byte(v);
        let num = 255 * val_scaled(c) + pow2(148);
        let rr = num - v * pow2(149);
        lemma_within_abs(255 * val_scaled(c) - v * pow2(149), 127 * (pow2(126) as int));
        assert(0 <= rr < pow2(149));
        lemma_fundamental_div_mod_converse(num, pow2(149) as int, v, rr);
        assert(round_channel(c) == v);
        assert(!is_nan(c));
    }
}

/// Bounds of the byte a unit pattern rounds to: the quantization is exact
/// rounding, never saturated, and the rounded byte sits within half a
/// scaled unit of the scaled product.
pub proof fn lemma_unit_round(b: u32)
    requires
        is_unit(b),
    ensures
        0 <= round_channel(b) <= 255,
        byte_of_bits(b) == round_channel(b),
        abs(255 * val_scaled(b) - round_channel(b) * pow2(149)) <= pow2(148),
{
    lemma2_to64();
    lemma_unit_val_bounds(b);
    lemma_pow2_pos(148);
    lemma_pow2_pos(149);
    lemma_pow2_strictly_increases(148, 149);
    let va = val_scaled(b);
    let num = 255 * va + pow2(148);
    assert(255 * va <= 255 * pow2(149)) by (nonlinear_arith)
        requires
            va <= pow2(149),
    ;
    assert(255 * va >= 0) by (nonlinear_arith)
        requires
            va >= 0,
    ;
    lemma_div_pos_is_pos(num, pow2(149) as int);
    assert(num < pow2(149) * 256) by (nonlinear_arith)
        requires
            num <= 255 * pow2(149) + pow2(148),
            pow2(148) < pow2(149),
    ;
    lemma_multiply_divide_lt(num, pow2(149) as int, 256);
    lemma_fundamental_div_mod(num, pow2(149) as int);
    lemma_mod_bound(num, pow2(149) as int);
    lemma_pow2_adds(1, 148);
    assert(pow2(149) == 2 * pow2(148));
    let rc = round_channel(b);
    assert(num == pow2(149) * rc + num % (pow2(149) as int));
    assert(-pow2(148) <= 255 * va - pow2(149) * rc <= pow2(148));
    assert(pow2(149) * rc == rc * pow2(149)) by (nonlinear_arith);
    lemma_abs_within(255 * va - rc * pow2(149), pow2(148) as int);
}

/// One quantization round trip moves a unit scalar by less than one part
/// in two hundred fifty-five: the pattern built for the byte a unit
/// pattern rounds to stays strictly within `pow2(149) / 255` of it.
pub proof fn lemma_quantization_bound(b: u32)
    requires
        is_unit(b),
    ensures
        0 <= byte_of_bits(b) <= 255,
        255 * abs(val_scaled(channel_of_byte(byte_of_bits(b))) - val_scaled(b)) < pow2(149),
{
    lemma2_to64();
    lemma_unit_round(b);
    lemma_gap_small();
    lemma_pow2_strictly_increases(148, 149);
    lemma_pow2_adds(1, 148);
    assert(pow2(149) == 2 * pow2(148));
    let k = byte_of_bits(b);
    let c = channel_of_byte(k);
    let vb = val_scaled(b);
    let vc = val_scaled(c);
    lemma_within_abs(255 * vb - round_channel(b) * pow2(149), pow2(148) as int);
    assert(round_channel(b) == k);
    if k < 1 {
        assert(c == ZERO_BITS);
        lemma_small_mod(0, 0x8000_0000);
        lemma_small_mod(0, 0x0080_0000);
        assert(vc == 0);
        assert(round_channel(b) * pow2(149) == 0) by (nonlinear_arith)
            requires
                round_channel(b) == 0,
        ;
        assert(-pow2(149) < 255 * vc - 255 * vb < pow2(149));
    } else {
        lemma_channel_of_byte_close(k);
        lemma_within_abs(255 * vc - k * pow2(149), 127 * (pow2(126) as int));
        assert(k * pow2(149) == round_channel(b) * pow2(149));
        assert(-pow2(149) < 255 * vc - 255 * vb < pow2(149));
    }
    assert(255 * (vc - vb) == 255 * vc - 255 * vb);
    if vc - vb >= 0 {
        assert(abs(vc - vb) == vc - vb);
    } else {
        assert(abs(vc - vb) == -(vc - vb));
    }
    assert(255 * abs(vc - vb) < pow2(149));
}

/// The full byte scales to exactly one: no other byte reaches the top of
/// the unit range.
pub proof fn lemma_channel_of_byte_full()
    ensures
        channel_of_byte(255) == ONE_BITS,
{
    lemma2_to64();
    lemma_norm_steps_byte(255);
    let s = norm_steps(255);
    if s >= 24 {
        assert(pow2(s) >= pow2(24)) by {
            if s > 24 {
                lemma_pow2_strictly_increases(24, s);
            }
        }
        assert(255 * pow2(s) >= 255 * pow2(24)) by (nonlinear_arith)
            requires
                pow2(s) >= pow2(24),
        ;
    }
    assert(s == 23);
    let n = 255 * (pow2(23) as int);
    lemma_fundamental_div_mod_converse(n, 255, 0x0080_0000, 0);
    assert(n / 255 == 0x0080_0000 && n % 255 == 0);
}

/// A pattern with the sign bit set quantizes to zero: its value is at
/// most zero, so the rounded product saturates at the low end.
proof fn lemma_neg_byte(b: u32)
    requires
        is_sign_neg(b),
        !is_nan(b),
    ensures
        byte_of_bits(b) == 0,
{
    lemma2_to64();
    lemma_pow2_pos(148);
    lemma_pow2_pos(149);
    lemma_pow2_strictly_increases(148, 149);
    let e = exp_of(b);
    let f = frac_of(b);
    lemma_mod_bound(mag(b), 0x0080_0000);
    assert(mag_scaled(b) >= 0) by {
        if e != 0 {
            lemma_pow2_pos((e - 1) as nat);
            assert((0x0080_0000 + f) * pow2((e - 1) as nat) >= 0) by (nonlinear_arith)
                requires
                    0x0080_0000 + f >= 0,
                    pow2((e - 1) as nat) >= 0,
            ;
        }
    }
    let va = val_scaled(b);
    assert(va <= 0);
    assert(255 * va <= 0) by (nonlinear_arith)
        requires
            va <= 0,
    ;
    let num = 255 * va + pow2(148);
    assert(num < pow2(149));
    lemma_div_is_ordered(num, pow2(149) - 1, pow2(149) as int);
    lemma_basic_div(pow2(149) - 1, pow2(149) as int);
    assert(round_channel(b) <= 0);
}

/// A non-negative pattern representing one or more (infinity included)
/// quantizes to the full byte.
proof fn lemma_full_byte(b: u32)
    requires
        !is_sign_neg(b),
        !is_nan(b),
        mag(b) >= ONE_BITS,
    ensures
        byte_of_bits(b) == 255,
{
    lemma2_to64();
    lemma_pow2_pos(148);
    lemma_pow2_pos(149);
    let g = mag(b);
    let e = exp_of(b);
    let f = frac_of(b);
    lemma_div_is_ordered(ONE_BITS as int, g, 0x0080_0000);
    lemma_div_multiples_vanish(127, 0x0080_0000);
    assert(ONE_BITS as int == 0x0080_0000 * 127);
    assert(e >= 127);
    lemma_mod_bound(g, 0x0080_0000);
    assert(pow2((e - 1) as nat) >= pow2(126)) by {
        if e > 127 {
            lemma_pow2_strictly_increases(126, (e - 1) as nat);
        }
    }
    lemma_pow2_adds(23, 126);
    assert(pow2(23) == 0x0080_0000);
    assert(mag_scaled(b) >= pow2(149)) by (nonlinear_arith)
        requires
            mag_scaled(b) == (0x0080_0000 + f) * pow2((e - 1) as nat),
            f >= 0,
            pow2((e - 1) as nat) >= pow2(126),
            0x0080_0000 * pow2(126) == pow2(149),
            pow2(126) >= 0,
    ;
    let va = val_scaled(b);
    assert(255 * va >= 255 * pow2(149)) by (nonlinear_arith)
        requires
            va >= pow2(149),
    ;
    let num = 255 * va + pow2(148);
    lemma_div_is_ordered((pow2(149) as int) * 255, num, pow2(149) as int);
    lemma_div_multiples_vanish(255, pow2(149) as int);
    assert(round_channel(b) >= 255);
    lemma_div_pos_is_pos(num, pow2(149) as int);
}

/// A non-negative pattern with exponent field at most one hundred
/// seventeen represents less than half of one part in five hundred ten,
/// and quantizes to zero.
proof fn lemma_tiny_byte(b: u32)
    requires
        !is_sign_neg(b),
        !is_nan(b),
        exp_of(b) <= 117,
    ensures
        byte_of_bits(b) == 0,
{
    lemma2_to64();
    lemma_pow2_pos(148);
    lemma_pow2_pos(149);
    lemma_pow2_strictly_increases(148, 149);
    lemma_pow2_adds(1, 148);
    let e = exp_of(b);
    let f = frac_of(b);
    lemma_mod_bound(mag(b), 0x0080_0000);
    lemma_div_pos_is_pos(mag(b), 0x0080_0000);
    assert(0 <= mag_scaled(b) < pow2(140)) by {
        lemma_pow2_strictly_increases(23, 140);
        if e != 0 {
            assert(pow2((e - 1) as nat) <= pow2(116)) by {
                if e < 117 {
                    lemma_pow2_strictly_increases((e - 1) as nat, 116);
                }
            }
            lemma_pow2_pos((e - 1) as nat);
            lemma_pow2_adds(24, 116);
            assert(pow2(24) == 0x0100_0000);
            assert(0 <= (0x0080_0000 + f) * pow2((e - 1) as nat) < 0x0100_0000 * pow2(116))
                by (nonlinear_arith)
                requires
                    0 < 0x0080_0000 + f < 0x0100_0000,
                    0 < pow2((e - 1) as nat) <= pow2(116),
            ;
            lemma_pow2_strictly_increases(140, 148);
        }
    }
    let va = val_scaled(b);
    assert(255 * va < 256 * pow2(140)) by (nonlinear_arith)
        requires
            0 <= va < pow2(140),
    ;
    lemma_pow2_adds(8, 140);
    assert(pow2(8) == 256);
    lemma_pow2_strictly_increases(140, 148);
    assert(255 * va >= 0) by (nonlinear_arith)
        requires
            va >= 0,
    ;
    let num = 255 * va + pow2(148);
    assert(num < pow2(149));
    lemma_basic_div(num, pow2(149) as int);
    assert(round_channel(b) == 0);
}

/// The pattern nearest to `v / 255`, as executable code: the numerator is
/// doubled into the normalization window and divided, exactly as
/// [`channel_of_byte`] states.
pub fn byte_to_channel(v: u8) -> (r: u32)
    ensures
        r == channel_of_byte(v as int),
        is_unit(r),
{
    proof {
        lemma2_to64();
    }
    if v == 0 {
        proof {
            lemma_small_mod(0, 0x8000_0000);
        }
        return ZERO_BITS;
    }
    proof {
        lemma_channel_of_byte_form(v as int);
    }
    let mut n: u64 = v as u64;
    let mut s: u32 = 0;
    while n < 255 * 0x0080_0000
        invariant
            1 <= v,
            1 <= n < 2 * 255 * 0x0080_0000,
            n == (v as int) * pow2(s as nat),
            norm_steps(v as int) == s + norm_steps(n as int),
            norm_steps(v as int) <= 31,
        decreases 2 * 255 * 0x0080_0000 - n,
    {
        proof {
            lemma2_to64();
            assert(norm_steps(n as int) == norm_steps(2 * n as int) + 1);
            lemma_pow2_adds(s as nat, 1);
            assert(pow2(1) == 2);
            assert((v as int) * pow2((s + 1) as nat) == 2 * ((v as int) * pow2(s as nat)))
                by (nonlinear_arith)
                requires
                    pow2((s + 1) as nat) == pow2(s as nat) * 2,
            ;
        }
        n = n * 2;
        s = s + 1;
    }
    proof {
        assert(norm_steps(n as int) == 0);
        assert(s == norm_steps(v as int));
    }
    let q: u64 = n / 255;
    let r: u64 = n % 255;
    let m: u64 = if 2 * r > 255 {
        q + 1
    } else {
        q
    };
    if m == 0x0100_0000 {
        (151 - s) * 0x0080_0000
    } else {
        (150 - s) * 0x0080_0000 + (m as u32) - 0x0080_0000
    }
}

/// The byte a channel pattern quantizes to, as executable code: the exact
/// rounding [`byte_of_bits`] states, with NaN, negative, overlarge and
/// vanishing patterns dispatched first.
pub fn channel_to_byte(b: u32) -> (k: u8)
    ensures
        k as int == byte_of_bits(b),
{
    proof {
        lemma2_to64();
    }
    let g = magnitude(b);
    if g > INF_BITS {
        return 0;
    }
    if b >= 0x8000_0000 {
        proof {
            lemma_neg_byte(b);
        }
        return 0;
    }
    proof {
        lemma_small_mod(b as nat, 0x8000_0000);
    }
    if b >= ONE_BITS {
        proof {
            lemma_full_byte(b);
        }
        return 255;
    }
    let e: u32 = b / 0x0080_0000;
    let f: u32 = b % 0x0080_0000;
    if e <= 117 {
        proof {
            lemma_tiny_byte(b);
        }
        return 0;
    }
    let sh: u32 = 150 - e;
    proof {
        lemma_div_is_ordered(b as int, ONE_BITS - 1, 0x0080_0000);
        lemma_fundamental_div_mod_converse(ONE_BITS - 1, 0x0080_0000, 126, 0x0080_0000 - 1);
        assert(e <= 126);
        assert(24 <= sh <= 32);
    }
    let mant: u64 = 0x0080_0000u64 + f as u64;
    let mut den: u64 = 1;
    let mut i: u32 = 0;
    while i < sh
        invariant
            den == pow2(i as nat),
            i <= sh <= 32,
        decreases sh - i,
    {
        proof {
            lemma_pow2_adds(i as nat, 1);
            lemma2_to64();
            assert(pow2(i as nat) < pow2(32)) by {
                lemma_pow2_strictly_increases(i as nat, 32);
            }
        }
        den = den * 2;
        i = i + 1;
    }
    let p: u64 = 255 * mant;
    let k64: u64 = (p + den / 2) / den;
    proof {
        lemma_exact_round(b, e as int, f as int, sh as nat);
        lemma_pow2_adds((sh - 1) as nat, 1);
        assert(pow2(sh as nat) == pow2((sh - 1) as nat) * 2);
        lemma_div_multiples_vanish(pow2((sh - 1) as nat) as int, 2);
        assert(den / 2 == pow2((sh - 1) as nat));
    }
    k64 as u8
}

/// For a normal pattern below one with exponent field above one hundred
/// seventeen, the quantization collapses to a division in the window: the
/// rounded byte is the mantissa times two hundred fifty-five, offset by
/// half the window scale and divided by it.
proof fn lemma_exact_round(b: u32, e: int, f: int, sh: nat)
    requires
        !is_sign_neg(b),
        !is_nan(b),
        mag(b) < ONE_BITS,
        e == exp_of(b),
        f == frac_of(b),
        118 <= e <= 126,
        sh == 150 - e,
    ensures
        0 <= (255 * (0x0080_0000 + f) + pow2((sh - 1) as nat)) / (pow2(sh) as int) <= 255,
        byte_of_bits(b) == (255 * (0x0080_0000 + f) + pow2((sh - 1) as nat)) / (pow2(sh) as int),
{
    lemma2_to64();
    lemma_pow2_pos(148);
    lemma_pow2_pos(149);
    lemma_pow2_pos(sh);
    lemma_pow2_pos((sh - 1) as nat);
    lemma_pow2_pos((149 - sh) as nat);
    lemma_mod_bound(mag(b), 0x0080_0000);
    let mant = 0x0080_0000 + f;
    let w = pow2((149 - sh) as nat) as int;
    assert(mag_scaled(b) == mant * pow2((e - 1) as nat));
    assert((e - 1) as nat == (149 - sh) as nat);
    let va = val_scaled(b);
    assert(va == mant * w);
    let num = 255 * va + pow2(148);
    lemma_pow2_adds((149 - sh) as nat, (sh - 1) as nat);
    assert(w * pow2((sh - 1) as nat) == pow2(148));
    assert(num == w * (255 * mant + pow2((sh - 1) as nat))) by (nonlinear_arith)
        requires
            num == 255 * (mant * w) + pow2(148),
            w * pow2((sh - 1) as nat) == pow2(148),
    ;
    let inner = 255 * mant + pow2((sh - 1) as nat);
    lemma_pow2_adds((149 - sh) as nat, sh);
    assert(w * pow2(sh) == pow2(149));
    assert(inner >= 0);
    assert(num >= 0) by (nonlinear_arith)
        requires
            num == w * inner,
            w > 0,
            inner >= 0,
    ;
    lemma_div_denominator(num, w, pow2(sh) as int);
    assert(num / (pow2(149) as int) == (num / w) / (pow2(sh) as int));
    lemma_div_multiples_vanish(inner, w);
    assert(num / w == inner);
    assert(round_channel(b) == inner / (pow2(sh) as int));
    lemma_div_pos_is_pos(inner, pow2(sh) as int);
    assert(mant < pow2(sh)) by {
        if sh > 24 {
            lemma_pow2_strictly_increases(24, sh);
        }
        assert(pow2(24) == 0x0100_0000);
    }
    assert(inner < 256 * pow2(sh)) by (nonlinear_arith)
        requires
            inner == 255 * mant + pow2((sh - 1) as nat),
            mant < pow2(sh),
            pow2((sh - 1) as nat) < pow2(sh),
    ;
    lemma_pow2_strictly_increases((sh - 1) as nat, sh);
    lemma_multiply_divide_lt(inner, pow2(sh) as int, 256);
}

} // verus!
