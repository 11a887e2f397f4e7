//! Colors as nonnegative fixed-point RGB triples, hex-string parsing, and
//! the 8-bit quantization used for image output.
//!
//! Channel arithmetic saturates at `COLOR_MAX`, so every operation keeps a
//! color well-formed; the saturation point is far above any radiance a
//! well-formed scene produces.

use crate::math::{div_t, sdiv, sdiv128};
use crate::SCALE;
use vstd::prelude::*;
use vstd::string::StringSliceAdditionalSpecFns;

verus! {

/// The saturation bound for color channels.
pub const COLOR_MAX: i64 = 0x1000_0000_0000;

/// Saturating cap at `COLOR_MAX`.
pub open spec fn spec_cmin(v: int) -> int {
    if v > COLOR_MAX as int {
        COLOR_MAX as int
    } else {
        v
    }
}

#[derive(Clone, Copy, PartialEq, Eq, Structural, Debug)]
pub struct Color {
    pub r: i64,
    pub g: i64,
    pub b: i64,
}

/// Channelwise saturating addition, at the spec level.
pub open spec fn spec_color_add(a: Color, b: Color) -> Color {
    Color {
        r: spec_cmin(a.r + b.r) as i64,
        g: spec_cmin(a.g + b.g) as i64,
        b: spec_cmin(a.b + b.b) as i64,
    }
}

/// Channelwise saturating fixed-point product, at the spec level.
pub open spec fn spec_color_mul(a: Color, b: Color) -> Color {
    Color {
        r: spec_cmin(div_t(a.r * b.r, SCALE as int)) as i64,
        g: spec_cmin(div_t(a.g * b.g, SCALE as int)) as i64,
        b: spec_cmin(div_t(a.b * b.b, SCALE as int)) as i64,
    }
}

/// Saturating scaling by a fixed-point factor, at the spec level.
pub open spec fn spec_color_scale(c: Color, k: int) -> Color {
    Color {
        r: spec_cmin(div_t(c.r * k, SCALE as int)) as i64,
        g: spec_cmin(div_t(c.g * k, SCALE as int)) as i64,
        b: spec_cmin(div_t(c.b * k, SCALE as int)) as i64,
    }
}

impl Color {
    /// Well-formed color: every channel nonnegative and within the
    /// saturation bound.
    pub open spec fn wf(self) -> bool {
        &&& 0 <= self.r <= COLOR_MAX
        &&& 0 <= self.g <= COLOR_MAX
        &&& 0 <= self.b <= COLOR_MAX
    }

    pub fn new(r: i64, g: i64, b: i64) -> (c: Color)
        requires
            0 <= r <= COLOR_MAX,
            0 <= g <= COLOR_MAX,
            0 <= b <= COLOR_MAX,
        ensures
            c == (Color { r, g, b }),
            c.wf(),
    {
        Color { r, g, b }
    }

    /// The average of the three channels, rounded down.
    pub fn grayscale(&self) -> (v: i64)
        requires
            self.wf(),
        ensures
            v == div_t(self.r + self.g + self.b, 3),
            0 <= v <= COLOR_MAX,
    {
        proof {
            crate::math::lemma_div_t_bounds(self.r + self.g + self.b, 3);
        }
        let v = sdiv(self.r + self.g + self.b, 3);
        proof {
            assert(v <= COLOR_MAX) by (nonlinear_arith)
                requires
                    3 * v <= self.r + self.g + self.b,
                    self.r + self.g + self.b <= 3 * COLOR_MAX,
                    COLOR_MAX == 0x1000_0000_0000i64,
            ;
        }
        v
    }

    /// Channelwise saturating addition.
    pub fn add(self, rhs: Color) -> (c: Color)
        requires
            self.wf(),
            rhs.wf(),
        ensures
            c == spec_color_add(self, rhs),
            c.r == spec_cmin(self.r + rhs.r),
            c.g == spec_cmin(self.g + rhs.g),
            c.b == spec_cmin(self.b + rhs.b),
            c.wf(),
    {
        Color {
            r: if self.r + rhs.r > COLOR_MAX {
                COLOR_MAX
            } else {
                self.r + rhs.r
            },
            g: if self.g + rhs.g > COLOR_MAX {
                COLOR_MAX
            } else {
                self.g + rhs.g
            },
            b: if self.b + rhs.b > COLOR_MAX {
                COLOR_MAX
            } else {
                self.b + rhs.b
            },
        }
    }

    /// Channelwise fixed-point product, saturating.
    pub fn mul(self, rhs: Color) -> (c: Color)
        requires
            self.wf(),
            rhs.wf(),
        ensures
            c == spec_color_mul(self, rhs),
            c.wf(),
    {
        Color {
            r: channel_mul(self.r, rhs.r),
            g: channel_mul(self.g, rhs.g),
            b: channel_mul(self.b, rhs.b),
        }
    }

    /// Scales every channel by the nonnegative fixed-point factor `k`,
    /// saturating.
    pub fn scale(self, k: i64) -> (c: Color)
        requires
            self.wf(),
            0 <= k <= COLOR_MAX,
        ensures
            c == spec_color_scale(self, k as int),
            c.wf(),
    {
        Color {
            r: channel_mul(self.r, k),
            g: channel_mul(self.g, k),
            b: channel_mul(self.b, k),
        }
    }

    /// Divides every channel by the positive fixed-point factor `k`,
    /// saturating.
    pub fn div(self, k: i64) -> (c: Color)
        requires
            self.wf(),
            0 < k <= COLOR_MAX,
        ensures
            c.r == spec_cmin(div_t(self.r * SCALE, k as int)),
            c.g == spec_cmin(div_t(self.g * SCALE, k as int)),
            c.b == spec_cmin(div_t(self.b * SCALE, k as int)),
            c.wf(),
    {
        Color {
            r: channel_div(self.r, k),
            g: channel_div(self.g, k),
            b: channel_div(self.b, k),
        }
    }

    /// Parses a `#rgb` or `#rrggbb` hex color into fixed-point channels.
    /// Each rejection names its cause: the length first, then the missing
    /// `#`, then a bad digit.
    pub fn from_str(s: &str) -> (r: Result<Color, ParseColorError>)
        ensures
            match r {
                Ok(c) => spec_color_from_hex(s.spec_bytes()) == Some(c) && c.wf(),
                Err(e) => {
                    let bs = s.spec_bytes();
                    &&& spec_color_from_hex(bs) is None
                    &&& (e == ParseColorError::WrongLength <==> bs.len() != 4 && bs.len() != 7)
                    &&& (e == ParseColorError::MissingHash <==> (bs.len() == 4 || bs.len() == 7)
                        && bs[0] != 35)
                },
            },
    {
        let bs = s.as_bytes();
        let n = bs.len();
        if !(n == 4 || n == 7) {
            return Err(ParseColorError::WrongLength);
        }
        if bs[0] != 35 {
            return Err(ParseColorError::MissingHash);
        }
        if n == 4 {
            let d0 = hex_digit(bs[1]);
            let d1 = hex_digit(bs[2]);
            let d2 = hex_digit(bs[3]);
            if d0 < 0 || d1 < 0 || d2 < 0 {
                return Err(ParseColorError::BadDigits);
            }
            Ok(
                Color {
                    r: channel_of(d0 * 17),
                    g: channel_of(d1 * 17),
                    b: channel_of(d2 * 17),
                },
            )
        } else {
            let d0 = hex_digit(bs[1]);
            let d1 = hex_digit(bs[2]);
            let d2 = hex_digit(bs[3]);
            let d3 = hex_digit(bs[4]);
            let d4 = hex_digit(bs[5]);
            let d5 = hex_digit(bs[6]);
            if d0 < 0 || d1 < 0 || d2 < 0 || d3 < 0 || d4 < 0 || d5 < 0 {
                return Err(ParseColorError::BadDigits);
            }
            Ok(
                Color {
                    r: channel_of(d0 * 16 + d1),
                    g: channel_of(d2 * 16 + d3),
                    b: channel_of(d4 * 16 + d5),
                },
            )
        }
    }
}

/// Why a hex color string was rejected.
#[derive(Clone, Copy, PartialEq, Eq, Structural, Debug)]
pub enum ParseColorError {
    WrongLength,
    MissingHash,
    BadDigits,
}

/// The value of an ASCII hex digit, or -1.
pub open spec fn spec_hex_digit(b: u8) -> int {
    if 48 <= b <= 57 {
        b - 48
    } else if 97 <= b <= 102 {
        b - 87
    } else if 65 <= b <= 70 {
        b - 55
    } else {
        -1
    }
}

/// A 0..=255 channel value as a fixed-point channel.
pub open spec fn spec_channel_of(v: int) -> int {
    div_t(v * SCALE, 255)
}

/// What `Color::from_str` computes over the string's bytes.
pub open spec fn spec_color_from_hex(bs: Seq<u8>) -> Option<Color> {
    if bs.len() != 4 && bs.len() != 7 {
        None
    } else if bs[0] != 35 {
        None
    } else if bs.len() == 4 {
        let d0 = spec_hex_digit(bs[1]);
        let d1 = spec_hex_digit(bs[2]);
        let d2 = spec_hex_digit(bs[3]);
        if d0 < 0 || d1 < 0 || d2 < 0 {
            None
        } else {
            Some(
                Color {
                    r: spec_channel_of(d0 * 17) as i64,
                    g: spec_channel_of(d1 * 17) as i64,
                    b: spec_channel_of(d2 * 17) as i64,
                },
            )
        }
    } else {
        let d0 = spec_hex_digit(bs[1]);
        let d1 = spec_hex_digit(bs[2]);
        let d2 = spec_hex_digit(bs[3]);
        let d3 = spec_hex_digit(bs[4]);
        let d4 = spec_hex_digit(bs[5]);
        let d5 = spec_hex_digit(bs[6]);
        if d0 < 0 || d1 < 0 || d2 < 0 || d3 < 0 || d4 < 0 || d5 < 0 {
            None
        } else {
            Some(
                Color {
                    r: spec_channel_of(d0 * 16 + d1) as i64,
                    g: spec_channel_of(d2 * 16 + d3) as i64,
                    b: spec_channel_of(d4 * 16 + d5) as i64,
                },
            )
        }
    }
}

/// The value of an ASCII hex digit, or -1.
fn hex_digit(b: u8) -> (r: i64)
    ensures
        r == spec_hex_digit(b),
{
    if b >= 48 && b <= 57 {
        (b - 48) as i64
    } else if b >= 97 && b <= 102 {
        (b - 87) as i64
    } else if b >= 65 && b <= 70 {
        (b - 55) as i64
    } else {
        -1
    }
}

/// Converts a 0..=255 value into a fixed-point channel.
fn channel_of(v: i64) -> (r: i64)
    requires
        0 <= v <= 255,
    ensures
        r == spec_channel_of(v as int),
        0 <= r <= SCALE,
{
    proof {
        crate::math::lemma_div_t_bounds(v * SCALE, 255);
        assert(0 <= div_t(v * SCALE, 255) <= SCALE as int) by (nonlinear_arith)
            requires
                0 <= v <= 255,
                SCALE == 65536,
                255 * div_t(v * SCALE, 255) <= v * SCALE,
                div_t(v * SCALE, 255) >= 0,
        ;
    }
    sdiv(v * SCALE, 255)
}

/// One saturating fixed-point channel product.
fn channel_mul(a: i64, b: i64) -> (r: i64)
    requires
        0 <= a <= COLOR_MAX,
        0 <= b <= COLOR_MAX,
    ensures
        r == spec_cmin(div_t(a * b, SCALE as int)),
        0 <= r <= COLOR_MAX,
{
    proof {
        crate::vector::lemma_mul_abs_bound2(a as int, b as int, COLOR_MAX as int, COLOR_MAX as int);
        crate::math::lemma_div_t_bounds(a * b, SCALE as int);
    }
    let q: i128 = sdiv128((a as i128) * (b as i128), SCALE as i128);
    if q > COLOR_MAX as i128 {
        COLOR_MAX
    } else {
        q as i64
    }
}

/// One saturating fixed-point channel division.
fn channel_div(a: i64, b: i64) -> (r: i64)
    requires
        0 <= a <= COLOR_MAX,
        0 < b <= COLOR_MAX,
    ensures
        r == spec_cmin(div_t(a * SCALE, b as int)),
        0 <= r <= COLOR_MAX,
{
    proof {
        crate::vector::lemma_mul_abs_bound2(a as int, SCALE as int, COLOR_MAX as int, SCALE as int);
        crate::math::lemma_div_t_bounds(a * SCALE, b as int);
    }
    let q: i128 = sdiv128((a as i128) * (SCALE as i128), b as i128);
    if q > COLOR_MAX as i128 {
        COLOR_MAX
    } else {
        q as i64
    }
}

/// A quantized 8-bit-per-channel color for image output.
#[derive(Clone, Copy, PartialEq, Eq, Structural, Debug)]
pub struct Rgb8Bit {
    pub r: u8,
    pub g: u8,
    pub b: u8,
}

/// Rounds a fixed-point channel (clamped to `[0, 1]`) to 0..=255.
pub open spec fn spec_truncate_channel(v: int) -> int {
    let c = if v > SCALE as int {
        SCALE as int
    } else {
        v
    };
    div_t(c * 255 + SCALE / 2, SCALE as int)
}

impl Rgb8Bit {
    /// Quantizes a color to 8 bits per channel, rounding to nearest.
    pub fn truncate(color: &Color) -> (r: Rgb8Bit)
        requires
            color.wf(),
        ensures
            r.r == spec_truncate_channel(color.r as int),
            r.g == spec_truncate_channel(color.g as int),
            r.b == spec_truncate_channel(color.b as int),
    {
        Rgb8Bit {
            r: truncate_channel(color.r),
            g: truncate_channel(color.g),
            b: truncate_channel(color.b),
        }
    }
}

/// One channel of the 8-bit quantization.
fn truncate_channel(v: i64) -> (r: u8)
    requires
        0 <= v <= COLOR_MAX,
    ensures
        r == spec_truncate_channel(v as int),
{
    let c: i64 = if v > SCALE {
        SCALE
    } else {
        v
    };
    proof {
        crate::math::lemma_div_t_bounds(c * 255 + SCALE / 2, SCALE as int);
        assert(0 <= div_t(c * 255 + SCALE / 2, SCALE as int) <= 255) by (nonlinear_arith)
            requires
                0 <= c <= SCALE,
                SCALE == 65536,
                (SCALE as int) * div_t(c * 255 + SCALE / 2, SCALE as int) <= c * 255 + SCALE / 2,
                div_t(c * 255 + SCALE / 2, SCALE as int) >= 0,
        ;
    }
    sdiv(c * 255 + SCALE / 2, SCALE) as u8
}

} // verus!
