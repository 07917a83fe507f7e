//! RGB colors with 8-bit channels.

use vstd::prelude::*;
use crate::fixed::ONE;

verus! {

#[derive(Clone, Copy, Debug, PartialEq, Eq, Structural)]
pub struct Color {
    pub r: u8,
    pub g: u8,
    pub b: u8,
}

/// The packed `0xRRGGBB` value of three channels.
pub open spec fn pack(r: u8, g: u8, b: u8) -> int {
    r * 65536 + g * 256 + b
}

/// Clamps a mathematical integer into a channel value.
pub open spec fn clamp_channel(v: int) -> u8 {
    if v < 0 {
        0
    } else if v > 255 {
        255
    } else {
        v as u8
    }
}

/// Clamps a fixed-point factor into `[0, ONE]`.
pub open spec fn unit_factor(t: int) -> int {
    if t < 0 {
        0
    } else if t > ONE {
        ONE as int
    } else {
        t
    }
}

/// One channel of the blend from `a` to `b` by the fixed-point factor `t`.
pub open spec fn mix(a: u8, b: u8, t: int) -> u8 {
    ((a * (ONE - unit_factor(t)) + b * unit_factor(t)) / (ONE as int)) as u8
}

/// One channel scaled by the fixed-point factor `k`, clamped to the channel range.
pub open spec fn scaled(c: u8, k: int) -> u8 {
    clamp_channel((c * k) / (ONE as int))
}

/// The blend of two colors, channel by channel.
pub open spec fn lerp_color(a: Color, b: Color, t: int) -> Color {
    Color { r: mix(a.r, b.r, t), g: mix(a.g, b.g, t), b: mix(a.b, b.b, t) }
}

/// A color scaled channel by channel.
pub open spec fn scale_color(c: Color, k: int) -> Color {
    Color { r: scaled(c.r, k), g: scaled(c.g, k), b: scaled(c.b, k) }
}

fn clamp_channel_exec(v: i64) -> (r: u8)
    ensures
        r == clamp_channel(v as int),
{
    if v < 0 {
        0
    } else if v > 255 {
        255
    } else {
        v as u8
    }
}

fn mix_channel(a: u8, b: u8, t: i32) -> (r: u8)
    ensures
        r == mix(a, b, t as int),
{
    let tt: i64 = if t < 0 {
        0
    } else if t > ONE {
        ONE as i64
    } else {
        t as i64
    };
    let rest: i64 = ONE as i64 - tt;
    proof {
        assert(0 <= a * rest <= 255 * ONE) by (nonlinear_arith)
            requires
                0 <= rest <= ONE,
                0 <= a <= 255,
        ;
        assert(0 <= b * tt <= 255 * ONE) by (nonlinear_arith)
            requires
                0 <= tt <= ONE,
                0 <= b <= 255,
        ;
    }
    let num: i64 = (a as i64) * rest + (b as i64) * tt;
    proof {
        assert(0 <= num <= 255 * ONE) by (nonlinear_arith)
            requires
                num == a * (ONE - tt) + b * tt,
                0 <= tt <= ONE,
                0 <= a <= 255,
                0 <= b <= 255,
        ;
    }
    (num / (ONE as i64)) as u8
}

fn scale_channel(c: u8, k: i32) -> (r: u8)
    ensures
        r == scaled(c, k as int),
{
    proof {
        assert(-256 * 0x8000_0000 <= c * k <= 256 * 0x8000_0000) by (nonlinear_arith)
            requires
                0 <= c <= 255,
                -0x8000_0000 <= k < 0x8000_0000,
        ;
    }
    let v: i64 = (c as i64) * (k as i64) / (ONE as i64);
    let q: i64 = if k < 0 {
        proof {
            assert((c * k) <= 0) by (nonlinear_arith)
                requires
                    0 <= c,
                    k < 0,
            ;
            assert((c * k) / (ONE as int) <= 0) by (nonlinear_arith)
                requires
                    (c * k) <= 0,
            ;
        }
        0
    } else {
        proof {
            assert(0 <= c * k) by (nonlinear_arith)
                requires
                    0 <= c,
                    0 <= k,
            ;
        }
        v
    };
    if q > 255 {
        255
    } else {
        q as u8
    }
}

impl Color {
    pub fn new(r: u8, g: u8, b: u8) -> (c: Color)
        ensures
            c == (Color { r, g, b }),
    {
        Color { r, g, b }
    }

    pub fn black() -> (c: Color)
        ensures
            c == (Color { r: 0, g: 0, b: 0 }),
    {
        Color { r: 0, g: 0, b: 0 }
    }

    /// A color from channel values that may lie outside `[0, 255]`, each clamped.
    pub fn clamped(r: i64, g: i64, b: i64) -> (c: Color)
        ensures
            c == (Color { r: clamp_channel(r as int), g: clamp_channel(g as int), b: clamp_channel(b as int) }),
    {
        Color { r: clamp_channel_exec(r), g: clamp_channel_exec(g), b: clamp_channel_exec(b) }
    }

    /// Packs the color into `0xRRGGBB`.
    pub fn to_hex(&self) -> (h: u32)
        ensures
            h == pack(self.r, self.g, self.b),
    {
        (self.r as u32) * 65536 + (self.g as u32) * 256 + (self.b as u32)
    }

    /// Unpacks `0xRRGGBB`; bits above the low 24 are ignored.
    pub fn from_hex(h: u32) -> (c: Color)
        ensures
            c.r == (h / 65536) % 256,
            c.g == (h / 256) % 256,
            c.b == h % 256,
    {
        Color { r: ((h / 65536) % 256) as u8, g: ((h / 256) % 256) as u8, b: (h % 256) as u8 }
    }

    /// Linear blend from `self` (at 0) to `other` (at `ONE`); `t` is clamped to `[0, ONE]`.
    pub fn lerp(&self, other: &Color, t: i32) -> (c: Color)
        ensures
            c == lerp_color(*self, *other, t as int),
    {
        Color {
            r: mix_channel(self.r, other.r, t),
            g: mix_channel(self.g, other.g, t),
            b: mix_channel(self.b, other.b, t),
        }
    }

    /// Multiplies every channel by the fixed-point intensity `k`, clamping to `[0, 255]`.
    pub fn scale(&self, k: i32) -> (c: Color)
        ensures
            c == scale_color(*self, k as int),
    {
        Color {
            r: scale_channel(self.r, k),
            g: scale_channel(self.g, k),
            b: scale_channel(self.b, k),
        }
    }
}

} // verus!
