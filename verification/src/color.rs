//! Packed 8-bit RGBA color values and the channel arithmetic that the
//! compositing modes are built from.
//!
//! Channel products treat bytes as fixed-point fractions of 255 (so 255 acts
//! as 1.0), sums saturate, and `blend_fast` is a linear interpolation between
//! two colors weighted by an opacity byte.

use vstd::prelude::*;

verus! {

/// One color: four independent 8-bit channels.
#[derive(Clone, Copy, Debug, PartialEq, Eq, Structural)]
pub struct Color {
    pub r: u8,
    pub g: u8,
    pub b: u8,
    pub a: u8,
}

/// Product of two channels, read as fractions of 255: `a * b / 255`.
pub open spec fn mul8(a: int, b: int) -> int {
    (a * b) / 255
}

/// Linear interpolation of two channels by a weight `t` out of 255:
/// `t == 0` gives `b` exactly, `t == 255` gives `a` exactly.
pub open spec fn lerp8(a: int, b: int, t: int) -> int {
    (a * t + b * (255 - t)) / 255
}

/// Saturating sum of two channels.
pub open spec fn sat8(a: int, b: int) -> int {
    if a + b > 255 {
        255
    } else {
        a + b
    }
}

/// `mul8` stays inside one byte.
pub proof fn lemma_mul8_bounds(a: int, b: int)
    requires
        0 <= a <= 255,
        0 <= b <= 255,
    ensures
        0 <= mul8(a, b) <= 255,
        b == 255 ==> mul8(a, b) == a,
{
    assert(0 <= (a * b) / 255 <= 255 && (b == 255 ==> (a * b) / 255 == a)) by (nonlinear_arith)
        requires
            0 <= a <= 255,
            0 <= b <= 255,
    ;
}

/// `lerp8` stays inside one byte, and is exact at the two endpoints.
pub proof fn lemma_lerp8_bounds(a: int, b: int, t: int)
    requires
        0 <= a <= 255,
        0 <= b <= 255,
        0 <= t <= 255,
    ensures
        0 <= lerp8(a, b, t) <= 255,
        t == 0 ==> lerp8(a, b, t) == b,
        t == 255 ==> lerp8(a, b, t) == a,
{
    assert((0 <= (a * t + b * (255 - t)) / 255 <= 255) && (t == 0 ==> (a * t + b * (255 - t))
        / 255 == b) && (t == 255 ==> (a * t + b * (255 - t)) / 255 == a)) by (nonlinear_arith)
        requires
            0 <= a <= 255,
            0 <= b <= 255,
            0 <= t <= 255,
    ;
}

/// Channel-wise `mul8` of two colors: the "tint" product.
pub open spec fn modulate_spec(c: Color, t: Color) -> Color {
    Color {
        r: mul8(c.r as int, t.r as int) as u8,
        g: mul8(c.g as int, t.g as int) as u8,
        b: mul8(c.b as int, t.b as int) as u8,
        a: mul8(c.a as int, t.a as int) as u8,
    }
}

/// Channel-wise saturating sum of two colors.
pub open spec fn plus_sat_spec(c: Color, o: Color) -> Color {
    Color {
        r: sat8(c.r as int, o.r as int) as u8,
        g: sat8(c.g as int, o.g as int) as u8,
        b: sat8(c.b as int, o.b as int) as u8,
        a: sat8(c.a as int, o.a as int) as u8,
    }
}

/// Color with the three color channels inverted; alpha is kept.
pub open spec fn inverted_spec(c: Color) -> Color {
    Color { r: (255 - c.r) as u8, g: (255 - c.g) as u8, b: (255 - c.b) as u8, a: c.a }
}

/// Channel-wise interpolation of `fg` over `bg` by an opacity byte.
pub open spec fn blend_spec(fg: Color, bg: Color, opacity: u8) -> Color {
    Color {
        r: lerp8(fg.r as int, bg.r as int, opacity as int) as u8,
        g: lerp8(fg.g as int, bg.g as int, opacity as int) as u8,
        b: lerp8(fg.b as int, bg.b as int, opacity as int) as u8,
        a: lerp8(fg.a as int, bg.a as int, opacity as int) as u8,
    }
}

impl Color {
    /// Build a color from its four channels.
    pub fn new(r: u8, g: u8, b: u8, a: u8) -> (c: Color)
        ensures
            c == (Color { r, g, b, a }),
    {
        Color { r, g, b, a }
    }

    /// Opaque white, the neutral tint.
    pub fn white() -> (c: Color)
        ensures
            c == (Color { r: 255u8, g: 255u8, b: 255u8, a: 255u8 }),
    {
        Color { r: 255, g: 255, b: 255, a: 255 }
    }

    /// Opaque black, what out-of-range reads return.
    pub fn black() -> (c: Color)
        ensures
            c == (Color { r: 0u8, g: 0u8, b: 0u8, a: 255u8 }),
    {
        Color { r: 0, g: 0, b: 0, a: 255 }
    }

    /// Channel-wise product with `t`, each channel read as a fraction of 255.
    /// Tinting with white returns the color unchanged.
    pub fn modulate(self, t: Color) -> (c: Color)
        ensures
            c == modulate_spec(self, t),
            t == (Color { r: 255u8, g: 255u8, b: 255u8, a: 255u8 }) ==> c == self,
    {
        proof {
            lemma_mul8_bounds(self.r as int, t.r as int);
            lemma_mul8_bounds(self.g as int, t.g as int);
            lemma_mul8_bounds(self.b as int, t.b as int);
            lemma_mul8_bounds(self.a as int, t.a as int);
        }
        Color {
            r: ((self.r as u32 * t.r as u32) / 255) as u8,
            g: ((self.g as u32 * t.g as u32) / 255) as u8,
            b: ((self.b as u32 * t.b as u32) / 255) as u8,
            a: ((self.a as u32 * t.a as u32) / 255) as u8,
        }
    }

    /// Channel-wise saturating sum.
    pub fn plus_sat(self, o: Color) -> (c: Color)
        ensures
            c == plus_sat_spec(self, o),
    {
        let r16: u16 = self.r as u16 + o.r as u16;
        let g16: u16 = self.g as u16 + o.g as u16;
        let b16: u16 = self.b as u16 + o.b as u16;
        let a16: u16 = self.a as u16 + o.a as u16;
        Color {
            r: if r16 > 255 {
                255
            } else {
                r16 as u8
            },
            g: if g16 > 255 {
                255
            } else {
                g16 as u8
            },
            b: if b16 > 255 {
                255
            } else {
                b16 as u8
            },
            a: if a16 > 255 {
                255
            } else {
                a16 as u8
            },
        }
    }

    /// The color with r, g, b inverted and alpha kept.
    pub fn inverted(self) -> (c: Color)
        ensures
            c == inverted_spec(self),
    {
        Color { r: 255 - self.r, g: 255 - self.g, b: 255 - self.b, a: self.a }
    }

    /// Linear blend of `self` (foreground) over `bg`, weighted by `opacity`:
    /// opacity 0 returns `bg` exactly, opacity 255 returns `self` exactly.
    pub fn blend_fast(self, bg: Color, opacity: u8) -> (c: Color)
        ensures
            c == blend_spec(self, bg, opacity),
            opacity == 0 ==> c == bg,
            opacity == 255 ==> c == self,
    {
        proof {
            lemma_lerp8_bounds(self.r as int, bg.r as int, opacity as int);
            lemma_lerp8_bounds(self.g as int, bg.g as int, opacity as int);
            lemma_lerp8_bounds(self.b as int, bg.b as int, opacity as int);
            lemma_lerp8_bounds(self.a as int, bg.a as int, opacity as int);
        }
        let t: u32 = opacity as u32;
        let nt: u32 = 255 - t;
        Color {
            r: ((self.r as u32 * t + bg.r as u32 * nt) / 255) as u8,
            g: ((self.g as u32 * t + bg.g as u32 * nt) / 255) as u8,
            b: ((self.b as u32 * t + bg.b as u32 * nt) / 255) as u8,
            a: ((self.a as u32 * t + bg.a as u32 * nt) / 255) as u8,
        }
    }
}

/// Blending any foreground over `bg` with opacity 0 leaves `bg` unchanged,
/// and blending with opacity 255 returns the foreground exactly.
pub proof fn lemma_blend_opacity_ends(fg: Color, bg: Color)
    ensures
        blend_spec(fg, bg, 0u8) == bg,
        blend_spec(fg, bg, 255u8) == fg,
{
    lemma_lerp8_bounds(fg.r as int, bg.r as int, 0);
    lemma_lerp8_bounds(fg.g as int, bg.g as int, 0);
    lemma_lerp8_bounds(fg.b as int, bg.b as int, 0);
    lemma_lerp8_bounds(fg.a as int, bg.a as int, 0);
    lemma_lerp8_bounds(fg.r as int, bg.r as int, 255);
    lemma_lerp8_bounds(fg.g as int, bg.g as int, 255);
    lemma_lerp8_bounds(fg.b as int, bg.b as int, 255);
    lemma_lerp8_bounds(fg.a as int, bg.a as int, 255);
}

/// Tinting with opaque white is the identity.
pub proof fn lemma_modulate_white(c: Color)
    ensures
        modulate_spec(c, Color { r: 255u8, g: 255u8, b: 255u8, a: 255u8 }) == c,
{
    lemma_mul8_bounds(c.r as int, 255);
    lemma_mul8_bounds(c.g as int, 255);
    lemma_mul8_bounds(c.b as int, 255);
    lemma_mul8_bounds(c.a as int, 255);
}

} // verus!
