//! Pixel records and their channel-wise arithmetic.
//!
//! Two records are defined. [`Pixel`] is the storage form: four channels of
//! eight bits. [`PixelFx`] is the working form used while quantisation error
//! is spread: four signed channels counted in sixteenths, so that the
//! Floyd–Steinberg weights 7/16, 3/16, 5/16 and 1/16 are applied without any
//! rounding before the final conversion back to eight bits.

use vstd::prelude::*;

verus! {

/// An RGBA colour with eight bits per channel.
#[derive(Debug, Clone, Copy, PartialEq, Eq, Structural)]
pub struct Pixel {
    pub r: u8,
    pub g: u8,
    pub b: u8,
    pub a: u8,
}

/// A pixel with signed fractional channels.
///
/// Each field is a numerator over sixteen: the channel value `v` is stored as
/// `16 * v`. Sums, differences and integer multiples of such values are exact.
#[derive(Debug, Clone, Copy, PartialEq, Eq, Structural)]
pub struct PixelFx {
    pub r: i32,
    pub g: i32,
    pub b: i32,
    pub a: i32,
}

/// The value in `0..=255` nearest to `n`.
pub open spec fn saturate(n: int) -> u8 {
    if n < 0 {
        0
    } else if n > 255 {
        255
    } else {
        n as u8
    }
}

/// The eight-bit channel for a value of `n` sixteenths: the fraction is
/// dropped and the result is held within `0..=255`.
pub open spec fn channel_of_sixteenths(n: int) -> u8 {
    saturate(n / 16)
}

/// The value in the range of a [`PixelFx`] channel nearest to `n`.
pub open spec fn saturate_fx(n: int) -> i32 {
    if n < i32::MIN {
        i32::MIN
    } else if n > i32::MAX {
        i32::MAX
    } else {
        n as i32
    }
}

/// The fractional pixel with the same value as `p`.
pub open spec fn widen(p: Pixel) -> PixelFx {
    PixelFx {
        r: (16 * p.r) as i32,
        g: (16 * p.g) as i32,
        b: (16 * p.b) as i32,
        a: (16 * p.a) as i32,
    }
}

/// The stored pixel for the fractional pixel `p`, channel by channel as
/// [`channel_of_sixteenths`] gives it.
pub open spec fn narrow(p: PixelFx) -> Pixel {
    Pixel {
        r: channel_of_sixteenths(p.r as int),
        g: channel_of_sixteenths(p.g as int),
        b: channel_of_sixteenths(p.b as int),
        a: channel_of_sixteenths(p.a as int),
    }
}

fn saturate_u16(n: u16) -> (c: u8)
    ensures
        c == saturate(n as int),
{
    if n > 255 {
        255
    } else {
        n as u8
    }
}

fn channel_from_sixteenths(n: i32) -> (c: u8)
    ensures
        c == channel_of_sixteenths(n as int),
{
    if n < 0 {
        0
    } else {
        let whole: i32 = n / 16;
        if whole > 255 {
            255
        } else {
            whole as u8
        }
    }
}

fn saturate_i64(n: i64) -> (c: i32)
    ensures
        c == saturate_fx(n as int),
{
    if n < -2147483648 {
        -2147483648
    } else if n > 2147483647 {
        2147483647
    } else {
        n as i32
    }
}

fn multiply_channel(c: i32, k: i32) -> (m: i32)
    ensures
        m == saturate_fx(c * k),
{
    proof {
        assert(-0x4000_0000_0000_0000 <= c * k <= 0x4000_0000_0000_0000) by (nonlinear_arith)
            requires
                -0x8000_0000 <= c <= 0x8000_0000,
                -0x8000_0000 <= k <= 0x8000_0000,
        ;
    }
    saturate_i64(c as i64 * k as i64)
}

proof fn lemma_channel_product(c: u8, k: u8)
    ensures
        c * k <= 65025,
{
    assert(c * k <= 65025) by (nonlinear_arith)
        requires
            c <= 255,
            k <= 255,
    ;
}

impl Pixel {
    /// An opaque colour.
    pub fn rgb(r: u8, g: u8, b: u8) -> (p: Pixel)
        ensures
            p == (Pixel { r, g, b, a: 255 }),
    {
        Pixel { r, g, b, a: 255 }
    }

    /// A colour with the given opacity.
    pub fn rgba(r: u8, g: u8, b: u8, a: u8) -> (p: Pixel)
        ensures
            p == (Pixel { r, g, b, a }),
    {
        Pixel { r, g, b, a }
    }

    /// Channel-wise sum, each channel held at 255 where the sum exceeds it.
    pub fn add(self, other: Pixel) -> (p: Pixel)
        ensures
            p == (Pixel {
                r: saturate(self.r + other.r),
                g: saturate(self.g + other.g),
                b: saturate(self.b + other.b),
                a: saturate(self.a + other.a),
            }),
    {
        Pixel {
            r: self.r.saturating_add(other.r),
            g: self.g.saturating_add(other.g),
            b: self.b.saturating_add(other.b),
            a: self.a.saturating_add(other.a),
        }
    }

    /// Channel-wise difference, each channel held at 0 where `other` is the
    /// larger.
    pub fn sub(self, other: Pixel) -> (p: Pixel)
        ensures
            p == (Pixel {
                r: saturate(self.r - other.r),
                g: saturate(self.g - other.g),
                b: saturate(self.b - other.b),
                a: saturate(self.a - other.a),
            }),
    {
        Pixel {
            r: self.r.saturating_sub(other.r),
            g: self.g.saturating_sub(other.g),
            b: self.b.saturating_sub(other.b),
            a: self.a.saturating_sub(other.a),
        }
    }

    /// Every channel multiplied by `other`, held at 255 where the product
    /// exceeds it.
    pub fn mul(self, other: u8) -> (p: Pixel)
        ensures
            p == (Pixel {
                r: saturate(self.r * other),
                g: saturate(self.g * other),
                b: saturate(self.b * other),
                a: saturate(self.a * other),
            }),
    {
        let k: u16 = other as u16;
        proof {
            lemma_channel_product(self.r, other);
            lemma_channel_product(self.g, other);
            lemma_channel_product(self.b, other);
            lemma_channel_product(self.a, other);
        }
        Pixel {
            r: saturate_u16(self.r as u16 * k),
            g: saturate_u16(self.g as u16 * k),
            b: saturate_u16(self.b as u16 * k),
            a: saturate_u16(self.a as u16 * k),
        }
    }

    /// Every channel divided by `other`, the remainder dropped.
    pub fn div(self, other: u8) -> (p: Pixel)
        requires
            other != 0,
        ensures
            p == (Pixel {
                r: (self.r / other) as u8,
                g: (self.g / other) as u8,
                b: (self.b / other) as u8,
                a: (self.a / other) as u8,
            }),
    {
        Pixel { r: self.r / other, g: self.g / other, b: self.b / other, a: self.a / other }
    }
}

impl From<PixelFx> for Pixel {
    /// The stored pixel for a fractional one: every channel loses its
    /// fraction and is held within `0..=255`.
    fn from(p: PixelFx) -> (q: Pixel) {
        Pixel {
            r: channel_from_sixteenths(p.r),
            g: channel_from_sixteenths(p.g),
            b: channel_from_sixteenths(p.b),
            a: channel_from_sixteenths(p.a),
        }
    }
}

impl vstd::std_specs::convert::FromSpecImpl<PixelFx> for Pixel {
    open spec fn obeys_from_spec() -> bool {
        true
    }

    open spec fn from_spec(p: PixelFx) -> Pixel {
        narrow(p)
    }
}

impl PixelFx {
    /// An opaque colour from three channels given in sixteenths.
    pub fn rgb(r: i32, g: i32, b: i32) -> (p: PixelFx)
        ensures
            p == (PixelFx { r, g, b, a: 4080 }),
    {
        PixelFx { r, g, b, a: 4080 }
    }

    /// Channel-wise sum, each channel held at the nearer end of its range
    /// where the sum lies outside it.
    pub fn add(self, other: PixelFx) -> (p: PixelFx)
        ensures
            p == (PixelFx {
                r: saturate_fx(self.r + other.r),
                g: saturate_fx(self.g + other.g),
                b: saturate_fx(self.b + other.b),
                a: saturate_fx(self.a + other.a),
            }),
    {
        PixelFx {
            r: saturate_i64(self.r as i64 + other.r as i64),
            g: saturate_i64(self.g as i64 + other.g as i64),
            b: saturate_i64(self.b as i64 + other.b as i64),
            a: saturate_i64(self.a as i64 + other.a as i64),
        }
    }

    /// Channel-wise difference, each channel held at the nearer end of its
    /// range where the difference lies outside it.
    pub fn sub(self, other: PixelFx) -> (p: PixelFx)
        ensures
            p == (PixelFx {
                r: saturate_fx(self.r - other.r),
                g: saturate_fx(self.g - other.g),
                b: saturate_fx(self.b - other.b),
                a: saturate_fx(self.a - other.a),
            }),
    {
        PixelFx {
            r: saturate_i64(self.r as i64 - other.r as i64),
            g: saturate_i64(self.g as i64 - other.g as i64),
            b: saturate_i64(self.b as i64 - other.b as i64),
            a: saturate_i64(self.a as i64 - other.a as i64),
        }
    }

    /// Every channel multiplied by the whole number `other`, held at the
    /// nearer end of its range where the product lies outside it.
    pub fn mul(self, other: i32) -> (p: PixelFx)
        ensures
            p == (PixelFx {
                r: saturate_fx(self.r * other),
                g: saturate_fx(self.g * other),
                b: saturate_fx(self.b * other),
                a: saturate_fx(self.a * other),
            }),
    {
        PixelFx {
            r: multiply_channel(self.r, other),
            g: multiply_channel(self.g, other),
            b: multiply_channel(self.b, other),
            a: multiply_channel(self.a, other),
        }
    }
}

impl From<Pixel> for PixelFx {
    /// The fractional pixel with the same value: every channel times
    /// sixteen.
    fn from(p: Pixel) -> (q: PixelFx) {
        PixelFx { r: 16 * (p.r as i32), g: 16 * (p.g as i32), b: 16 * (p.b as i32), a: 16 * (p.a as i32) }
    }
}

impl vstd::std_specs::convert::FromSpecImpl<Pixel> for PixelFx {
    open spec fn obeys_from_spec() -> bool {
        true
    }

    open spec fn from_spec(p: Pixel) -> PixelFx {
        widen(p)
    }
}

} // verus!
