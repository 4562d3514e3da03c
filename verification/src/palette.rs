//! The colour quantiser: the nearest colour of a fixed palette.
//!
//! The `Grey` palette goes by luminance, `0.2126 r + 0.7152 g + 0.0722 b`,
//! taken as binary floating-point arithmetic of 53 significant bits takes
//! it: the three weights are the nearest such numbers to the decimals, and
//! each of the three products and of the two sums, made from left to right,
//! is rounded to the nearest number of 53 bits, a tie going to the even one.
//! All of it is stated and computed here in whole numbers of `2^-56`, the
//! step of the finest weight, so that nothing is left to the machine.

use vstd::prelude::*;
use vstd::arithmetic::div_mod::{lemma_div_denominator, lemma_fundamental_div_mod};
use crate::pixel::Pixel;

verus! {

/// The built-in palettes.
#[derive(Debug, Clone, Copy, PartialEq, Eq, Structural)]
pub enum Palette {
    /// Black, white and the six colours with every channel at 0 or 255.
    Colour,
    /// Black and white, chosen by luminance.
    Grey,
}

/// The weight of red: the number of 53 bits nearest to 0.2126, in units of
/// `2^-56`.
pub const RED_WEIGHT: u64 = 15319444492463480;

/// The weight of green: the number of 53 bits nearest to 0.7152, in units
/// of `2^-56`.
pub const GREEN_WEIGHT: u64 = 51535591255926056;

/// The weight of blue: the number of 53 bits nearest to 0.0722, in units of
/// `2^-56`.
pub const BLUE_WEIGHT: u64 = 5202558289538397;

/// A channel pushed to the nearer end of its range: 255 above the midpoint
/// 127, otherwise 0.
pub open spec fn threshold(c: int) -> u8 {
    if c > 127 {
        255
    } else {
        0
    }
}

/// The step between the numbers of 53 significant bits next to `n`: 1 below
/// `2^53`, and twice as much each time `n` doubles.
pub open spec fn rounding_unit(n: nat) -> nat
    decreases n,
{
    if n < 0x20_0000_0000_0000 {
        1
    } else {
        2 * rounding_unit(n / 2)
    }
}

/// The number of 53 significant bits nearest to `n`; of two equally near
/// the one whose last kept bit is 0.
pub open spec fn round_to_53_bits(n: nat) -> nat {
    let unit = rounding_unit(n);
    let kept = n / unit;
    let rest = n % unit;
    if 2 * rest > unit || (2 * rest == unit && kept % 2 == 1) {
        (kept + 1) * unit
    } else {
        kept * unit
    }
}

/// The luminance of `p` in units of `2^-56`: the three weighted channels,
/// each rounded, summed from left to right with each sum rounded. Alpha
/// plays no part.
pub open spec fn luminance_sum(p: Pixel) -> nat {
    let red = round_to_53_bits((RED_WEIGHT * p.r) as nat);
    let green = round_to_53_bits((GREEN_WEIGHT * p.g) as nat);
    let blue = round_to_53_bits((BLUE_WEIGHT * p.b) as nat);
    round_to_53_bits(round_to_53_bits(red + green) + blue)
}

/// The whole part of the luminance of `p`.
pub open spec fn luminance(p: Pixel) -> int {
    luminance_sum(p) as int / 0x100_0000_0000_0000
}

/// The colour of `palette` that stands for `p`.
///
/// Under `Colour` red, green and blue are thresholded one by one. Under
/// `Grey` the whole part of the luminance is thresholded and given to all
/// three. Alpha is kept in both.
pub open spec fn closest_palette_colour(p: Pixel, palette: Palette) -> Pixel {
    match palette {
        Palette::Colour => Pixel {
            r: threshold(p.r as int),
            g: threshold(p.g as int),
            b: threshold(p.b as int),
            a: p.a,
        },
        Palette::Grey => {
            let grey = threshold(luminance(p));
            Pixel { r: grey, g: grey, b: grey, a: p.a }
        },
    }
}

/// Rounds `n` to 53 significant bits.
fn round_53(n: u128) -> (rounded: u128)
    requires
        n <= 0xFFFF_FFFF_FFFF_FFFF_FFFF,
    ensures
        rounded == round_to_53_bits(n as nat),
        rounded <= 2 * n,
{
    let mut kept: u128 = n;
    let mut unit: u128 = 1;
    proof {
        assert(n as int / 1 == n);
    }
    while kept >= 0x20_0000_0000_0000
        invariant
            n <= 0xFFFF_FFFF_FFFF_FFFF_FFFF,
            1 <= unit,
            unit == 1 || kept >= 0x10_0000_0000_0000,
            kept == n as int / unit as int,
            unit * kept <= n,
            rounding_unit(n as nat) == unit * rounding_unit(kept as nat),
        decreases kept,
    {
        proof {
            let half = (kept / 2) as int;
            let rest = rounding_unit((kept / 2) as nat) as int;
            assert(unit <= n && (2 * unit) * half <= unit * kept) by (nonlinear_arith)
                requires
                    unit * kept <= n,
                    kept >= 1,
                    unit >= 1,
                    0 <= 2 * half <= kept,
            ;
            lemma_div_denominator(n as int, unit as int, 2);
            assert(unit * 2 == 2 * unit) by (nonlinear_arith);
            assert(unit * (2 * rest) == (2 * unit) * rest) by (nonlinear_arith);
        }
        kept = kept / 2;
        unit = unit * 2;
    }
    proof {
        lemma_fundamental_div_mod(n as int, unit as int);
        vstd::arithmetic::div_mod::lemma_mod_pos_bound(n as int, unit as int);
        assert(unit * rounding_unit(kept as nat) == unit) by (nonlinear_arith)
            requires
                rounding_unit(kept as nat) == 1,
        ;
        assert(unit == 1 ==> n as int % (unit as int) == 0);
        assert(unit > 1 ==> unit <= n) by (nonlinear_arith)
            requires
                unit * kept <= n,
                unit > 1 ==> kept >= 1,
                unit >= 1,
        ;
        assert((kept + 1) * unit == unit * kept + unit && kept * unit == unit * kept)
            by (nonlinear_arith);
    }
    let rest: u128 = n - unit * kept;
    if 2 * rest > unit || (2 * rest == unit && kept % 2 == 1) {
        (kept + 1) * unit
    } else {
        kept * unit
    }
}

/// Quantises `p` to `palette`.
pub fn get_closest_palette_colour(p: Pixel, palette: Palette) -> (outp: Pixel)
    ensures
        outp == closest_palette_colour(p, palette),
        outp.a == p.a,
{
    let mut outp = p;
    match palette {
        Palette::Colour => {
            if p.r > 127 {
                outp.r = 255;
            } else {
                outp.r = 0;
            }
            if p.g > 127 {
                outp.g = 255;
            } else {
                outp.g = 0;
            }
            if p.b > 127 {
                outp.b = 255;
            } else {
                outp.b = 0;
            }
        },
        Palette::Grey => {
            let red: u128 = round_53(RED_WEIGHT as u128 * p.r as u128);
            let green: u128 = round_53(GREEN_WEIGHT as u128 * p.g as u128);
            let blue: u128 = round_53(BLUE_WEIGHT as u128 * p.b as u128);
            let sum: u128 = round_53(round_53(red + green) + blue);
            let mut grey: u8 = 0;
            if sum / 0x100_0000_0000_0000 > 127 {
                grey = 255;
            }
            outp.r = grey;
            outp.g = grey;
            outp.b = grey;
        },
    }
    outp
}

/// Quantising never touches alpha.
pub proof fn quantise_keeps_alpha(p: Pixel, palette: Palette)
    ensures
        closest_palette_colour(p, palette).a == p.a,
{
}

/// Black has no luminance, and the luminance of white, just short of 255,
/// lies above the midpoint.
pub proof fn luminance_of_black_and_white(a: u8)
    ensures
        luminance(Pixel { r: 0, g: 0, b: 0, a }) == 0,
        luminance(Pixel { r: 255, g: 255, b: 255, a }) == 254,
{
    assert(round_to_53_bits(0) == 0) by {
        assert(rounding_unit(0) == 1);
        assert(0nat / 1 == 0 && 0nat % 1 == 0);
        assert(0 * 1 == 0) by (nonlinear_arith);
    }
    // red
    assert(round_to_53_bits(3906458345578187400) == 3906458345578187264) by {
        assert(rounding_unit(3906458345578187400) == 512) by {
            reveal_with_fuel(rounding_unit, 12);
        }
        assert(3906458345578187400nat / 512 == 7629801456207397 && 3906458345578187400nat % 512 == 136);
        assert(7629801456207397nat * 512 == 3906458345578187264);
    }
    // green
    assert(round_to_53_bits(13141575770261144280) == 13141575770261143552) by {
        assert(rounding_unit(13141575770261144280) == 2048) by {
            reveal_with_fuel(rounding_unit, 12);
        }
        assert(13141575770261144280nat / 2048 == 6416785044072824 && 13141575770261144280nat % 2048 == 728);
        assert(6416785044072824nat * 2048 == 13141575770261143552);
    }
    // blue
    assert(round_to_53_bits(1326652363832291235) == 1326652363832291328) by {
        assert(rounding_unit(1326652363832291235) == 256) by {
            reveal_with_fuel(rounding_unit, 12);
        }
        assert(1326652363832291235nat / 256 == 5182235796219887 && 1326652363832291235nat % 256 == 163);
        assert(5182235796219888nat * 256 == 1326652363832291328);
    }
    // first sum
    assert(round_to_53_bits(17048034115839330816) == 17048034115839330304) by {
        assert(rounding_unit(17048034115839330816) == 2048) by {
            reveal_with_fuel(rounding_unit, 12);
        }
        assert(17048034115839330816nat / 2048 == 8324235408124673 && 17048034115839330816nat % 2048 == 512);
        assert(8324235408124673nat * 2048 == 17048034115839330304);
    }
    // second sum
    assert(round_to_53_bits(18374686479671621632) == 18374686479671621632) by {
        assert(rounding_unit(18374686479671621632) == 2048) by {
            reveal_with_fuel(rounding_unit, 12);
        }
        assert(18374686479671621632nat / 2048 == 8972014882652159 && 18374686479671621632nat % 2048 == 0);
        assert(8972014882652159nat * 2048 == 18374686479671621632);
    }
}

/// Quantising is idempotent: a colour of the palette stands for itself.
pub proof fn quantise_is_idempotent(p: Pixel, palette: Palette)
    ensures
        closest_palette_colour(closest_palette_colour(p, palette), palette)
            == closest_palette_colour(p, palette),
{
    luminance_of_black_and_white(p.a);
}

} // verus!
