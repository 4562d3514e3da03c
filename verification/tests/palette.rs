use canvas_dither::palette::{get_closest_palette_colour, Palette};
use canvas_dither::pixel::Pixel;

#[test]
fn colour_thresholds_each_channel_at_127() {
    let p = Pixel::rgba(127, 128, 0, 9);
    assert_eq!(get_closest_palette_colour(p, Palette::Colour), Pixel::rgba(0, 255, 0, 9));
    let q = Pixel::rgba(255, 126, 200, 0);
    assert_eq!(get_closest_palette_colour(q, Palette::Colour), Pixel::rgba(255, 0, 255, 0));
}

#[test]
fn flat_light_grey_becomes_white() {
    let p = Pixel::rgba(200, 200, 200, 255);
    assert_eq!(get_closest_palette_colour(p, Palette::Colour), Pixel::rgba(255, 255, 255, 255));
}

#[test]
fn dark_grey_becomes_black() {
    let p = Pixel::rgba(100, 100, 100, 255);
    assert_eq!(get_closest_palette_colour(p, Palette::Colour), Pixel::rgba(0, 0, 0, 255));
}

#[test]
fn grey_thresholds_the_luminance() {
    // 0.2126 * 255 + 0.7152 * 0 + 0.0722 * 255 = 72.624
    let magenta = Pixel::rgba(255, 0, 255, 40);
    assert_eq!(get_closest_palette_colour(magenta, Palette::Grey), Pixel::rgba(0, 0, 0, 40));
    // 0.7152 * 255 = 182.376
    let green = Pixel::rgba(0, 255, 0, 41);
    assert_eq!(get_closest_palette_colour(green, Palette::Grey), Pixel::rgba(255, 255, 255, 41));
    // 0.2126 * 255 + 0.7152 * 100 + 0.0722 * 255 = 144.144
    let mixed = Pixel::rgba(255, 100, 255, 42);
    assert_eq!(get_closest_palette_colour(mixed, Palette::Grey), Pixel::rgba(255, 255, 255, 42));
}

#[test]
fn grey_cuts_between_127_and_128() {
    assert_eq!(
        get_closest_palette_colour(Pixel::rgb(127, 127, 127), Palette::Grey),
        Pixel::rgb(0, 0, 0)
    );
    assert_eq!(
        get_closest_palette_colour(Pixel::rgb(128, 128, 128), Palette::Grey),
        Pixel::rgb(255, 255, 255)
    );
    // 127.9278
    assert_eq!(
        get_closest_palette_colour(Pixel::rgb(12, 175, 3), Palette::Grey),
        Pixel::rgb(0, 0, 0)
    );
    // 128.0722
    assert_eq!(
        get_closest_palette_colour(Pixel::rgb(12, 175, 5), Palette::Grey),
        Pixel::rgb(255, 255, 255)
    );
}

#[test]
fn grey_rounds_as_53_bits_do_where_the_decimals_give_128() {
    // In decimals each of these has luminance 128. Rounded product by
    // product and sum by sum, the first six come out 2^-46 short of it.
    let short = [
        (12u8, 175u8, 4u8),
        (15, 152, 223),
        (145, 118, 177),
        (159, 131, 7),
        (162, 108, 226),
        (176, 121, 56),
    ];
    for (r, g, b) in short {
        assert_eq!(
            get_closest_palette_colour(Pixel::rgb(r, g, b), Palette::Grey),
            Pixel::rgb(0, 0, 0)
        );
    }
    let reached = [
        (29u8, 165u8, 53u8),
        (46, 155, 102),
        (63, 145, 151),
        (80, 135, 200),
        (94, 148, 30),
        (97, 125, 249),
        (111, 138, 79),
        (128, 128, 128),
        (193, 111, 105),
        (210, 101, 154),
        (227, 91, 203),
        (241, 104, 33),
        (244, 81, 252),
    ];
    for (r, g, b) in reached {
        assert_eq!(
            get_closest_palette_colour(Pixel::rgb(r, g, b), Palette::Grey),
            Pixel::rgb(255, 255, 255)
        );
    }
}

#[test]
fn white_and_black_are_their_own_greys() {
    assert_eq!(
        get_closest_palette_colour(Pixel::rgba(255, 255, 255, 3), Palette::Grey),
        Pixel::rgba(255, 255, 255, 3)
    );
    assert_eq!(
        get_closest_palette_colour(Pixel::rgba(0, 0, 0, 3), Palette::Grey),
        Pixel::rgba(0, 0, 0, 3)
    );
}

fn grey_by_floats(r: u8, g: u8, b: u8) -> u8 {
    let luminance = (0.2126 * (r as f64) + 0.7152 * (g as f64) + 0.0722 * (b as f64)) as u8;
    if luminance > 127 {
        255
    } else {
        0
    }
}

fn agrees_with_floats(first_red: u8) {
    for r in first_red..=first_red + 31 {
        for g in 0..=255u8 {
            for b in 0..=255u8 {
                let want = grey_by_floats(r, g, b);
                let got = get_closest_palette_colour(Pixel::rgba(r, g, b, g), Palette::Grey);
                assert_eq!(got, Pixel::rgba(want, want, want, g), "at ({}, {}, {})", r, g, b);
            }
        }
    }
}

#[test]
fn grey_agrees_with_floats_for_reds_from_0() {
    agrees_with_floats(0);
}

#[test]
fn grey_agrees_with_floats_for_reds_from_32() {
    agrees_with_floats(32);
}

#[test]
fn grey_agrees_with_floats_for_reds_from_64() {
    agrees_with_floats(64);
}

#[test]
fn grey_agrees_with_floats_for_reds_from_96() {
    agrees_with_floats(96);
}

#[test]
fn grey_agrees_with_floats_for_reds_from_128() {
    agrees_with_floats(128);
}

#[test]
fn grey_agrees_with_floats_for_reds_from_160() {
    agrees_with_floats(160);
}

#[test]
fn grey_agrees_with_floats_for_reds_from_192() {
    agrees_with_floats(192);
}

#[test]
fn grey_agrees_with_floats_for_reds_from_224() {
    agrees_with_floats(224);
}

#[test]
fn quantising_twice_changes_nothing() {
    for palette in [Palette::Colour, Palette::Grey] {
        for r in (0..=255u8).step_by(5) {
            for g in (0..=255u8).step_by(15) {
                for b in (0..=255u8).step_by(17) {
                    let p = Pixel::rgba(r, g, b, r ^ b);
                    let once = get_closest_palette_colour(p, palette);
                    assert_eq!(get_closest_palette_colour(once, palette), once);
                }
            }
        }
    }
}

#[test]
fn quantising_keeps_alpha() {
    for palette in [Palette::Colour, Palette::Grey] {
        for a in 0..=255u8 {
            let p = Pixel::rgba(a.wrapping_mul(7), 255 - a, a / 3, a);
            assert_eq!(get_closest_palette_colour(p, palette).a, a);
        }
    }
}

#[test]
fn every_output_channel_is_an_end_of_the_range() {
    for palette in [Palette::Colour, Palette::Grey] {
        for c in 0..=255u8 {
            let q = get_closest_palette_colour(Pixel::rgba(c, 255 - c, c / 2, 1), palette);
            assert!(q.r == 0 || q.r == 255);
            assert!(q.g == 0 || q.g == 255);
            assert!(q.b == 0 || q.b == 255);
            if palette == Palette::Grey {
                assert!(q.r == q.g && q.g == q.b);
            }
        }
    }
}
