use canvas_dither::dither::{dither, dither_one_pixel, dither_pixel, draw};
use canvas_dither::error::DitherError;
use canvas_dither::pixel::Pixel;
use canvas_dither::pixels::{EdgeHandling, Pixels};

fn buffer(w: u32, h: u32, data: Vec<u8>) -> Pixels {
    match Pixels::create(w, h, data) {
        Ok(p) => p,
        Err(e) => panic!("snapshot refused: {:?}", e),
    }
}

fn flat(w: u32, h: u32, p: [u8; 4]) -> Vec<u8> {
    let mut data: Vec<u8> = Vec::new();
    for _ in 0..(w * h) {
        data.extend_from_slice(&p);
    }
    data
}

fn mixed_4x3() -> Vec<u8> {
    let mut data: Vec<u8> = Vec::new();
    for k in 0..12u32 {
        data.push((10 * k % 256) as u8);
        data.push((37 * k % 256) as u8);
        data.push((91 * k % 256) as u8);
        data.push((255 - k) as u8);
    }
    data
}

#[test]
fn step_on_a_two_pixel_row() {
    let mut p = buffer(2, 1, flat(2, 1, [100, 100, 100, 255]));
    dither_pixel(&mut p, 0, 0);
    // The pixel itself turns black and keeps 3/16 + 5/16 of its own error,
    // which the single row folds back onto it; its neighbour takes 7/16
    // (143) and then 1/16 more.
    assert_eq!(p.get_at_index(0), Some(Pixel::rgb(49, 49, 49)));
    assert_eq!(p.get_at_index(1), Some(Pixel::rgb(149, 149, 149)));
    assert_eq!(p.edges(), EdgeHandling::Clamp);
}

#[test]
fn pass_over_a_two_pixel_row() {
    let mut p = buffer(2, 1, flat(2, 1, [100, 100, 100, 255]));
    dither(&mut p);
    assert_eq!(p.to_image_data(), (vec![29, 29, 29, 255, 167, 167, 167, 255], 2, 1));
}

#[test]
fn pass_over_a_flat_image() {
    let mut p = buffer(2, 2, flat(2, 2, [200, 200, 200, 255]));
    dither(&mut p);
    assert_eq!(p.edges(), EdgeHandling::Clamp);
    assert_eq!(p.width(), 2);
    assert_eq!(p.height(), 2);
    // Only the first pixel stays white: every later one is an edge pixel
    // and takes back part of its own error after it was quantised.
    assert_eq!(
        p.to_image_data().0,
        vec![255, 255, 255, 255, 220, 220, 220, 255, 226, 226, 226, 255, 92, 92, 92, 255]
    );
}

#[test]
fn step_on_a_single_pixel_gives_it_its_whole_error_back() {
    let mut p = buffer(1, 1, vec![100, 150, 200, 255]);
    dither_pixel(&mut p, 0, 0);
    assert_eq!(p.get(0, 0), Some(Pixel::rgb(98, 149, 197)));
}

#[test]
fn step_inside_the_grid_touches_four_neighbours() {
    let mut p = buffer(4, 3, mixed_4x3());
    dither_pixel(&mut p, 1, 1);
    assert_eq!(
        p.to_image_data().0,
        vec![
            0, 0, 0, 255, 10, 37, 91, 254, 20, 74, 182, 253, 30, 111, 17, 252, //
            40, 148, 108, 251, 0, 255, 255, 250, 81, 191, 9, 249, 70, 3, 125, 248, //
            89, 26, 205, 247, 105, 55, 33, 246, 103, 109, 138, 245, 110, 151, 233, 244,
        ]
    );
}

#[test]
fn step_in_the_bottom_left_corner_folds_onto_the_grid() {
    let mut p = buffer(4, 3, mixed_4x3());
    dither_pixel(&mut p, 0, 2);
    assert_eq!(
        p.to_image_data().0,
        vec![
            0, 0, 0, 255, 10, 37, 91, 254, 20, 74, 182, 253, 30, 111, 17, 252, //
            40, 148, 108, 251, 50, 185, 199, 250, 60, 222, 34, 249, 70, 3, 125, 248, //
            40, 19, 234, 247, 130, 96, 30, 246, 100, 114, 142, 245, 110, 151, 233, 244,
        ]
    );
}

#[test]
fn step_in_the_top_right_corner_folds_onto_the_grid() {
    let mut p = buffer(4, 3, mixed_4x3());
    dither_pixel(&mut p, 3, 0);
    assert_eq!(
        p.to_image_data().0,
        vec![
            0, 0, 0, 255, 10, 37, 91, 254, 20, 74, 182, 253, 13, 48, 7, 252, //
            40, 148, 108, 251, 50, 185, 199, 250, 65, 242, 37, 249, 80, 43, 131, 248, //
            80, 40, 216, 247, 90, 77, 51, 246, 100, 114, 142, 245, 110, 151, 233, 244,
        ]
    );
}

#[test]
fn step_works_under_every_edge_policy() {
    for edges in [EdgeHandling::Strict, EdgeHandling::Wrap, EdgeHandling::Clamp] {
        let mut p = buffer(4, 3, mixed_4x3());
        p.set_edges(edges);
        dither_pixel(&mut p, 1, 1);
        assert_eq!(p.edges(), EdgeHandling::Clamp);
        assert_eq!(p.get(1, 1), Some(Pixel::rgba(0, 255, 255, 250)));
        assert_eq!(p.get(2, 1), Some(Pixel::rgba(81, 191, 9, 249)));
        assert_eq!(p.get(0, 2), Some(Pixel::rgba(89, 26, 205, 247)));
        assert_eq!(p.get(1, 2), Some(Pixel::rgba(105, 55, 33, 246)));
        assert_eq!(p.get(2, 2), Some(Pixel::rgba(103, 109, 138, 245)));
    }
}

#[test]
fn pass_over_a_mixed_image() {
    let mut p = buffer(4, 3, mixed_4x3());
    dither(&mut p);
    assert_eq!(
        p.to_image_data().0,
        vec![
            0, 0, 0, 255, 0, 0, 0, 254, 0, 0, 255, 253, 17, 209, 0, 252, //
            0, 255, 0, 251, 0, 255, 255, 250, 0, 255, 0, 249, 200, 0, 202, 248, //
            43, 5, 255, 247, 248, 28, 0, 246, 44, 20, 202, 245, 85, 206, 158, 244,
        ]
    );
}

#[test]
fn pass_is_the_steps_in_raster_order() {
    let mut whole = buffer(4, 3, mixed_4x3());
    dither(&mut whole);
    let mut stepped = buffer(4, 3, mixed_4x3());
    for y in 0..3 {
        for x in 0..4 {
            dither_pixel(&mut stepped, x, y);
        }
    }
    assert_eq!(whole.to_image_data(), stepped.to_image_data());
}

#[test]
fn pass_keeps_alpha() {
    let mut p = buffer(4, 3, mixed_4x3());
    dither(&mut p);
    for k in 0..12usize {
        assert_eq!(p.get_at_index(k).map(|q| q.a), Some(255 - k as u8));
    }
}

#[test]
fn draw_dithers_the_snapshot() {
    assert_eq!(
        draw(2, 2, flat(2, 2, [200, 200, 200, 255])),
        Ok(vec![255, 255, 255, 255, 220, 220, 220, 255, 226, 226, 226, 255, 92, 92, 92, 255])
    );
    assert_eq!(
        draw(2, 1, flat(2, 1, [100, 100, 100, 255])),
        Ok(vec![29, 29, 29, 255, 167, 167, 167, 255])
    );
}

#[test]
fn draw_refuses_an_empty_surface() {
    assert_eq!(draw(0, 2, Vec::new()), Err(DitherError::UnavailableSurface));
    assert_eq!(draw(2, 0, Vec::new()), Err(DitherError::UnavailableSurface));
    assert_eq!(draw(0, 2, vec![0; 8]), Err(DitherError::UnavailableSurface));
}

#[test]
fn draw_refuses_a_snapshot_of_the_wrong_length() {
    assert_eq!(draw(2, 2, vec![0; 12]), Err(DitherError::LengthMismatch));
    assert_eq!(draw(1, 1, vec![0; 5]), Err(DitherError::LengthMismatch));
}

#[test]
fn dither_one_pixel_steps_once() {
    assert_eq!(
        dither_one_pixel(2, 1, flat(2, 1, [100, 100, 100, 255]), 0, 0),
        Ok(vec![49, 49, 49, 255, 149, 149, 149, 255])
    );
    assert_eq!(
        dither_one_pixel(1, 1, vec![100, 150, 200, 255], 0, 0),
        Ok(vec![98, 149, 197, 255])
    );
}

#[test]
fn dither_one_pixel_refuses_a_coordinate_outside() {
    let data = flat(2, 1, [100, 100, 100, 255]);
    assert_eq!(dither_one_pixel(2, 1, data.clone(), 2, 0), Err(DitherError::OutOfRange));
    assert_eq!(dither_one_pixel(2, 1, data.clone(), 0, 1), Err(DitherError::OutOfRange));
    assert_eq!(dither_one_pixel(2, 1, data, u32::MAX, u32::MAX), Err(DitherError::OutOfRange));
}

#[test]
fn dither_one_pixel_refuses_a_bad_snapshot_first() {
    assert_eq!(dither_one_pixel(0, 1, Vec::new(), 5, 5), Err(DitherError::UnavailableSurface));
    assert_eq!(dither_one_pixel(2, 1, vec![0; 7], 5, 5), Err(DitherError::LengthMismatch));
}

#[test]
fn the_entry_points_are_at_the_root_too() {
    assert_eq!(
        canvas_dither::draw(1, 1, vec![100, 150, 200, 255]),
        Ok(vec![98, 149, 197, 255])
    );
    assert_eq!(
        canvas_dither::dither_one_pixel(1, 1, vec![100, 150, 200, 255], 0, 0),
        Ok(vec![98, 149, 197, 255])
    );
}

#[test]
fn a_step_away_from_the_edges_leaves_the_rest_alone() {
    let before = mixed_4x3();
    let mut p = buffer(4, 3, mixed_4x3());
    dither_pixel(&mut p, 2, 1);
    let after = p.to_image_data().0;
    let touched = [6usize, 7, 9, 10, 11];
    for k in 0..12usize {
        if !touched.contains(&k) {
            assert_eq!(after[4 * k..4 * k + 4], before[4 * k..4 * k + 4]);
        }
    }
    // (60, 222, 34) becomes (0, 255, 0): the error is (60, -33, 34).
    assert_eq!(after[24..28], [0, 255, 0, 249]);
    // right: 70 + 60 * 7 / 16 = 96.25, 3 - 33 * 7 / 16 < 0, 125 + 34 * 7 / 16 = 139.875
    assert_eq!(after[28..32], [96, 0, 139, 248]);
    // below left: 90 + 11.25, 77 - 6.1875, 51 + 6.375
    assert_eq!(after[36..40], [101, 70, 57, 246]);
    // below: 100 + 18.75, 114 - 10.3125, 142 + 10.625
    assert_eq!(after[40..44], [118, 103, 152, 245]);
    // below right: 110 + 3.75, 151 - 2.0625, 233 + 2.125
    assert_eq!(after[44..48], [113, 148, 235, 244]);
}

#[test]
fn step_in_the_first_column_folds_below_left_onto_below() {
    let mut p = buffer(4, 3, mixed_4x3());
    dither_pixel(&mut p, 0, 1);
    // (40, 148, 108) becomes (0, 255, 0): the error is (40, -107, 108).
    // The pixel below takes 3/16 and then 5/16 of it; the last pixel of the
    // row below takes nothing.
    assert_eq!(
        p.to_image_data().0,
        vec![
            0, 0, 0, 255, 10, 37, 91, 254, 20, 74, 182, 253, 30, 111, 17, 252, //
            0, 255, 0, 251, 67, 138, 246, 250, 60, 222, 34, 249, 70, 3, 125, 248, //
            99, 0, 255, 247, 92, 70, 57, 246, 100, 114, 142, 245, 110, 151, 233, 244,
        ]
    );
}
