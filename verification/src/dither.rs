//! Floyd–Steinberg error diffusion.
//!
//! Each visited pixel is replaced by its palette colour, and the error made
//! in doing so is handed to four neighbours that have not been visited yet:
//! 7/16 to the right, 3/16 below left, 5/16 below and 1/16 below right.
//! Neighbours beyond the grid are folded onto its nearest row and column, so
//! that an edge pixel may take several shares.

use vstd::prelude::*;
use crate::error::DitherError;
use crate::palette::{closest_palette_colour, get_closest_palette_colour, Palette};
use crate::pixel::{channel_of_sixteenths, widen, Pixel, PixelFx};
use crate::pixels::{
    bytes_of, inside_resolves_to_itself, lemma_cell_index, lemma_cell_of_index,
    resolve_in_bounds, snapshot_fault, snapshot_view, EdgeHandling, Pixels, PixelsView,
};

verus! {

/// One sixteenth of the error made by storing `new` in place of `old`, for
/// each channel and alpha too. Held in sixteenths it is the plain difference
/// of the channels.
pub open spec fn error_share(old: Pixel, new: Pixel) -> PixelFx {
    PixelFx {
        r: (old.r - new.r) as i32,
        g: (old.g - new.g) as i32,
        b: (old.b - new.b) as i32,
        a: (old.a - new.a) as i32,
    }
}

/// The pixel `p` after it has taken `weight` shares of an error: to each
/// channel `weight * share / 16` is added exactly, then the fraction is
/// dropped and the channel held within `0..=255`.
pub open spec fn absorb(p: Pixel, share: PixelFx, weight: int) -> Pixel {
    Pixel {
        r: channel_of_sixteenths(16 * p.r + share.r * weight),
        g: channel_of_sixteenths(16 * p.g + share.g * weight),
        b: channel_of_sixteenths(16 * p.b + share.b * weight),
        a: channel_of_sixteenths(16 * p.a + share.a * weight),
    }
}

/// The buffer after the pixel that `(x, y)` names has taken `weight` shares
/// of an error.
pub open spec fn diffuse(v: PixelsView, x: int, y: int, share: PixelFx, weight: int) -> PixelsView {
    match v.resolve(x, y) {
        Some(k) => v.with_pixel(k, absorb(v.px[k], share, weight)),
        None => v,
    }
}

/// The buffer after one step at `(x, y)`, a cell of the grid.
///
/// The pixel is quantised to the `Colour` palette, the edge policy becomes
/// `Clamp`, and the four neighbours take their shares one after another, so
/// that a pixel named twice takes both.
#[verifier::opaque]
pub open spec fn dither_step(v: PixelsView, x: int, y: int) -> PixelsView {
    let k = y * v.w + x;
    let old = v.px[k];
    let new = closest_palette_colour(old, Palette::Colour);
    let share = error_share(old, new);
    let placed = v.with_pixel(k, new).with_edges(EdgeHandling::Clamp);
    let right = diffuse(placed, x + 1, y, share, 7);
    let below_left = diffuse(right, x - 1, y + 1, share, 3);
    let below = diffuse(below_left, x, y + 1, share, 5);
    diffuse(below, x + 1, y + 1, share, 1)
}

/// The buffer after the first `n` cells have been stepped over in raster
/// order: row by row from the top, each row from the left.
pub open spec fn dither_first(v: PixelsView, n: nat) -> PixelsView
    decreases n,
{
    if n == 0 {
        v
    } else {
        let before = dither_first(v, (n - 1) as nat);
        dither_step(before, (n - 1) % (v.w as int), (n - 1) / (v.w as int))
    }
}

/// The buffer after a pass over the whole grid.
pub open spec fn dither_all(v: PixelsView) -> PixelsView {
    dither_first(v, v.w * v.h)
}

/// What is wrong with a request to step at `(x, y)` on a snapshot of `len`
/// bytes for a surface of `w` by `h` pixels, if anything.
pub open spec fn step_fault(w: nat, h: nat, len: nat, x: nat, y: nat) -> Option<DitherError> {
    match snapshot_fault(w, h, len) {
        Some(e) => Some(e),
        None => if x >= w || y >= h {
            Some(DitherError::OutOfRange)
        } else {
            None
        },
    }
}

/// The four shares handed out in a step add up to the whole error: with
/// `s` one sixteenth of it, `7 s + 3 s + 5 s + 1 s` is the difference of the
/// old and the new pixel, in every channel.
pub proof fn shares_add_up_to_error(old: Pixel, new: Pixel)
    ensures
        ({
            let s = error_share(old, new);
            let whole = (widen(old), widen(new));
            &&& s.r * 7 + s.r * 3 + s.r * 5 + s.r * 1 == whole.0.r - whole.1.r
            &&& s.g * 7 + s.g * 3 + s.g * 5 + s.g * 1 == whole.0.g - whole.1.g
            &&& s.b * 7 + s.b * 3 + s.b * 5 + s.b * 1 == whole.0.b - whole.1.b
            &&& s.a * 7 + s.a * 3 + s.a * 5 + s.a * 1 == whole.0.a - whole.1.a
        }),
{
}

/// Handing a share to a neighbour keeps the shape of the buffer and its
/// edge policy.
pub proof fn diffuse_keeps_shape(v: PixelsView, x: int, y: int, share: PixelFx, weight: int)
    requires
        v.wf(),
    ensures
        diffuse(v, x, y, share, weight).wf(),
        diffuse(v, x, y, share, weight).w == v.w,
        diffuse(v, x, y, share, weight).h == v.h,
        diffuse(v, x, y, share, weight).edges == v.edges,
{
    resolve_in_bounds(v, x, y);
}

/// A step at a cell of the grid keeps the shape of the buffer and leaves it
/// under `Clamp`.
pub proof fn step_keeps_shape(v: PixelsView, x: int, y: int)
    requires
        v.wf(),
        0 <= x < v.w,
        0 <= y < v.h,
    ensures
        dither_step(v, x, y).wf(),
        dither_step(v, x, y).w == v.w,
        dither_step(v, x, y).h == v.h,
        dither_step(v, x, y).edges == EdgeHandling::Clamp,
{
    reveal(dither_step);
    let k = y * v.w + x;
    let old = v.px[k];
    let new = closest_palette_colour(old, Palette::Colour);
    let share = error_share(old, new);
    let placed = v.with_pixel(k, new).with_edges(EdgeHandling::Clamp);
    let right = diffuse(placed, x + 1, y, share, 7);
    let below_left = diffuse(right, x - 1, y + 1, share, 3);
    let below = diffuse(below_left, x, y + 1, share, 5);
    lemma_cell_index(x, y, v.w as int, v.h as int);
    diffuse_keeps_shape(placed, x + 1, y, share, 7);
    diffuse_keeps_shape(right, x - 1, y + 1, share, 3);
    diffuse_keeps_shape(below_left, x, y + 1, share, 5);
    diffuse_keeps_shape(below, x + 1, y + 1, share, 1);
}

/// A pass keeps the shape of the buffer, and once a cell has been stepped
/// over the buffer is under `Clamp`.
pub proof fn pass_keeps_shape(v: PixelsView, n: nat)
    requires
        v.wf(),
        n <= v.w * v.h,
    ensures
        dither_first(v, n).wf(),
        dither_first(v, n).w == v.w,
        dither_first(v, n).h == v.h,
        n > 0 ==> dither_first(v, n).edges == EdgeHandling::Clamp,
    decreases n,
{
    if n > 0 {
        let before = dither_first(v, (n - 1) as nat);
        let w = v.w as int;
        pass_keeps_shape(v, (n - 1) as nat);
        lemma_cell_of_index(n - 1, w, v.h as int);
        step_keeps_shape(before, (n - 1) % w, (n - 1) / w);
    }
}

/// Away from the edges of the grid a step changes five pixels and no other:
/// the pixel itself becomes its palette colour, and the neighbours to the
/// right, below left, below and below right take 7, 3, 5 and 1 shares of its
/// error, one time each.
pub proof fn step_away_from_edges(v: PixelsView, x: int, y: int)
    requires
        v.wf(),
        1 <= x,
        x + 1 < v.w,
        0 <= y,
        y + 1 < v.h,
    ensures
        ({
            let k = y * v.w + x;
            let below = k + v.w;
            let new = closest_palette_colour(v.px[k], Palette::Colour);
            let share = error_share(v.px[k], new);
            let after = dither_step(v, x, y);
            &&& 0 <= k && below + 1 < v.px.len()
            &&& after.px.len() == v.px.len()
            &&& after.px[k] == new
            &&& after.px[k + 1] == absorb(v.px[k + 1], share, 7)
            &&& after.px[below - 1] == absorb(v.px[below - 1], share, 3)
            &&& after.px[below] == absorb(v.px[below], share, 5)
            &&& after.px[below + 1] == absorb(v.px[below + 1], share, 1)
            &&& forall|j: int|
                0 <= j < v.px.len() && j != k && j != k + 1 && j != below - 1 && j != below && j
                    != below + 1 ==> after.px[j] == v.px[j]
        }),
{
    reveal(dither_step);
    let w = v.w as int;
    let h = v.h as int;
    lemma_cell_index(x, y, w, h);
    lemma_cell_index(x + 1, y, w, h);
    lemma_cell_index(x - 1, y + 1, w, h);
    lemma_cell_index(x, y + 1, w, h);
    lemma_cell_index(x + 1, y + 1, w, h);
    assert((y + 1) * w == y * w + w) by (nonlinear_arith);
}

/// In the first column, away from the last row, the share for below left
/// has no column to its left to go to and lands on the pixel below, which
/// thus takes 3 shares and then 5; it does not go to the far end of the row.
pub proof fn step_at_left_edge(v: PixelsView, y: int)
    requires
        v.wf(),
        v.w >= 2,
        0 <= y,
        y + 1 < v.h,
    ensures
        ({
            let k = y * v.w;
            let below = k + v.w;
            let new = closest_palette_colour(v.px[k], Palette::Colour);
            let share = error_share(v.px[k], new);
            let after = dither_step(v, 0, y);
            &&& 0 <= k && below + 1 < v.px.len()
            &&& after.px.len() == v.px.len()
            &&& after.px[k] == new
            &&& after.px[k + 1] == absorb(v.px[k + 1], share, 7)
            &&& after.px[below] == absorb(absorb(v.px[below], share, 3), share, 5)
            &&& after.px[below + 1] == absorb(v.px[below + 1], share, 1)
            &&& forall|j: int|
                0 <= j < v.px.len() && j != k && j != k + 1 && j != below && j != below + 1
                    ==> after.px[j] == v.px[j]
        }),
{
    reveal(dither_step);
    let w = v.w as int;
    let h = v.h as int;
    lemma_cell_index(0, y, w, h);
    lemma_cell_index(1, y, w, h);
    lemma_cell_index(0, y + 1, w, h);
    lemma_cell_index(1, y + 1, w, h);
    assert((y + 1) * w == y * w + w) by (nonlinear_arith);
}

/// Handing out shares of an error that has no alpha part keeps the alpha of
/// every pixel.
pub proof fn diffuse_keeps_alpha(v: PixelsView, x: int, y: int, share: PixelFx, weight: int)
    requires
        v.wf(),
        share.a == 0,
    ensures
        forall|j: int|
            0 <= j < v.px.len() ==> #[trigger] diffuse(v, x, y, share, weight).px[j].a
                == v.px[j].a,
{
    resolve_in_bounds(v, x, y);
    assert(share.a * weight == 0) by (nonlinear_arith)
        requires
            share.a == 0,
    ;
}

/// A step at a cell of the grid keeps the alpha of every pixel.
pub proof fn step_keeps_alpha(v: PixelsView, x: int, y: int)
    requires
        v.wf(),
        0 <= x < v.w,
        0 <= y < v.h,
    ensures
        forall|j: int| 0 <= j < v.px.len() ==> #[trigger] dither_step(v, x, y).px[j].a == v.px[j].a,
{
    reveal(dither_step);
    let k = y * v.w + x;
    let old = v.px[k];
    let new = closest_palette_colour(old, Palette::Colour);
    let share = error_share(old, new);
    let placed = v.with_pixel(k, new).with_edges(EdgeHandling::Clamp);
    let right = diffuse(placed, x + 1, y, share, 7);
    let below_left = diffuse(right, x - 1, y + 1, share, 3);
    let below = diffuse(below_left, x, y + 1, share, 5);
    let last = diffuse(below, x + 1, y + 1, share, 1);
    lemma_cell_index(x, y, v.w as int, v.h as int);
    diffuse_keeps_shape(placed, x + 1, y, share, 7);
    diffuse_keeps_shape(right, x - 1, y + 1, share, 3);
    diffuse_keeps_shape(below_left, x, y + 1, share, 5);
    diffuse_keeps_alpha(placed, x + 1, y, share, 7);
    diffuse_keeps_alpha(right, x - 1, y + 1, share, 3);
    diffuse_keeps_alpha(below_left, x, y + 1, share, 5);
    diffuse_keeps_alpha(below, x + 1, y + 1, share, 1);
    assert forall|j: int| 0 <= j < v.px.len() implies #[trigger] last.px[j].a == v.px[j].a by {
        assert(placed.px[j].a == v.px[j].a);
        assert(right.px[j].a == placed.px[j].a);
        assert(below_left.px[j].a == right.px[j].a);
        assert(below.px[j].a == below_left.px[j].a);
    }
}

/// A pass keeps the alpha of every pixel, however far it has come.
pub proof fn pass_keeps_alpha(v: PixelsView, n: nat)
    requires
        v.wf(),
        n <= v.w * v.h,
    ensures
        forall|j: int| 0 <= j < v.px.len() ==> #[trigger] dither_first(v, n).px[j].a == v.px[j].a,
    decreases n,
{
    if n > 0 {
        let before = dither_first(v, (n - 1) as nat);
        let w = v.w as int;
        pass_keeps_alpha(v, (n - 1) as nat);
        pass_keeps_shape(v, (n - 1) as nat);
        lemma_cell_of_index(n - 1, w, v.h as int);
        step_keeps_alpha(before, (n - 1) % w, (n - 1) / w);
        assert forall|j: int| 0 <= j < v.px.len() implies #[trigger] dither_first(v, n).px[j].a
            == v.px[j].a by {
            assert(before.px[j].a == v.px[j].a);
        }
    }
}

/// In a pass the step after the cells before `(x, y)` is the step at
/// `(x, y)`.
proof fn lemma_next_step(v: PixelsView, x: int, y: int)
    requires
        v.wf(),
        0 <= x < v.w,
        0 <= y < v.h,
    ensures
        0 <= y * v.w + x < v.w * v.h,
        dither_first(v, (y * v.w + x + 1) as nat) == dither_step(
            dither_first(v, (y * v.w + x) as nat),
            x,
            y,
        ),
{
    lemma_cell_index(x, y, v.w as int, v.h as int);
}

fn diffuse_into(pixels: &mut Pixels, x: u32, y: u32, share: PixelFx, weight: i32)
    requires
        -255 <= share.r <= 255,
        -255 <= share.g <= 255,
        -255 <= share.b <= 255,
        -255 <= share.a <= 255,
        0 <= weight <= 16,
    ensures
        final(pixels)@ == diffuse(old(pixels)@, x as int, y as int, share, weight as int),
{
    match pixels.get(x, y) {
        Some(p) => {
            proof {
                lemma_share_bound(share.r as int, weight as int);
                lemma_share_bound(share.g as int, weight as int);
                lemma_share_bound(share.b as int, weight as int);
                lemma_share_bound(share.a as int, weight as int);
            }
            let taken = Pixel::from(PixelFx::from(p).add(share.mul(weight)));
            pixels.set(x, y, taken);
        },
        None => {},
    }
}

proof fn lemma_share_bound(s: int, weight: int)
    requires
        -255 <= s <= 255,
        0 <= weight <= 16,
    ensures
        -4080 <= s * weight <= 4080,
{
    assert(-4080 <= s * weight <= 4080) by (nonlinear_arith)
        requires
            -255 <= s <= 255,
            0 <= weight <= 16,
    ;
}

/// Dithers the pixel at `(x, y)`, a cell of the grid, and hands its error to
/// its neighbours.
pub fn dither_pixel(pixels: &mut Pixels, x: u32, y: u32)
    requires
        x < old(pixels)@.w,
        y < old(pixels)@.h,
    ensures
        final(pixels)@ == dither_step(old(pixels)@, x as int, y as int),
{
    proof {
        reveal(dither_step);
        use_type_invariant(&*pixels);
        pixels.lemma_view_wf();
        inside_resolves_to_itself(pixels@, x as int, y as int);
    }
    match pixels.get(x, y) {
        Some(old) => {
            let new = get_closest_palette_colour(old, Palette::Colour);
            // One sixteenth of the error, so that the weights of the kernel
            // multiply it as whole numbers.
            let share = PixelFx {
                r: old.r as i32 - new.r as i32,
                g: old.g as i32 - new.g as i32,
                b: old.b as i32 - new.b as i32,
                a: old.a as i32 - new.a as i32,
            };
            pixels.set(x, y, new);
            pixels.set_edges(EdgeHandling::Clamp);
            let left: u32 = if x == 0 {
                0
            } else {
                x - 1
            };
            diffuse_into(pixels, x + 1, y, share, 7);
            diffuse_into(pixels, left, y + 1, share, 3);
            diffuse_into(pixels, x, y + 1, share, 5);
            diffuse_into(pixels, x + 1, y + 1, share, 1);
        },
        None => {},
    }
}

/// Dithers the whole grid in raster order.
pub fn dither(pixels: &mut Pixels)
    ensures
        final(pixels)@ == dither_all(old(pixels)@),
        final(pixels)@.w == old(pixels)@.w,
        final(pixels)@.h == old(pixels)@.h,
        final(pixels)@.edges == EdgeHandling::Clamp,
{
    let w = pixels.width();
    let h = pixels.height();
    proof {
        use_type_invariant(&*pixels);
        pixels.lemma_view_wf();
        assert(0 * w == 0) by (nonlinear_arith);
    }
    for y in 0..h
        invariant
            old(pixels)@.wf(),
            w == old(pixels)@.w,
            h == old(pixels)@.h,
            pixels@ == dither_first(old(pixels)@, (y * w) as nat),
    {
        for x in 0..w
            invariant
                old(pixels)@.wf(),
                w == old(pixels)@.w,
                h == old(pixels)@.h,
                y < h,
                pixels@ == dither_first(old(pixels)@, (y * w + x) as nat),
        {
            proof {
                lemma_next_step(old(pixels)@, x as int, y as int);
                pass_keeps_shape(old(pixels)@, (y * w + x) as nat);
            }
            dither_pixel(pixels, x, y);
        }
        proof {
            assert((y + 1) * w == y * w + w) by (nonlinear_arith);
        }
    }
    proof {
        assert(h * w == w * h) by (nonlinear_arith);
        assert(w * h > 0) by (nonlinear_arith)
            requires
                w > 0,
                h > 0,
        ;
        pass_keeps_shape(old(pixels)@, (w * h) as nat);
    }
}

/// Dithers a snapshot of a surface of `w` by `h` pixels and gives back the
/// bytes to show in its place. A snapshot that does not fit the surface is
/// refused.
pub fn draw(w: u32, h: u32, data: Vec<u8>) -> (shown: Result<Vec<u8>, DitherError>)
    ensures
        match shown {
            Ok(bytes) => {
                &&& snapshot_fault(w as nat, h as nat, data@.len()) is None
                &&& bytes@ == bytes_of(dither_all(snapshot_view(w as nat, h as nat, data@)).px)
            },
            Err(e) => snapshot_fault(w as nat, h as nat, data@.len()) == Some(e),
        },
{
    match Pixels::create(w, h, data) {
        Ok(mut pixels) => {
            dither(&mut pixels);
            let snapshot = pixels.to_image_data();
            Ok(snapshot.0)
        },
        Err(e) => Err(e),
    }
}

/// Dithers the one pixel at `(x, y)` of a snapshot of a surface of `w` by
/// `h` pixels, and gives back the bytes to show in its place. A snapshot that
/// does not fit the surface is refused, and so is a coordinate outside it.
pub fn dither_one_pixel(w: u32, h: u32, data: Vec<u8>, x: u32, y: u32) -> (shown: Result<
    Vec<u8>,
    DitherError,
>)
    ensures
        match shown {
            Ok(bytes) => {
                &&& step_fault(w as nat, h as nat, data@.len(), x as nat, y as nat) is None
                &&& bytes@ == bytes_of(
                    dither_step(snapshot_view(w as nat, h as nat, data@), x as int, y as int).px,
                )
            },
            Err(e) => step_fault(w as nat, h as nat, data@.len(), x as nat, y as nat) == Some(e),
        },
{
    match Pixels::create(w, h, data) {
        Ok(mut pixels) => {
            match pixels.get(x, y) {
                Some(_) => {
                    dither_pixel(&mut pixels, x, y);
                    let snapshot = pixels.to_image_data();
                    Ok(snapshot.0)
                },
                None => Err(DitherError::OutOfRange),
            }
        },
        Err(e) => Err(e),
    }
}

} // verus!
