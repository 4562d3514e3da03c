//! Two small effects beside the ditherer: a grey ramp to fill a surface with,
//! and a sprinkle of yellow pixels. Both take their chance from the caller.

use vstd::prelude::*;
use crate::pixel::Pixel;
use crate::pixels::{Pixels, PixelsView};

verus! {

/// The colour of a sprinkled pixel: opaque yellow.
pub open spec fn sprinkle_colour() -> Pixel {
    Pixel { r: 255, g: 255, b: 0, a: 255 }
}

/// The buffer with every pixel that `hits` marks turned yellow. A pixel
/// for which `hits` has no entry stays as it is.
pub open spec fn mutated(v: PixelsView, hits: Seq<bool>) -> PixelsView {
    PixelsView {
        px: Seq::new(
            v.px.len(),
            |i: int|
                if i < hits.len() && hits[i] {
                    sprinkle_colour()
                } else {
                    v.px[i]
                },
        ),
        ..v
    }
}

/// The level of cell `k` of a ramp that starts after `start` and rises by
/// `inc` from cell to cell, falling back to the bottom each time it passes
/// the top of the byte range.
pub open spec fn ramp_level(start: u8, inc: u8, k: int) -> u8 {
    (((start + (k + 1) * inc) % 256) % 255) as u8
}

/// The bytes of an opaque grey ramp of `cells` pixels.
pub open spec fn ramp(cells: nat, start: u8, inc: u8) -> Seq<u8> {
    Seq::new(
        4 * cells,
        |j: int|
            if j % 4 == 3 {
                255u8
            } else {
                ramp_level(start, inc, j / 4)
            },
    )
}

/// Turns yellow every pixel whose index `hits` marks.
pub fn mutate(pixels: &mut Pixels, hits: &Vec<bool>)
    ensures
        final(pixels)@ == mutated(old(pixels)@, hits@),
{
    proof {
        use_type_invariant(&*pixels);
        pixels.lemma_view_wf();
    }
    let range = pixels.index_range();
    let mut i: usize = range.start;
    while i < range.end
        invariant
            range.start == 0,
            range.end == old(pixels)@.px.len(),
            i <= range.end,
            pixels@.w == old(pixels)@.w,
            pixels@.h == old(pixels)@.h,
            pixels@.edges == old(pixels)@.edges,
            pixels@.px.len() == old(pixels)@.px.len(),
            forall|j: int| 0 <= j < i ==> pixels@.px[j] == mutated(old(pixels)@, hits@).px[j],
            forall|j: int| i <= j < pixels@.px.len() ==> pixels@.px[j] == old(pixels)@.px[j],
        decreases range.end - i,
    {
        if i < hits.len() && hits[i] {
            pixels.set_at_index(i, Pixel::rgb(255, 255, 0));
        }
        i += 1;
    }
    assert(pixels@.px =~= mutated(old(pixels)@, hits@).px);
}

/// The bytes of an opaque grey ramp for a surface of `width` by `height`
/// pixels. The level starts at `start` and is raised by `inc`, wrapping
/// within a byte, before each pixel is written.
pub fn gen(width: u32, height: u32, start: u8, inc: u8) -> (data: Vec<u8>)
    requires
        4 * (width * height) <= usize::MAX,
    ensures
        data@ == ramp((width * height) as nat, start, inc),
{
    proof {
        assert(0 <= width * height) by (nonlinear_arith)
            requires
                0 <= width,
                0 <= height,
        ;
    }
    let cells: usize = width as usize * height as usize;
    let mut data: Vec<u8> = Vec::with_capacity(cells * 4);
    let mut i: u8 = start;
    proof {
        assert((0 * height) * inc == 0 && 0 * height == 0) by (nonlinear_arith);
        assert(data@ =~= ramp((0 * height) as nat, start, inc));
    }
    for x in 0..width
        invariant
            4 * (width * height) <= usize::MAX,
            i == (start + (x * height) * inc) % 256,
            data@ == ramp((x * height) as nat, start, inc),
    {
        for y in 0..height
            invariant
                4 * (width * height) <= usize::MAX,
                x < width,
                i == (start + (x * height + y) * inc) % 256,
                data@ == ramp((x * height + y) as nat, start, inc),
        {
            let ghost k: int = x * height + y;
            let ghost before = data@;
            proof {
                assert(0 <= x * height && x * height + height <= width * height)
                    by (nonlinear_arith)
                    requires
                        0 <= x < width,
                        0 <= height,
                ;
                assert((k + 1) * inc == k * inc + inc) by (nonlinear_arith);
                assert(0 <= k * inc) by (nonlinear_arith)
                    requires
                        0 <= k,
                        0 <= inc,
                ;
            }
            i = i.wrapping_add(inc);
            assert(i == (start + (k + 1) * inc) % 256);
            data.push(i % 255);
            data.push(i % 255);
            data.push(i % 255);
            data.push(255);
            assert(data@ =~= ramp((k + 1) as nat, start, inc));
        }
        proof {
            assert((x + 1) * height == x * height + height) by (nonlinear_arith);
        }
    }
    data
}

} // verus!
