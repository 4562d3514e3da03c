//! The pixel buffer: a flat RGBA byte buffer with its dimensions, and the
//! policy by which coordinates outside the grid are resolved.

use vstd::prelude::*;
use std::ops::Range;
use crate::error::DitherError;
use crate::pixel::Pixel;

verus! {

/// How a coordinate outside the grid is resolved.
#[derive(Debug, Clone, Copy, PartialEq, Eq, Structural)]
pub enum EdgeHandling {
    /// Coordinates are reduced modulo the width and the height.
    Wrap,
    /// Coordinates are moved to the nearest row and column of the grid.
    Clamp,
    /// A coordinate outside the grid names no pixel.
    Strict,
}

/// What a buffer is, apart from how it is stored: its dimensions, its edge
/// policy and its pixels in row-major order.
pub struct PixelsView {
    pub w: nat,
    pub h: nat,
    pub edges: EdgeHandling,
    pub px: Seq<Pixel>,
}

/// `c` moved into `0..n`.
pub open spec fn clamp_coord(c: int, n: nat) -> int {
    if c < 0 {
        0
    } else if c >= n {
        n - 1
    } else {
        c
    }
}

/// The pixels that `bytes` hold, four bytes to a pixel in the order red,
/// green, blue, alpha.
pub open spec fn pixels_of(bytes: Seq<u8>) -> Seq<Pixel> {
    Seq::new(
        bytes.len() / 4,
        |i: int| Pixel { r: bytes[4 * i], g: bytes[4 * i + 1], b: bytes[4 * i + 2], a: bytes[4 * i + 3] },
    )
}

/// Channel `c` of `p`, counting red, green, blue, alpha from 0.
pub open spec fn channel(p: Pixel, c: int) -> u8 {
    if c == 0 {
        p.r
    } else if c == 1 {
        p.g
    } else if c == 2 {
        p.b
    } else {
        p.a
    }
}

/// The bytes that hold `px`: the inverse of [`pixels_of`].
pub open spec fn bytes_of(px: Seq<Pixel>) -> Seq<u8> {
    Seq::new(4 * px.len(), |j: int| channel(px[j / 4], j % 4))
}

/// What is wrong with a snapshot of `len` bytes for a surface of `w` by `h`
/// pixels, if anything.
pub open spec fn snapshot_fault(w: nat, h: nat, len: nat) -> Option<DitherError> {
    if w == 0 || h == 0 {
        Some(DitherError::UnavailableSurface)
    } else if len != 4 * (w * h) {
        Some(DitherError::LengthMismatch)
    } else {
        None
    }
}

/// The buffer made of a snapshot: `w` by `h` pixels held in `bytes`, with
/// coordinates resolved strictly.
pub open spec fn snapshot_view(w: nat, h: nat, bytes: Seq<u8>) -> PixelsView {
    PixelsView { w, h, edges: EdgeHandling::Strict, px: pixels_of(bytes) }
}

impl PixelsView {
    /// Both dimensions are positive and there is one pixel for each cell.
    pub open spec fn wf(self) -> bool {
        &&& self.w > 0
        &&& self.h > 0
        &&& self.px.len() == self.w * self.h
    }

    /// The index of the pixel that `(x, y)` names under the edge policy.
    pub open spec fn resolve(self, x: int, y: int) -> Option<int> {
        match self.edges {
            EdgeHandling::Clamp => Some(
                clamp_coord(y, self.h) * self.w + clamp_coord(x, self.w),
            ),
            EdgeHandling::Strict => if 0 <= x < self.w && 0 <= y < self.h {
                Some(y * self.w + x)
            } else {
                None
            },
            EdgeHandling::Wrap => Some((y % (self.h as int)) * self.w + x % (self.w as int)),
        }
    }

    /// The column and the row of the pixel with index `i`.
    pub open spec fn coords(self, i: int) -> (int, int) {
        (i % (self.w as int), i / (self.w as int))
    }

    /// This buffer with pixel `i` replaced by `p`.
    pub open spec fn with_pixel(self, i: int, p: Pixel) -> PixelsView {
        PixelsView { px: self.px.update(i, p), ..self }
    }

    /// This buffer under another edge policy.
    pub open spec fn with_edges(self, edges: EdgeHandling) -> PixelsView {
        PixelsView { edges, ..self }
    }
}

/// A cell of the grid has an index below the number of cells.
pub proof fn lemma_cell_index(x: int, y: int, w: int, h: int)
    requires
        0 <= x < w,
        0 <= y < h,
    ensures
        0 <= y * w + x < w * h,
        (y * w + x) % w == x,
        (y * w + x) / w == y,
{
    assert(0 <= y * w && y * w + w <= h * w && h * w == w * h) by (nonlinear_arith)
        requires
            0 <= y < h,
            0 < w,
    ;
    vstd::arithmetic::div_mod::lemma_fundamental_div_mod_converse(y * w + x, w, y, x);
}

/// An index below the number of cells is the index of a cell of the grid.
pub proof fn lemma_cell_of_index(i: int, w: int, h: int)
    requires
        0 < w,
        0 <= i < w * h,
    ensures
        0 <= i % w < w,
        0 <= i / w < h,
        (i / w) * w + i % w == i,
{
    vstd::arithmetic::div_mod::lemma_fundamental_div_mod(i, w);
    vstd::arithmetic::div_mod::lemma_mod_pos_bound(i, w);
    assert(0 <= i / w < h && (i / w) * w == w * (i / w)) by (nonlinear_arith)
        requires
            0 <= i < w * h,
            0 < w,
            i == w * (i / w) + i % w,
            0 <= i % w < w,
    ;
}

/// Under `Wrap` a coordinate names the pixel that its remainders name:
/// the one in column `x mod w` of row `y mod h`.
pub proof fn wrap_resolves_remainders(v: PixelsView, x: int, y: int)
    requires
        v.wf(),
        v.edges == EdgeHandling::Wrap,
    ensures
        v.resolve(x, y) == v.resolve(x % (v.w as int), y % (v.h as int)),
        v.resolve(x, y) matches Some(k) && 0 <= k < v.px.len() && v.coords(k) == (
            x % (v.w as int),
            y % (v.h as int),
        ),
{
    let w = v.w as int;
    let h = v.h as int;
    vstd::arithmetic::div_mod::lemma_mod_twice(x, w);
    vstd::arithmetic::div_mod::lemma_mod_twice(y, h);
    lemma_cell_index(x % w, y % h, w, h);
}

/// Under `Clamp` every coordinate names a pixel: one past the last column
/// names the pixel of the last column in its row, one past the last row the
/// pixel of the last row in its column, and one before the first the first.
pub proof fn clamp_resolves_to_edge(v: PixelsView, x: int, y: int)
    requires
        v.wf(),
        v.edges == EdgeHandling::Clamp,
    ensures
        v.resolve(x, y) matches Some(k) && 0 <= k < v.px.len(),
        x >= v.w ==> v.resolve(x, y) == v.resolve(v.w - 1, y),
        y >= v.h ==> v.resolve(x, y) == v.resolve(x, v.h - 1),
        x < 0 ==> v.resolve(x, y) == v.resolve(0, y),
        y < 0 ==> v.resolve(x, y) == v.resolve(x, 0),
{
    lemma_cell_index(clamp_coord(x, v.w), clamp_coord(y, v.h), v.w as int, v.h as int);
}

/// Under `Strict` a coordinate names a pixel exactly when it lies in the
/// grid: among coordinates that are not negative, `(x, y)` names none if and
/// only if `x >= w` or `y >= h`.
pub proof fn strict_rejects_outside(v: PixelsView, x: int, y: int)
    requires
        v.wf(),
        v.edges == EdgeHandling::Strict,
    ensures
        v.resolve(x, y) is None <==> !(0 <= x < v.w && 0 <= y < v.h),
        0 <= x && 0 <= y ==> (v.resolve(x, y) is None <==> x >= v.w || y >= v.h),
        v.resolve(x, y) matches Some(k) ==> 0 <= k < v.px.len() && v.coords(k) == (x, y),
{
    if 0 <= x < v.w && 0 <= y < v.h {
        lemma_cell_index(x, y, v.w as int, v.h as int);
    }
}

/// Whatever the edge policy, a coordinate within the grid names the pixel
/// of its own column and row.
pub proof fn inside_resolves_to_itself(v: PixelsView, x: int, y: int)
    requires
        v.wf(),
        0 <= x < v.w,
        0 <= y < v.h,
    ensures
        v.resolve(x, y) == Some(y * v.w + x),
        0 <= y * v.w + x < v.px.len(),
        v.coords(y * v.w + x) == (x, y),
{
    let w = v.w as int;
    let h = v.h as int;
    lemma_cell_index(x, y, w, h);
    vstd::arithmetic::div_mod::lemma_small_mod(x as nat, w as nat);
    vstd::arithmetic::div_mod::lemma_small_mod(y as nat, h as nat);
}

/// Whatever the edge policy, the column and row of a pixel of the buffer
/// lie in the grid and name that pixel again.
pub proof fn index_resolves_to_itself(v: PixelsView, i: int)
    requires
        v.wf(),
        0 <= i < v.px.len(),
    ensures
        0 <= v.coords(i).0 < v.w,
        0 <= v.coords(i).1 < v.h,
        v.resolve(v.coords(i).0, v.coords(i).1) == Some(i),
{
    lemma_cell_of_index(i, v.w as int, v.h as int);
    inside_resolves_to_itself(v, v.coords(i).0, v.coords(i).1);
}

/// Whatever the edge policy, a coordinate that names a pixel names one of
/// the buffer.
pub proof fn resolve_in_bounds(v: PixelsView, x: int, y: int)
    requires
        v.wf(),
    ensures
        v.resolve(x, y) matches Some(k) ==> 0 <= k < v.px.len(),
{
    match v.edges {
        EdgeHandling::Wrap => wrap_resolves_remainders(v, x, y),
        EdgeHandling::Clamp => clamp_resolves_to_edge(v, x, y),
        EdgeHandling::Strict => strict_rejects_outside(v, x, y),
    }
}

/// An RGBA image: `w * h` pixels of four bytes each, row by row.
pub struct Pixels {
    w: u32,
    h: u32,
    data: Vec<u8>,
    edges: EdgeHandling,
}

impl View for Pixels {
    type V = PixelsView;

    closed spec fn view(&self) -> PixelsView {
        PixelsView {
            w: self.w as nat,
            h: self.h as nat,
            edges: self.edges,
            px: pixels_of(self.data@),
        }
    }
}

impl Pixels {
    /// The buffer holds four bytes for each cell of a grid that is not empty.
    #[verifier::type_invariant]
    pub closed spec fn inv(&self) -> bool {
        &&& self.w > 0
        &&& self.h > 0
        &&& self.data@.len() == 4 * (self.w * self.h)
    }

    /// A buffer that keeps its invariant is well formed as a view.
    pub proof fn lemma_view_wf(&self)
        requires
            self.inv(),
        ensures
            self@.wf(),
            self@.w <= u32::MAX,
            self@.h <= u32::MAX,
            4 * self@.px.len() <= usize::MAX,
    {
        assert(self.data@.len() == self.data.len());
    }

    /// The width of the grid.
    pub fn width(&self) -> (w: u32)
        ensures
            w == self@.w,
            w > 0,
    {
        proof {
            use_type_invariant(self);
        }
        self.w
    }

    /// The height of the grid.
    pub fn height(&self) -> (h: u32)
        ensures
            h == self@.h,
            h > 0,
    {
        proof {
            use_type_invariant(self);
        }
        self.h
    }

    /// The edge policy in force.
    pub fn edges(&self) -> (edges: EdgeHandling)
        ensures
            edges == self@.edges,
    {
        self.edges
    }

    /// Puts another edge policy in force; the pixels stay as they are.
    pub fn set_edges(&mut self, edges: EdgeHandling)
        ensures
            final(self)@ == old(self)@.with_edges(edges),
    {
        proof {
            use_type_invariant(&*self);
        }
        self.edges = edges;
    }

    /// The pixel with index `i`, if there is one.
    pub fn get_at_index(&self, i: usize) -> (p: Option<Pixel>)
        ensures
            p == if i < self@.px.len() {
                Some(self@.px[i as int])
            } else {
                None
            },
    {
        proof {
            use_type_invariant(self);
        }
        if i < self.data.len() / 4 {
            Some(
                Pixel {
                    r: self.data[4 * i],
                    g: self.data[4 * i + 1],
                    b: self.data[4 * i + 2],
                    a: self.data[4 * i + 3],
                },
            )
        } else {
            None
        }
    }

    /// Overwrites the pixel with index `i`. Where there is no such pixel
    /// the write is rejected and the buffer stays as it is.
    pub fn set_at_index(&mut self, i: usize, pix: Pixel) -> (done: Option<()>)
        ensures
            done.is_some() <==> i < old(self)@.px.len(),
            final(self)@ == if i < old(self)@.px.len() {
                old(self)@.with_pixel(i as int, pix)
            } else {
                old(self)@
            },
    {
        proof {
            use_type_invariant(&*self);
        }
        if i < self.data.len() / 4 {
            self.data[4 * i] = pix.r;
            self.data[4 * i + 1] = pix.g;
            self.data[4 * i + 2] = pix.b;
            self.data[4 * i + 3] = pix.a;
            assert(pixels_of(self.data@) =~= pixels_of(old(self).data@).update(i as int, pix));
            Some(())
        } else {
            None
        }
    }

    /// The column and the row of the pixel with index `i`.
    pub fn coords_from_index(&self, i: u32) -> (c: (u32, u32))
        ensures
            (c.0 as int, c.1 as int) == self@.coords(i as int),
    {
        proof {
            use_type_invariant(self);
        }
        (i % self.w, i / self.w)
    }

    fn offset(&self, x: u32, y: u32) -> (i: usize)
        requires
            x < self@.w,
            y < self@.h,
        ensures
            i == y * self@.w + x,
            i < self@.px.len(),
    {
        proof {
            use_type_invariant(self);
            self.lemma_view_wf();
            lemma_cell_index(x as int, y as int, self.w as int, self.h as int);
            assert(0 <= y * self.w <= y * self.w + x) by (nonlinear_arith)
                requires
                    0 <= y,
                    0 <= self.w,
                    0 <= x,
            ;
        }
        y as usize * self.w as usize + x as usize
    }

    /// The index of the pixel that `(x, y)` names under the edge policy in
    /// force, if it names one.
    pub fn index_from_coords(&self, x: u32, y: u32) -> (i: Option<usize>)
        ensures
            match self@.resolve(x as int, y as int) {
                Some(k) => i matches Some(j) && j == k && k < self@.px.len(),
                None => i is None,
            },
    {
        proof {
            use_type_invariant(self);
        }
        match self.edges {
            EdgeHandling::Clamp => {
                let clamped_x: u32 = if x < self.w {
                    x
                } else {
                    self.w - 1
                };
                let clamped_y: u32 = if y < self.h {
                    y
                } else {
                    self.h - 1
                };
                Some(self.offset(clamped_x, clamped_y))
            },
            EdgeHandling::Strict => {
                if x >= self.w {
                    None
                } else if y >= self.h {
                    None
                } else {
                    Some(self.offset(x, y))
                }
            },
            EdgeHandling::Wrap => {
                let wrapped_x: u32 = x % self.w;
                let wrapped_y: u32 = y % self.h;
                Some(self.offset(wrapped_x, wrapped_y))
            },
        }
    }

    /// The pixel that `(x, y)` names, if it names one.
    pub fn get(&self, x: u32, y: u32) -> (p: Option<Pixel>)
        ensures
            p == match self@.resolve(x as int, y as int) {
                Some(k) => Some(self@.px[k]),
                None => None,
            },
    {
        match self.index_from_coords(x, y) {
            Some(i) => self.get_at_index(i),
            None => None,
        }
    }

    /// Overwrites the pixel that `(x, y)` names. Where it names none the
    /// buffer stays as it is.
    pub fn set(&mut self, x: u32, y: u32, pix: Pixel) -> (done: Option<()>)
        ensures
            done.is_some() <==> old(self)@.resolve(x as int, y as int).is_some(),
            final(self)@ == match old(self)@.resolve(x as int, y as int) {
                Some(k) => old(self)@.with_pixel(k, pix),
                None => old(self)@,
            },
    {
        match self.index_from_coords(x, y) {
            Some(i) => self.set_at_index(i, pix),
            None => None,
        }
    }

    /// The indices of all pixels, in ascending order.
    pub fn index_range(&self) -> (r: Range<usize>)
        ensures
            r.start == 0,
            r.end == self@.px.len(),
    {
        proof {
            use_type_invariant(self);
        }
        0..(self.data.len() / 4)
    }

    /// A buffer over a snapshot of a surface of `w` by `h` pixels.
    ///
    /// The snapshot is refused if the surface is empty or if `data` is not
    /// four bytes for each of its pixels. A new buffer resolves coordinates
    /// strictly.
    pub fn create(w: u32, h: u32, data: Vec<u8>) -> (made: Result<Pixels, DitherError>)
        ensures
            match made {
                Ok(pixels) => {
                    &&& snapshot_fault(w as nat, h as nat, data@.len()) is None
                    &&& pixels@ == snapshot_view(w as nat, h as nat, data@)
                },
                Err(e) => snapshot_fault(w as nat, h as nat, data@.len()) == Some(e),
            },
    {
        if w == 0 || h == 0 {
            return Err(DitherError::UnavailableSurface);
        }
        proof {
            assert(0 < w * h <= 0x1_0000_0000_0000_0000) by (nonlinear_arith)
                requires
                    0 < w <= 0x1_0000_0000,
                    0 < h <= 0x1_0000_0000,
            ;
        }
        let cells: u128 = w as u128 * h as u128;
        if data.len() as u128 != 4 * cells {
            return Err(DitherError::LengthMismatch);
        }
        Ok(Pixels { w, h, data, edges: EdgeHandling::Strict })
    }

    /// Gives the buffer up as a snapshot: its bytes, its width and its
    /// height. The bytes hold every pixel as last written.
    pub fn to_image_data(self) -> (snapshot: (Vec<u8>, u32, u32))
        ensures
            snapshot.0@ == bytes_of(self@.px),
            snapshot.1 == self@.w,
            snapshot.2 == self@.h,
    {
        proof {
            use_type_invariant(&self);
            assert(self.data@ =~= bytes_of(pixels_of(self.data@)));
        }
        (self.data, self.w, self.h)
    }
}

} // verus!
