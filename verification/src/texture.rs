//! Pixel-grid dimensions and texel addressing.
//!
//! Every intermediate texture of the pipeline (coverage mask, seed
//! buffers, color target) is stored row-major in a `Vec`, with the texel
//! at column `x` and row `y` living at linear index `y * width + x`.

use vstd::prelude::*;
use vstd::arithmetic::div_mod::{
    lemma_fundamental_div_mod, lemma_fundamental_div_mod_converse, lemma_remainder_lower,
    lemma_remainder_upper, lemma_div_pos_is_pos,
};
use vstd::arithmetic::mul::{lemma_mul_inequality, lemma_mul_is_commutative};

verus! {

/// One texel of a 4-channel 8-bit unorm color texture, such as the view's
/// color target.
#[derive(Clone, Copy, PartialEq, Eq, Structural, Debug)]
pub struct Rgba8 {
    pub r: u8,
    pub g: u8,
    pub b: u8,
    pub a: u8,
}

/// Width and height of a view or texture, in pixels.
#[derive(Clone, Copy, PartialEq, Eq, Structural, Debug)]
pub struct Dims {
    pub width: usize,
    pub height: usize,
}

impl Dims {
    /// A usable resolution: both sides positive, and the texel count
    /// representable as a `usize` so that a row-major `Vec` can hold it.
    pub open spec fn wf(self) -> bool {
        &&& self.width >= 1
        &&& self.height >= 1
        &&& self.width * self.height <= usize::MAX
    }

    /// Number of texels in a texture of this size.
    pub open spec fn area(self) -> int {
        self.width * self.height
    }

    /// Whether pixel `(x, y)` lies inside the grid.
    pub open spec fn contains(self, x: int, y: int) -> bool {
        0 <= x < self.width && 0 <= y < self.height
    }

    /// Row-major linear index of pixel `(x, y)`.
    pub open spec fn index(self, x: int, y: int) -> int {
        y * self.width + x
    }

    /// Column of the pixel at linear index `i`.
    pub open spec fn x_of(self, i: int) -> int {
        i % (self.width as int)
    }

    /// Row of the pixel at linear index `i`.
    pub open spec fn y_of(self, i: int) -> int {
        i / (self.width as int)
    }

    /// The longer side, which determines the jump-flood pass count.
    pub open spec fn max_side(self) -> int {
        if self.width >= self.height {
            self.width as int
        } else {
            self.height as int
        }
    }

    /// Texel count, as a runtime value.
    pub fn texel_count(&self) -> (n: usize)
        requires
            self.wf(),
        ensures
            n == self.area(),
    {
        self.width * self.height
    }

    /// Runtime row-major index of an in-bounds pixel.
    pub fn linear_index(&self, x: usize, y: usize) -> (i: usize)
        requires
            self.wf(),
            self.contains(x as int, y as int),
        ensures
            i == self.index(x as int, y as int),
            i < self.area(),
    {
        proof {
            lemma_index_in_area(*self, x as int, y as int);
        }
        y * self.width + x
    }
}

/// An in-bounds pixel's row-major index lies below the texel count.
pub proof fn lemma_index_in_area(dims: Dims, x: int, y: int)
    requires
        dims.wf(),
        dims.contains(x, y),
    ensures
        0 <= dims.index(x, y) < dims.area(),
{
    let w = dims.width as int;
    let h = dims.height as int;
    lemma_mul_inequality(y + 1, h, w);
    lemma_mul_is_commutative(y + 1, w);
    lemma_mul_is_commutative(h, w);
    assert(y * w + w == (y + 1) * w) by (nonlinear_arith);
    assert(y * w >= 0) by (nonlinear_arith)
        requires
            y >= 0,
            w >= 0,
    ;
}

/// Row-major indexing and the `(x_of, y_of)` decomposition are inverses.
pub proof fn lemma_index_decompose(dims: Dims, x: int, y: int)
    requires
        dims.wf(),
        dims.contains(x, y),
    ensures
        dims.x_of(dims.index(x, y)) == x,
        dims.y_of(dims.index(x, y)) == y,
{
    let w = dims.width as int;
    lemma_fundamental_div_mod_converse(y * w + x, w, y, x);
}

/// Every linear index below the texel count decomposes into an in-bounds
/// pixel whose row-major index is the original index.
pub proof fn lemma_linear_decompose(dims: Dims, i: int)
    requires
        dims.wf(),
        0 <= i < dims.area(),
    ensures
        dims.contains(dims.x_of(i), dims.y_of(i)),
        dims.index(dims.x_of(i), dims.y_of(i)) == i,
{
    let w = dims.width as int;
    let h = dims.height as int;
    lemma_fundamental_div_mod(i, w);
    lemma_remainder_lower(i, w);
    lemma_remainder_upper(i, w);
    lemma_div_pos_is_pos(i, w);
    assert(i / w < h) by (nonlinear_arith)
        requires
            w >= 1,
            h >= 1,
            0 <= i < w * h,
            i == w * (i / w) + i % w,
            0 <= i % w < w,
    ;
}

} // verus!
