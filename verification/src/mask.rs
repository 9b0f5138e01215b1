//! Mask stage: accumulate rasterized coverage into a per-pixel mask.
//!
//! The host's rasterizer turns every enabled outline target into coverage
//! fragments; this stage folds them into the mask texture with additive
//! saturating blending.  Because saturating addition is commutative and
//! associative, the accumulated value of each pixel is exactly
//! `min(255, sum of the contributions landing on it)` — independent of
//! draw order, which is why the mask pass needs no sorted input.

use vstd::prelude::*;
use crate::texture::{Dims, lemma_index_in_area, lemma_index_decompose, lemma_linear_decompose};

verus! {

/// One rasterized fragment: a pixel position and its coverage contribution
/// on the 8-bit unorm scale (255 = full coverage).
#[derive(Clone, Copy, PartialEq, Eq, Structural, Debug)]
pub struct Fragment {
    pub x: usize,
    pub y: usize,
    pub contribution: u8,
}

/// Sum of the contributions of all in-bounds fragments of `frags` that land
/// on pixel `(x, y)`.  Out-of-bounds fragments are clipped by the viewport
/// and contribute nothing.
pub open spec fn coverage_sum(frags: Seq<Fragment>, dims: Dims, x: int, y: int) -> int
    decreases frags.len(),
{
    if frags.len() == 0 {
        0
    } else {
        let f = frags.last();
        let hit = if f.x == x && f.y == y && dims.contains(f.x as int, f.y as int) {
            f.contribution as int
        } else {
            0
        };
        coverage_sum(frags.drop_last(), dims, x, y) + hit
    }
}

/// The accumulated mask value of a pixel: its coverage sum, saturated at
/// the 8-bit maximum.
pub open spec fn mask_value(frags: Seq<Fragment>, dims: Dims, x: int, y: int) -> int {
    let s = coverage_sum(frags, dims, x, y);
    if s > 255 {
        255
    } else {
        s
    }
}

/// The mask texture produced by accumulating `frags` over a cleared target.
pub open spec fn mask_spec(frags: Seq<Fragment>, dims: Dims) -> Seq<u8> {
    Seq::new(dims.area() as nat, |i: int| mask_value(frags, dims, dims.x_of(i), dims.y_of(i)) as u8)
}

/// A pixel counts as covered once any coverage at all has accumulated.
pub open spec fn covered(mask: Seq<u8>, i: int) -> bool {
    mask[i] > 0
}

/// Coverage sums are never negative.
pub proof fn lemma_coverage_sum_nonneg(frags: Seq<Fragment>, dims: Dims, x: int, y: int)
    ensures
        coverage_sum(frags, dims, x, y) >= 0,
    decreases frags.len(),
{
    if frags.len() > 0 {
        lemma_coverage_sum_nonneg(frags.drop_last(), dims, x, y);
    }
}

/// Removing one fragment removes exactly its own contribution from the
/// coverage sum, wherever in the list it sits.
proof fn lemma_coverage_sum_remove(frags: Seq<Fragment>, dims: Dims, x: int, y: int, j: int)
    requires
        0 <= j < frags.len(),
    ensures
        coverage_sum(frags, dims, x, y) == coverage_sum(frags.remove(j), dims, x, y) + (
        if frags[j].x == x && frags[j].y == y && dims.contains(
            frags[j].x as int,
            frags[j].y as int,
        ) {
            frags[j].contribution as int
        } else {
            0
        }),
    decreases frags.len(),
{
    if j == frags.len() - 1 {
        assert(frags.remove(j) =~= frags.drop_last());
    } else {
        assert(frags.remove(j).drop_last() =~= frags.drop_last().remove(j));
        assert(frags.remove(j).last() == frags.last());
        lemma_coverage_sum_remove(frags.drop_last(), dims, x, y, j);
    }
}

/// The coverage sum depends only on which fragments arrive, not on their
/// order: any two draw orders of the same fragments accumulate the same
/// mask.  This is why the mask stage needs no sorted input.
pub proof fn lemma_coverage_sum_order_independent(
    frags1: Seq<Fragment>,
    frags2: Seq<Fragment>,
    dims: Dims,
    x: int,
    y: int,
)
    requires
        frags1.to_multiset() == frags2.to_multiset(),
    ensures
        coverage_sum(frags1, dims, x, y) == coverage_sum(frags2, dims, x, y),
    decreases frags1.len(),
{
    frags1.to_multiset_ensures();
    frags2.to_multiset_ensures();
    if frags1.len() == 0 {
        assert(frags2.len() == 0);
    } else {
        let f = frags1.last();
        assert(frags1.contains(f));
        assert(frags2.to_multiset().count(f) > 0);
        assert(frags2.contains(f));
        let j = choose|j: int| 0 <= j < frags2.len() && frags2[j] == f;
        lemma_coverage_sum_remove(frags2, dims, x, y, j);
        assert(frags1.remove(frags1.len() - 1) =~= frags1.drop_last());
        assert(frags1.drop_last().to_multiset() =~= frags1.to_multiset().remove(f));
        assert(frags2.remove(j).to_multiset() =~= frags2.to_multiset().remove(f));
        lemma_coverage_sum_order_independent(frags1.drop_last(), frags2.remove(j), dims, x, y);
    }
}

/// Order independence of the whole mask texture: permuting the fragment
/// list leaves every accumulated pixel bit-identical.
pub proof fn lemma_mask_order_independent(frags1: Seq<Fragment>, frags2: Seq<Fragment>, dims: Dims)
    requires
        frags1.to_multiset() == frags2.to_multiset(),
    ensures
        mask_spec(frags1, dims) == mask_spec(frags2, dims),
{
    assert forall|i: int| 0 <= i < dims.area() implies mask_spec(frags1, dims)[i] == mask_spec(
        frags2,
        dims,
    )[i] by {
        lemma_coverage_sum_order_independent(frags1, frags2, dims, dims.x_of(i), dims.y_of(i));
    }
    assert(mask_spec(frags1, dims) =~= mask_spec(frags2, dims));
}

/// Rasterize the mask: clear to zero, then fold every fragment in with
/// saturating additive blending.  The result is the order-independent
/// accumulated coverage of every pixel.
pub fn accumulate_mask(dims: Dims, frags: &Vec<Fragment>) -> (mask: Vec<u8>)
    requires
        dims.wf(),
    ensures
        mask@ == mask_spec(frags@, dims),
        mask@.len() == dims.area(),
{
    let n = dims.texel_count();
    let mut mask: Vec<u8> = Vec::new();
    let mut i: usize = 0;
    while i < n
        invariant
            i <= n,
            n == dims.area(),
            mask@.len() == i,
            forall|p: int| 0 <= p < i ==> mask@[p] == 0,
        decreases n - i,
    {
        mask.push(0);
        i = i + 1;
    }
    assert forall|p: int| 0 <= p < dims.area() implies
        mask@[p] == mask_value(frags@.take(0), dims, dims.x_of(p), dims.y_of(p)) by {
        assert(frags@.take(0).len() == 0);
    }

    let mut j: usize = 0;
    while j < frags.len()
        invariant
            j <= frags@.len(),
            dims.wf(),
            mask@.len() == dims.area(),
            forall|p: int| 0 <= p < dims.area() ==>
                mask@[p] == mask_value(#[trigger] frags@.take(j as int), dims, dims.x_of(p), dims.y_of(p)),
        decreases frags@.len() - j,
    {
        let f = frags[j];
        let ghost pre = mask@;
        if f.x < dims.width && f.y < dims.height {
            proof {
                lemma_index_in_area(dims, f.x as int, f.y as int);
            }
            let idx = dims.linear_index(f.x, f.y);
            let old_v = mask[idx];
            let new_v = if old_v as u32 + f.contribution as u32 > 255 {
                255
            } else {
                old_v + f.contribution
            };
            mask.set(idx, new_v);
        }
        proof {
            assert(frags@.take(j + 1).drop_last() =~= frags@.take(j as int));
            assert(frags@.take(j + 1).last() == frags@[j as int]);
            assert forall|p: int| 0 <= p < dims.area() implies
                mask@[p] == mask_value(#[trigger] frags@.take(j + 1), dims, dims.x_of(p), dims.y_of(p)) by {
                let x = dims.x_of(p);
                let y = dims.y_of(p);
                lemma_linear_decompose(dims, p);
                lemma_coverage_sum_nonneg(frags@.take(j as int), dims, x, y);
                if f.x == x && f.y == y && dims.contains(f.x as int, f.y as int) {
                    lemma_index_decompose(dims, f.x as int, f.y as int);
                    assert(dims.index(f.x as int, f.y as int) == p);
                } else {
                    if dims.contains(f.x as int, f.y as int) {
                        lemma_index_in_area(dims, f.x as int, f.y as int);
                        if dims.index(f.x as int, f.y as int) == p {
                            lemma_index_decompose(dims, f.x as int, f.y as int);
                        }
                    }
                    assert(mask@[p] == pre[p]);
                }
            }
        }
        j = j + 1;
    }
    proof {
        assert(frags@.take(frags@.len() as int) =~= frags@);
        assert(mask@ =~= mask_spec(frags@, dims));
    }
    mask
}

} // verus!
