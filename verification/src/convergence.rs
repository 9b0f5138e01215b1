//! Convergence of the jump flood for the single-seed case.
//!
//! With exactly one covered pixel, the flood is exact: after the full
//! pass schedule every pixel stores that pixel's coordinate.  The proof
//! follows the seed through the passes: writing the horizontal and
//! vertical offsets from the seed to a pixel in binary, each pass at
//! step `2^e` can move the seed by `-2^e`, `0` or `2^e` per axis while
//! staying inside the bounding box of the two pixels, and the steps that
//! remain after pass `e` can cover any residue up to `2^e - 1`.

use vstd::prelude::*;
use vstd::arithmetic::power2::{pow2, lemma_pow2_pos, lemma_pow2_unfold};
use vstd::arithmetic::div_mod::{lemma_mod_multiples_vanish, lemma_small_mod, lemma_div_multiples_vanish_fancy};
use crate::texture::{Dims, lemma_index_in_area, lemma_index_decompose, lemma_linear_decompose};
use crate::seed::{SeedTexel, seed_init_spec};
use crate::jfa::{
    cand_dx, cand_dy, cand_texel, closer, scan_best, pass_texel, pass_spec, run_passes, jfa_spec,
    ceil_log2, lemma_ceil_log2_bounds, lemma_sentinel_invariant,
};

verus! {

/// Multiplying by a factor from `{-1, 0, 1}` negates, clears or keeps
/// the other operand.
proof fn lemma_unit_mul(d: int, s: int)
    ensures
        d == -1 ==> d * s == -s,
        d == 0 ==> d * s == 0,
        d == 1 ==> d * s == s,
{
    assert(d == -1 ==> d * s == -s) by (nonlinear_arith);
    assert(d == 0 ==> d * s == 0) by (nonlinear_arith);
    assert(d == 1 ==> d * s == s) by (nonlinear_arith);
}

/// Once some candidate before `c` holds a seed, the scan's running best
/// holds one too: `closer` never trades a seed for the sentinel.
proof fn lemma_scan_found(
    src: Seq<SeedTexel>,
    dims: Dims,
    step: int,
    x: int,
    y: int,
    c1: int,
    c: int,
)
    requires
        0 <= c1 < c,
        cand_texel(src, dims, step, x, y, c1) is Found,
    ensures
        scan_best(src, dims, step, x, y, c) is Found,
    decreases c,
{
    if c == c1 + 1 {
        assert(scan_best(src, dims, step, x, y, c) == closer(
            x,
            y,
            scan_best(src, dims, step, x, y, c1),
            cand_texel(src, dims, step, x, y, c1),
        ));
    } else {
        lemma_scan_found(src, dims, step, x, y, c1, c - 1);
    }
}

/// One pass carries a seed from pixel `(qx, qy)` to any pixel one step
/// offset away: the reader finds the holder among its nine candidates.
proof fn lemma_pass_reaches(
    src: Seq<SeedTexel>,
    dims: Dims,
    step: int,
    px: int,
    py: int,
    qx: int,
    qy: int,
    dxo: int,
    dyo: int,
)
    requires
        dims.wf(),
        src.len() == dims.area(),
        dims.contains(px, py),
        dims.contains(qx, qy),
        -1 <= dxo <= 1,
        -1 <= dyo <= 1,
        qx == px + dxo * step,
        qy == py + dyo * step,
        src[dims.index(qx, qy)] is Found,
    ensures
        pass_spec(src, dims, step)[dims.index(px, py)] is Found,
{
    let c1 = (dyo + 1) * 3 + (dxo + 1);
    assert(0 <= c1 < 9);
    assert(cand_dx(c1) == dxo) by {
        lemma_mod_multiples_vanish(dyo + 1, dxo + 1, 3);
        lemma_small_mod((dxo + 1) as nat, 3);
    }
    assert(cand_dy(c1) == dyo) by {
        lemma_div_multiples_vanish_fancy(dyo + 1, dxo + 1, 3);
    }
    assert(cand_texel(src, dims, step, px, py, c1) == src[dims.index(qx, qy)]);
    lemma_scan_found(src, dims, step, px, py, c1, 9);
    lemma_index_in_area(dims, px, py);
    lemma_index_decompose(dims, px, py);
    assert(pass_spec(src, dims, step)[dims.index(px, py)] == pass_texel(src, dims, step, px, py));
}

/// The remaining passes at exponents `e, e-1, ..., 0` carry a seed from
/// pixel `(qx, qy)` to every pixel within `2^(e+1) - 1` per axis, moving
/// only through in-bounds pixels between the two.
proof fn lemma_flood_reaches(
    src: Seq<SeedTexel>,
    dims: Dims,
    e: int,
    px: int,
    py: int,
    qx: int,
    qy: int,
)
    requires
        dims.wf(),
        src.len() == dims.area(),
        dims.contains(px, py),
        dims.contains(qx, qy),
        e >= -1,
        px - qx < pow2((e + 1) as nat),
        qx - px < pow2((e + 1) as nat),
        py - qy < pow2((e + 1) as nat),
        qy - py < pow2((e + 1) as nat),
        src[dims.index(qx, qy)] is Found,
    ensures
        run_passes(src, dims, e)[dims.index(px, py)] is Found,
    decreases e + 1,
{
    if e == -1 {
        assert(pow2(0) == 1) by {
            vstd::arithmetic::power2::lemma2_to64();
        }
        assert(px == qx && py == qy);
    } else {
        let step = pow2(e as nat) as int;
        lemma_pow2_pos(e as nat);
        lemma_pow2_unfold((e + 1) as nat);
        let dx = px - qx;
        let dy = py - qy;
        // Per axis, move the holder one step toward the pixel when the
        // residue demands it; the intermediate pixel stays between the
        // holder and the pixel, hence in bounds.
        let dxo: int = if dx >= step {
            -1
        } else if dx <= -step {
            1
        } else {
            0
        };
        let dyo: int = if dy >= step {
            -1
        } else if dy <= -step {
            1
        } else {
            0
        };
        let mx = qx - dxo * step;
        let my = qy - dyo * step;
        lemma_unit_mul(dxo, step);
        lemma_unit_mul(dyo, step);
        assert(dims.contains(mx, my));
        assert(px - mx < step && mx - px < step);
        assert(py - my < step && my - py < step);
        lemma_pass_reaches(src, dims, step, mx, my, qx, qy, dxo, dyo);
        let next = pass_spec(src, dims, step);
        lemma_index_in_area(dims, mx, my);
        lemma_flood_reaches(next, dims, e - 1, px, py, mx, my);
    }
}

/// Completeness of the full schedule: one covered pixel anywhere in the
/// mask suffices for every pixel of the converged field to hold a seed.
/// The first pass's step `2^k` reaches `max(width, height)` or more, so
/// the halving steps can cover any in-view offset.
pub proof fn lemma_any_seed_floods(mask: Seq<u8>, dims: Dims, x0: int, y0: int)
    requires
        dims.wf(),
        mask.len() == dims.area(),
        dims.contains(x0, y0),
        mask[dims.index(x0, y0)] > 0,
    ensures
        forall|i: int| 0 <= i < dims.area()
            ==> #[trigger] jfa_spec(seed_init_spec(mask, dims), dims)[i] is Found,
{
    let init = seed_init_spec(mask, dims);
    let out = jfa_spec(init, dims);
    let k = ceil_log2(dims.max_side()) as int;
    lemma_index_in_area(dims, x0, y0);
    lemma_index_decompose(dims, x0, y0);
    assert(init[dims.index(x0, y0)] == (SeedTexel::Found { x: x0 as usize, y: y0 as usize }));
    lemma_ceil_log2_bounds(dims.max_side());
    lemma_pow2_unfold((k + 1) as nat);
    assert forall|i: int| 0 <= i < dims.area() implies #[trigger] out[i] is Found by {
        lemma_linear_decompose(dims, i);
        let px = dims.x_of(i);
        let py = dims.y_of(i);
        assert(px - x0 < pow2((k + 1) as nat) && x0 - px < pow2((k + 1) as nat)) by {
            assert(pow2(k as nat) >= dims.max_side());
        }
        assert(py - y0 < pow2((k + 1) as nat) && y0 - py < pow2((k + 1) as nat)) by {
            assert(pow2(k as nat) >= dims.max_side());
        }
        lemma_flood_reaches(init, dims, k, px, py, x0, y0);
    }
}

/// Single-seed convergence: with exactly one covered pixel `(x0, y0)` in
/// the mask, the converged seed field stores `(x0, y0)` at every pixel —
/// the flood is exact in the single-seed case.
pub proof fn lemma_single_seed_converges(mask: Seq<u8>, dims: Dims, x0: int, y0: int)
    requires
        dims.wf(),
        mask.len() == dims.area(),
        dims.contains(x0, y0),
        mask[dims.index(x0, y0)] > 0,
        forall|i: int| 0 <= i < mask.len() && i != dims.index(x0, y0) ==> #[trigger] mask[i] == 0,
    ensures
        forall|i: int| 0 <= i < dims.area()
            ==> #[trigger] jfa_spec(seed_init_spec(mask, dims), dims)[i] == (SeedTexel::Found {
            x: x0 as usize,
            y: y0 as usize,
        }),
{
    let out = jfa_spec(seed_init_spec(mask, dims), dims);
    let i0 = dims.index(x0, y0);
    lemma_index_in_area(dims, x0, y0);
    lemma_any_seed_floods(mask, dims, x0, y0);
    lemma_sentinel_invariant(mask, dims);
    assert forall|i: int| 0 <= i < dims.area() implies #[trigger] out[i] == (SeedTexel::Found {
        x: x0 as usize,
        y: y0 as usize,
    }) by {
        assert(out[i] is Found);
        let fx = out[i]->Found_x;
        let fy = out[i]->Found_y;
        assert(dims.contains(fx as int, fy as int) && crate::mask::covered(
            mask,
            dims.index(fx as int, fy as int),
        ));
        lemma_index_in_area(dims, fx as int, fy as int);
        assert(dims.index(fx as int, fy as int) == i0);
        lemma_index_decompose(dims, fx as int, fy as int);
        lemma_index_decompose(dims, x0, y0);
    }
}

} // verus!
