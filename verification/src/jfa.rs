//! Jump-flood stage: propagate nearest-seed coordinates in
//! `ceil(log2(max(width, height))) + 1` full-screen passes.
//!
//! Each pass reads the current seed buffer and, for every pixel, scans the
//! nine candidate offsets `(dx * step, dy * step)` with `dx, dy` in
//! `{-1, 0, 1}`, in a fixed row-major order.  Among the candidates that
//! are in bounds and hold a seed, the pass keeps the one whose stored
//! coordinate is nearest (by squared Euclidean distance) to the pixel;
//! ties go to the candidate scanned first, so the result is deterministic.
//! The step sizes are `2^k, 2^(k-1), ..., 1` where `k` is the smallest
//! exponent with `2^k >= max(width, height)`, and the passes ping-pong
//! between two equally sized buffers.

use vstd::prelude::*;
use vstd::arithmetic::power2::{pow2, lemma_pow2_pos, lemma_pow2_unfold, lemma_pow2_strictly_increases, lemma2_to64, lemma2_to64_rest};
use crate::texture::{Dims, lemma_index_in_area, lemma_index_decompose, lemma_linear_decompose};
use crate::seed::{SeedTexel, texel_wf, seeds_wf};

verus! {

/// Smallest exponent `k` with `2^k >= n`; the number of jump-flood passes
/// for a view whose longer side is `n` pixels is `ceil_log2(n) + 1`.
pub open spec fn ceil_log2(n: int) -> nat
    decreases n,
{
    if n <= 1 {
        0
    } else {
        (1 + ceil_log2((n + 1) / 2)) as nat
    }
}

/// `ceil_log2(n)` is exactly the base-2 ceiling logarithm: `2^k` reaches
/// `n`, and for `n >= 2` the next smaller power does not.
pub proof fn lemma_ceil_log2_bounds(n: int)
    requires
        n >= 1,
    ensures
        pow2(ceil_log2(n)) >= n,
        n >= 2 ==> ceil_log2(n) >= 1 && pow2((ceil_log2(n) - 1) as nat) < n,
    decreases n,
{
    lemma2_to64();
    if n >= 2 {
        let m = (n + 1) / 2;
        assert(1 <= m < n);
        lemma_ceil_log2_bounds(m);
        let cm = ceil_log2(m);
        assert(ceil_log2(n) == cm + 1);
        lemma_pow2_unfold((cm + 1) as nat);
        assert(2 * m >= n);
        assert(pow2((cm + 1) as nat) == 2 * pow2(cm));
        assert(2 * pow2(cm) >= 2 * m);
        if m == 1 {
            assert(pow2(cm) == 1);
        } else {
            // pow2(cm) < 2 * m <= n + 1, and pow2(cm) is even while the
            // boundary case 2 * m == n + 1 has n odd, so pow2(cm) < n.
            lemma_pow2_unfold(cm);
            assert(pow2(cm) == 2 * pow2((cm - 1) as nat));
            assert(pow2(cm) < 2 * m);
            assert(2 * m <= n + 1);
            if pow2(cm) == n {
                assert(n == 2 * pow2((cm - 1) as nat));
                assert(2 * m == n + 1);
                assert(false);
            }
        }
    }
}

/// The exponent loop's exit condition pins `ceil_log2` uniquely.
pub proof fn lemma_ceil_log2_unique(n: int, k: nat)
    requires
        n >= 1,
        pow2(k) >= n,
        k == 0 || pow2((k - 1) as nat) < n,
    ensures
        k == ceil_log2(n),
{
    let c = ceil_log2(n);
    lemma_ceil_log2_bounds(n);
    if k < c {
        assert(n >= 2);
        if k < c - 1 {
            lemma_pow2_strictly_increases(k, (c - 1) as nat);
        }
        assert(pow2(k) <= pow2((c - 1) as nat));
        assert(false);
    }
    if k > c {
        if c < k - 1 {
            lemma_pow2_strictly_increases(c, (k - 1) as nat);
        }
        assert(pow2((k - 1) as nat) >= pow2(c));
        assert(false);
    }
}

/// Number of jump-flood passes for a view of size `dims`: one pass per
/// step size `2^k, ..., 2^0` with `k = ceil_log2(max(width, height))`.
/// The count is a pure function of the resolution.
pub fn jfa_pass_count(dims: Dims) -> (n: u32)
    requires
        dims.wf(),
    ensures
        n == ceil_log2(dims.max_side()) + 1,
{
    let side: usize = if dims.width >= dims.height {
        dims.width
    } else {
        dims.height
    };
    let m = side as u128;
    let mut p: u128 = 1;
    let mut k: u32 = 0;
    proof {
        lemma2_to64();
        lemma2_to64_rest();
    }
    while p < m
        invariant
            m == dims.max_side(),
            m >= 1,
            p >= 1,
            p == pow2(k as nat),
            k == 0 || pow2((k - 1) as nat) < m,
            k <= 64,
        decreases 64 - k,
    {
        proof {
            lemma_pow2_pos((k + 1) as nat);
            if k == 64 {
                lemma2_to64_rest();
                assert(false);
            }
            lemma_pow2_unfold((k + 1) as nat);
        }
        p = p * 2;
        k = k + 1;
    }
    proof {
        lemma_ceil_log2_unique(m as int, k as nat);
    }
    k + 1
}

/// Squared Euclidean distance between pixel `(x, y)` and seed `(sx, sy)`.
pub open spec fn dist2(x: int, y: int, sx: int, sy: int) -> int {
    (x - sx) * (x - sx) + (y - sy) * (y - sy)
}

/// Squared distances between two in-bounds pixels fit in 128 bits.
pub proof fn lemma_dist2_fits(w: int, h: int)
    requires
        w >= 1,
        h >= 1,
        w * h <= 0x1_0000_0000_0000_0000,
    ensures
        (w - 1) * (w - 1) + (h - 1) * (h - 1) <= u128::MAX,
{
    if w >= h {
        assert(h <= 0x1_0000_0000) by (nonlinear_arith)
            requires
                w >= h >= 1,
                w * h <= 0x1_0000_0000_0000_0000,
        ;
        assert(w <= 0x1_0000_0000_0000_0000) by (nonlinear_arith)
            requires
                h >= 1,
                w >= 1,
                w * h <= 0x1_0000_0000_0000_0000,
        ;
        assert((w - 1) * (w - 1) <= 0xffff_ffff_ffff_ffff * 0xffff_ffff_ffff_ffff) by (nonlinear_arith)
            requires
                1 <= w <= 0x1_0000_0000_0000_0000,
        ;
        assert((h - 1) * (h - 1) <= 0xffff_ffff * 0xffff_ffff) by (nonlinear_arith)
            requires
                1 <= h <= 0x1_0000_0000,
        ;
    } else {
        assert(w <= 0x1_0000_0000) by (nonlinear_arith)
            requires
                h >= w >= 1,
                w * h <= 0x1_0000_0000_0000_0000,
        ;
        assert(h <= 0x1_0000_0000_0000_0000) by (nonlinear_arith)
            requires
                h >= 1,
                w >= 1,
                w * h <= 0x1_0000_0000_0000_0000,
        ;
        assert((h - 1) * (h - 1) <= 0xffff_ffff_ffff_ffff * 0xffff_ffff_ffff_ffff) by (nonlinear_arith)
            requires
                1 <= h <= 0x1_0000_0000_0000_0000,
        ;
        assert((w - 1) * (w - 1) <= 0xffff_ffff * 0xffff_ffff) by (nonlinear_arith)
            requires
                1 <= w <= 0x1_0000_0000,
        ;
    }
}

/// Squared distance between two in-bounds pixels, as a runtime value.
pub fn dist2_exec(dims: Dims, x: usize, y: usize, sx: usize, sy: usize) -> (d: u128)
    requires
        dims.wf(),
        dims.contains(x as int, y as int),
        dims.contains(sx as int, sy as int),
    ensures
        d == dist2(x as int, y as int, sx as int, sy as int),
{
    proof {
        lemma_dist2_fits(dims.width as int, dims.height as int);
        assert(usize::MAX <= 0x1_0000_0000_0000_0000);
    }
    let ax: u128 = if x >= sx {
        (x - sx) as u128
    } else {
        (sx - x) as u128
    };
    let ay: u128 = if y >= sy {
        (y - sy) as u128
    } else {
        (sy - y) as u128
    };
    proof {
        assert(ax * ax == (x as int - sx as int) * (x as int - sx as int)) by (nonlinear_arith)
            requires
                ax == x as int - sx as int || ax == sx as int - x as int,
        ;
        assert(ay * ay == (y as int - sy as int) * (y as int - sy as int)) by (nonlinear_arith)
            requires
                ay == y as int - sy as int || ay == sy as int - y as int,
        ;
        assert(ax * ax <= (dims.width - 1) * (dims.width - 1)) by (nonlinear_arith)
            requires
                0 <= ax <= dims.width - 1,
        ;
        assert(ay * ay <= (dims.height - 1) * (dims.height - 1)) by (nonlinear_arith)
            requires
                0 <= ay <= dims.height - 1,
        ;
    }
    ax * ax + ay * ay
}

/// Column offset of candidate `c` in the fixed scan order.
pub open spec fn cand_dx(c: int) -> int {
    c % 3 - 1
}

/// Row offset of candidate `c` in the fixed scan order.
pub open spec fn cand_dy(c: int) -> int {
    c / 3 - 1
}

/// The texel candidate `c` contributes for pixel `(x, y)`: the source
/// texel at `(x + dx * step, y + dy * step)`, or the sentinel when that
/// position falls outside the texture.
pub open spec fn cand_texel(src: Seq<SeedTexel>, dims: Dims, step: int, x: int, y: int, c: int) -> SeedTexel {
    let cx = x + cand_dx(c) * step;
    let cy = y + cand_dy(c) * step;
    if dims.contains(cx, cy) {
        src[dims.index(cx, cy)]
    } else {
        SeedTexel::Sentinel
    }
}

/// Keep `cur` unless `cand` holds a seed strictly nearer to `(x, y)`;
/// the first minimum found therefore wins.
pub open spec fn closer(x: int, y: int, cur: SeedTexel, cand: SeedTexel) -> SeedTexel {
    match cand {
        SeedTexel::Sentinel => cur,
        SeedTexel::Found { x: cx, y: cy } => match cur {
            SeedTexel::Sentinel => cand,
            SeedTexel::Found { x: bx, y: by } => if dist2(x, y, cx as int, cy as int) < dist2(
                x,
                y,
                bx as int,
                by as int,
            ) {
                cand
            } else {
                cur
            },
        },
    }
}

/// Best seed among the first `c` candidates of pixel `(x, y)`.
pub open spec fn scan_best(src: Seq<SeedTexel>, dims: Dims, step: int, x: int, y: int, c: int) -> SeedTexel
    decreases c,
{
    if c <= 0 {
        SeedTexel::Sentinel
    } else {
        closer(
            x,
            y,
            scan_best(src, dims, step, x, y, c - 1),
            cand_texel(src, dims, step, x, y, c - 1),
        )
    }
}

/// The texel one jump-flood pass writes for pixel `(x, y)`.
pub open spec fn pass_texel(src: Seq<SeedTexel>, dims: Dims, step: int, x: int, y: int) -> SeedTexel {
    scan_best(src, dims, step, x, y, 9)
}

/// One whole jump-flood pass at the given step size.
pub open spec fn pass_spec(src: Seq<SeedTexel>, dims: Dims, step: int) -> Seq<SeedTexel> {
    Seq::new(dims.area() as nat, |i: int| pass_texel(src, dims, step, dims.x_of(i), dims.y_of(i)))
}

/// Passes at step sizes `2^e, 2^(e-1), ..., 1`, applied in that order.
pub open spec fn run_passes(src: Seq<SeedTexel>, dims: Dims, e: int) -> Seq<SeedTexel>
    decreases e + 1,
{
    if e < 0 {
        src
    } else {
        run_passes(pass_spec(src, dims, pow2(e as nat) as int), dims, e - 1)
    }
}

/// The converged seed field: the full pass schedule applied to the
/// initial seed field.
pub open spec fn jfa_spec(seed: Seq<SeedTexel>, dims: Dims) -> Seq<SeedTexel> {
    run_passes(seed, dims, ceil_log2(dims.max_side()) as int)
}

/// One jump-flood pass: a full-screen draw with no blending that writes
/// every pixel of the opposite buffer unconditionally.
pub fn jfa_pass(src: &Vec<SeedTexel>, dims: Dims, step: u128) -> (out: Vec<SeedTexel>)
    requires
        dims.wf(),
        seeds_wf(src@, dims),
        1 <= step <= 0x4_0000_0000_0000_0000,
    ensures
        out@ == pass_spec(src@, dims, step as int),
        seeds_wf(out@, dims),
{
    let ghost stepi = step as int;
    let mut out: Vec<SeedTexel> = Vec::new();
    let mut y: usize = 0;
    while y < dims.height
        invariant
            y <= dims.height,
            dims.wf(),
            seeds_wf(src@, dims),
            1 <= step <= 0x4_0000_0000_0000_0000,
            stepi == step as int,
            out@.len() == y * dims.width,
            forall|i: int| 0 <= i < out@.len() ==> out@[i] == pass_spec(src@, dims, stepi)[i],
            forall|i: int| 0 <= i < out@.len() ==> texel_wf(#[trigger] out@[i], dims),
        decreases dims.height - y,
    {
        let mut x: usize = 0;
        proof {
            lemma_index_in_area(dims, 0, y as int);
        }
        while x < dims.width
            invariant
                x <= dims.width,
                y < dims.height,
                dims.wf(),
                seeds_wf(src@, dims),
                1 <= step <= 0x4_0000_0000_0000_0000,
                stepi == step as int,
                out@.len() == y * dims.width + x,
                forall|i: int| 0 <= i < out@.len() ==> out@[i] == pass_spec(src@, dims, stepi)[i],
                forall|i: int| 0 <= i < out@.len() ==> texel_wf(#[trigger] out@[i], dims),
            decreases dims.width - x,
        {
            let mut best = SeedTexel::Sentinel;
            let mut best_d2: u128 = 0;
            let mut c: usize = 0;
            while c < 9
                invariant
                    c <= 9,
                    x < dims.width,
                    y < dims.height,
                    dims.wf(),
                    seeds_wf(src@, dims),
                    1 <= step <= 0x4_0000_0000_0000_0000,
                    stepi == step as int,
                    best == scan_best(src@, dims, stepi, x as int, y as int, c as int),
                    texel_wf(best, dims),
                    best matches SeedTexel::Found { x: bx, y: by } ==> best_d2 == dist2(
                        x as int,
                        y as int,
                        bx as int,
                        by as int,
                    ),
                decreases 9 - c,
            {
                let dxm: i128 = (c % 3) as i128 - 1;
                let dym: i128 = (c / 3) as i128 - 1;
                proof {
                    assert(-(step as int) <= dxm * (step as int) <= step as int) by (nonlinear_arith)
                        requires
                            -1 <= dxm <= 1,
                            step >= 1,
                    ;
                    assert(-(step as int) <= dym * (step as int) <= step as int) by (nonlinear_arith)
                        requires
                            -1 <= dym <= 1,
                            step >= 1,
                    ;
                }
                let cx: i128 = x as i128 + dxm * (step as i128);
                let cy: i128 = y as i128 + dym * (step as i128);
                let ghost cand = cand_texel(src@, dims, stepi, x as int, y as int, c as int);
                if 0 <= cx && cx < dims.width as i128 && 0 <= cy && cy < dims.height as i128 {
                    let ux = cx as usize;
                    let uy = cy as usize;
                    let idx = dims.linear_index(ux, uy);
                    proof {
                        assert(cand == src@[idx as int]);
                    }
                    let t = src[idx];
                    match t {
                        SeedTexel::Sentinel => {},
                        SeedTexel::Found { x: sx, y: sy } => {
                            let d2 = dist2_exec(dims, x, y, sx, sy);
                            match best {
                                SeedTexel::Sentinel => {
                                    best = t;
                                    best_d2 = d2;
                                },
                                SeedTexel::Found { .. } => {
                                    if d2 < best_d2 {
                                        best = t;
                                        best_d2 = d2;
                                    }
                                },
                            }
                        },
                    }
                } else {
                    proof {
                        assert(cand == SeedTexel::Sentinel);
                    }
                }
                c = c + 1;
            }
            proof {
                lemma_index_in_area(dims, x as int, y as int);
                lemma_index_decompose(dims, x as int, y as int);
            }
            out.push(best);
            x = x + 1;
        }
        y = y + 1;
        proof {
            assert((y - 1) * dims.width + dims.width == y * dims.width) by (nonlinear_arith);
        }
    }
    proof {
        assert(out@.len() == dims.height * dims.width);
        assert(dims.height * dims.width == dims.area()) by (nonlinear_arith);
        assert(out@ =~= pass_spec(src@, dims, stepi));
    }
    out
}

/// The two-buffer arena the jump-flood passes ping-pong between.  The
/// buffer selected by `parity` holds the current seed field; each pass
/// writes the other buffer and flips the parity, so no pass ever reads
/// the buffer it is writing.
pub struct PingPong {
    /// Buffer selected when `parity` is false.
    pub slot0: Vec<SeedTexel>,
    /// Buffer selected when `parity` is true.
    pub slot1: Vec<SeedTexel>,
    /// Which slot currently holds the live seed field.
    pub parity: bool,
}

impl PingPong {
    /// The live seed field.
    pub open spec fn current(self) -> Seq<SeedTexel> {
        if self.parity {
            self.slot1@
        } else {
            self.slot0@
        }
    }

    /// Start with `seed` as the live buffer.
    pub fn new(seed: Vec<SeedTexel>) -> (pp: PingPong)
        ensures
            pp.current() == seed@,
            pp.parity == false,
    {
        PingPong { slot0: seed, slot1: Vec::new(), parity: false }
    }

    /// Borrow the live buffer for reading.
    pub fn read(&self) -> (r: &Vec<SeedTexel>)
        ensures
            r@ == self.current(),
    {
        if self.parity {
            &self.slot1
        } else {
            &self.slot0
        }
    }

    /// Store a freshly written buffer in the idle slot and make it live.
    pub fn write(&mut self, v: Vec<SeedTexel>)
        ensures
            final(self).current() == v@,
            final(self).parity == !old(self).parity,
    {
        if self.parity {
            self.slot0 = v;
            self.parity = false;
        } else {
            self.slot1 = v;
            self.parity = true;
        }
    }

    /// Take the live buffer out of the arena.
    pub fn into_current(self) -> (v: Vec<SeedTexel>)
        ensures
            v@ == self.current(),
    {
        if self.parity {
            self.slot1
        } else {
            self.slot0
        }
    }
}

/// Run the whole jump-flood schedule: `ceil_log2(max side) + 1` passes
/// with halving step sizes, ping-ponging between two buffers.  The
/// result is the converged approximate nearest-seed field.
pub fn jfa_run(seed: Vec<SeedTexel>, dims: Dims) -> (out: Vec<SeedTexel>)
    requires
        dims.wf(),
        seeds_wf(seed@, dims),
    ensures
        out@ == jfa_spec(seed@, dims),
        seeds_wf(out@, dims),
{
    let ghost seed0 = seed@;
    let passes = jfa_pass_count(dims);
    let k = passes - 1;

    // Step size for the first pass: 2^k.
    let mut stepv: u128 = 1;
    let mut t: u32 = 0;
    proof {
        lemma2_to64();
        lemma_ceil_log2_bounds(dims.max_side());
        if k >= 1 {
            lemma_pow2_unfold(k as nat);
        }
        assert(pow2(k as nat) <= 0x4_0000_0000_0000_0000) by {
            if k >= 1 {
                assert(pow2((k - 1) as nat) < dims.max_side());
                assert(dims.max_side() <= usize::MAX);
            }
        }
    }
    while t < k
        invariant
            t <= k,
            stepv == pow2(t as nat),
            pow2(k as nat) <= 0x4_0000_0000_0000_0000,
        decreases k - t,
    {
        proof {
            lemma_pow2_unfold((t + 1) as nat);
            if t + 1 < k {
                lemma_pow2_strictly_increases((t + 1) as nat, k as nat);
            }
        }
        stepv = stepv * 2;
        t = t + 1;
    }

    let mut pp = PingPong::new(seed);
    let mut j: u32 = 0;
    while j < passes
        invariant
            j <= passes,
            passes == k + 1,
            k == ceil_log2(dims.max_side()),
            dims.wf(),
            seeds_wf(pp.current(), dims),
            run_passes(pp.current(), dims, k as int - j as int) == run_passes(seed0, dims, k as int),
            j <= k ==> stepv == pow2((k - j) as nat),
        decreases passes - j,
    {
        let ghost e = k as int - j as int;
        proof {
            lemma2_to64();
            lemma_pow2_pos((k - j) as nat);
            if (k - j) >= 1 {
                lemma_pow2_unfold((k - j) as nat);
            }
            if k >= 1 && j >= 1 {
                lemma_pow2_strictly_increases((k - j) as nat, k as nat);
            }
            lemma_ceil_log2_bounds(dims.max_side());
            assert(pow2(k as nat) <= 0x4_0000_0000_0000_0000) by {
                lemma2_to64();
                if k >= 1 {
                    lemma_pow2_unfold(k as nat);
                    assert(pow2((k - 1) as nat) < dims.max_side());
                    assert(dims.max_side() <= usize::MAX);
                }
            }
        }
        let cur = pp.read();
        let nxt = jfa_pass(cur, dims, stepv);
        pp.write(nxt);
        stepv = stepv / 2;
        j = j + 1;
    }
    let out = pp.into_current();
    proof {
        assert(run_passes(out@, dims, -1) == out@);
    }
    out
}

/// Every seed the field holds descends from a covered mask pixel: a
/// non-sentinel texel always stores the coordinate of a pixel that was
/// inside the original mask.
pub open spec fn seeds_from_mask(g: Seq<SeedTexel>, mask: Seq<u8>, dims: Dims) -> bool {
    forall|i: int| 0 <= i < g.len() ==> match #[trigger] g[i] {
        SeedTexel::Sentinel => true,
        SeedTexel::Found { x, y } => dims.contains(x as int, y as int) && crate::mask::covered(
            mask,
            dims.index(x as int, y as int),
        ),
    }
}

/// The candidate scan only ever hands out texels read from the source
/// field, so it cannot invent a seed.
proof fn lemma_scan_from_mask(
    src: Seq<SeedTexel>,
    mask: Seq<u8>,
    dims: Dims,
    step: int,
    x: int,
    y: int,
    c: int,
)
    requires
        dims.wf(),
        src.len() == dims.area(),
        seeds_from_mask(src, mask, dims),
    ensures
        match scan_best(src, dims, step, x, y, c) {
            SeedTexel::Sentinel => true,
            SeedTexel::Found { x: fx, y: fy } => dims.contains(fx as int, fy as int)
                && crate::mask::covered(mask, dims.index(fx as int, fy as int)),
        },
    decreases c,
{
    if c > 0 {
        lemma_scan_from_mask(src, mask, dims, step, x, y, c - 1);
        let cx = x + cand_dx(c - 1) * step;
        let cy = y + cand_dy(c - 1) * step;
        if dims.contains(cx, cy) {
            lemma_index_in_area(dims, cx, cy);
        }
    }
}

/// One pass preserves the descent of every seed from the mask.
proof fn lemma_pass_from_mask(src: Seq<SeedTexel>, mask: Seq<u8>, dims: Dims, step: int)
    requires
        dims.wf(),
        src.len() == dims.area(),
        seeds_from_mask(src, mask, dims),
    ensures
        seeds_from_mask(pass_spec(src, dims, step), mask, dims),
{
    let out = pass_spec(src, dims, step);
    assert forall|i: int| 0 <= i < out.len() implies match #[trigger] out[i] {
        SeedTexel::Sentinel => true,
        SeedTexel::Found { x, y } => dims.contains(x as int, y as int) && crate::mask::covered(
            mask,
            dims.index(x as int, y as int),
        ),
    } by {
        lemma_scan_from_mask(src, mask, dims, step, dims.x_of(i), dims.y_of(i), 9);
    }
}

/// The whole pass schedule preserves the descent of every seed.
proof fn lemma_run_from_mask(src: Seq<SeedTexel>, mask: Seq<u8>, dims: Dims, e: int)
    requires
        dims.wf(),
        src.len() == dims.area(),
        seeds_from_mask(src, mask, dims),
    ensures
        seeds_from_mask(run_passes(src, dims, e), mask, dims),
        run_passes(src, dims, e).len() == dims.area(),
    decreases e + 1,
{
    if e >= 0 {
        lemma_pass_from_mask(src, mask, dims, pow2(e as nat) as int);
        lemma_run_from_mask(pass_spec(src, dims, pow2(e as nat) as int), mask, dims, e - 1);
    }
}

/// Sentinel invariant: a pixel of the converged seed field is
/// non-sentinel only if its stored coordinate descends, through the
/// jump-flood reads, from a pixel that was covered in the original mask.
pub proof fn lemma_sentinel_invariant(mask: Seq<u8>, dims: Dims)
    requires
        dims.wf(),
        mask.len() == dims.area(),
    ensures
        seeds_from_mask(jfa_spec(crate::seed::seed_init_spec(mask, dims), dims), mask, dims),
        jfa_spec(crate::seed::seed_init_spec(mask, dims), dims).len() == dims.area(),
{
    let init = crate::seed::seed_init_spec(mask, dims);
    assert forall|i: int| 0 <= i < init.len() implies match #[trigger] init[i] {
        SeedTexel::Sentinel => true,
        SeedTexel::Found { x, y } => dims.contains(x as int, y as int) && crate::mask::covered(
            mask,
            dims.index(x as int, y as int),
        ),
    } by {
        lemma_linear_decompose(dims, i);
    }
    lemma_run_from_mask(init, mask, dims, ceil_log2(dims.max_side()) as int);
}

/// A seed field with no seeds at all.
pub open spec fn all_sentinel(g: Seq<SeedTexel>) -> bool {
    forall|i: int| 0 <= i < g.len() ==> #[trigger] g[i] == SeedTexel::Sentinel
}

/// Scanning a sentinel-only field finds nothing.
proof fn lemma_scan_sentinel(src: Seq<SeedTexel>, dims: Dims, step: int, x: int, y: int, c: int)
    requires
        dims.wf(),
        src.len() == dims.area(),
        all_sentinel(src),
    ensures
        scan_best(src, dims, step, x, y, c) == SeedTexel::Sentinel,
    decreases c,
{
    if c > 0 {
        lemma_scan_sentinel(src, dims, step, x, y, c - 1);
        let cx = x + cand_dx(c - 1) * step;
        let cy = y + cand_dy(c - 1) * step;
        if dims.contains(cx, cy) {
            lemma_index_in_area(dims, cx, cy);
        }
    }
}

/// The pass schedule maps a sentinel-only field to a sentinel-only field:
/// a view with no covered pixels converges to "no seed anywhere".
pub proof fn lemma_run_sentinel(src: Seq<SeedTexel>, dims: Dims, e: int)
    requires
        dims.wf(),
        src.len() == dims.area(),
        all_sentinel(src),
    ensures
        all_sentinel(run_passes(src, dims, e)),
        run_passes(src, dims, e).len() == dims.area(),
    decreases e + 1,
{
    if e >= 0 {
        let step = pow2(e as nat) as int;
        let out = pass_spec(src, dims, step);
        assert forall|i: int| 0 <= i < out.len() implies #[trigger] out[i] == SeedTexel::Sentinel by {
            lemma_scan_sentinel(src, dims, step, dims.x_of(i), dims.y_of(i), 9);
        }
        lemma_run_sentinel(out, dims, e - 1);
    }
}

/// An uncovered mask yields a sentinel-only converged field.
pub proof fn lemma_empty_mask_all_sentinel(mask: Seq<u8>, dims: Dims)
    requires
        dims.wf(),
        mask.len() == dims.area(),
        forall|i: int| 0 <= i < mask.len() ==> #[trigger] mask[i] == 0,
    ensures
        all_sentinel(jfa_spec(crate::seed::seed_init_spec(mask, dims), dims)),
        jfa_spec(crate::seed::seed_init_spec(mask, dims), dims).len() == dims.area(),
{
    let init = crate::seed::seed_init_spec(mask, dims);
    assert(all_sentinel(init));
    lemma_run_sentinel(init, dims, ceil_log2(dims.max_side()) as int);
}

} // verus!
