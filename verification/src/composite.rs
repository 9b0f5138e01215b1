//! Outline composite stage: turn the converged seed field into a visible
//! outline blended onto the view's color target.
//!
//! For every pixel the stage measures the squared distance, in view
//! pixels, to the stored nearest-seed coordinate, maps it to a ring color
//! and an alpha through a falloff that is monotonically non-increasing in
//! the distance and exactly zero from the outline width outward, and
//! blends the result over the target: alpha-over for the color channels,
//! max-accumulate for alpha so overlapping outlines do not double-darken.
//! Pixels whose seed texel is the sentinel are left untouched.

use vstd::prelude::*;
use vstd::arithmetic::div_mod::{lemma_div_is_ordered, lemma_div_multiples_vanish, lemma_div_pos_is_pos};
use crate::texture::{Dims, Rgba8, lemma_index_in_area, lemma_index_decompose};
use crate::seed::{SeedTexel, seeds_wf};
use crate::jfa::{dist2, dist2_exec, all_sentinel};
use crate::style::OutlineParams;

verus! {

/// Composite alpha for a squared pixel distance `d2` and an outline
/// width of `weight` pixels: `255 * (weight² - d2) / weight²` inside the
/// ring and zero from the width outward.
pub open spec fn falloff_alpha(d2: int, weight: int) -> int {
    let w2 = weight * weight;
    if weight <= 0 || d2 >= w2 {
        0
    } else {
        (255 * (w2 - d2)) / w2
    }
}

/// The falloff alpha always lies on the 8-bit unorm scale.
pub proof fn lemma_falloff_bounds(d2: int, weight: int)
    requires
        d2 >= 0,
    ensures
        0 <= falloff_alpha(d2, weight) <= 255,
{
    let w2 = weight * weight;
    if weight > 0 && d2 < w2 {
        assert(weight * weight > 0) by (nonlinear_arith)
            requires
                weight > 0,
        ;
        lemma_div_pos_is_pos(255 * (w2 - d2), w2);
        lemma_div_is_ordered(255 * (w2 - d2), 255 * w2, w2);
        lemma_div_multiples_vanish(255, w2);
    }
}

/// Monotonic falloff: of two squared distances the smaller one never
/// gets the smaller alpha.
pub proof fn lemma_falloff_monotone(d2a: int, d2b: int, weight: int)
    requires
        0 <= d2a <= d2b,
    ensures
        falloff_alpha(d2a, weight) >= falloff_alpha(d2b, weight),
{
    let w2 = weight * weight;
    lemma_falloff_bounds(d2a, weight);
    lemma_falloff_bounds(d2b, weight);
    if weight > 0 && d2a < w2 && d2b < w2 {
        assert(weight * weight > 0) by (nonlinear_arith)
            requires
                weight > 0,
        ;
        lemma_div_is_ordered(255 * (w2 - d2b), 255 * (w2 - d2a), w2);
    }
}

/// The alpha is exactly zero at and beyond the outline width.
pub proof fn lemma_falloff_zero_at_width(d2: int, weight: int)
    requires
        d2 >= weight * weight,
    ensures
        falloff_alpha(d2, weight) == 0,
{
}

/// Monotonic falloff in terms of pixel distances: for distances
/// `d1 <= d2` the composite alpha at `d1` is at least the alpha at `d2`,
/// and from the outline width outward it is exactly zero.
pub proof fn lemma_falloff_monotone_distance(d1: int, d2: int, weight: int)
    requires
        0 <= d1 <= d2,
    ensures
        falloff_alpha(d1 * d1, weight) >= falloff_alpha(d2 * d2, weight),
        d2 >= weight ==> falloff_alpha(d2 * d2, weight) == 0,
{
    assert(d1 * d1 <= d2 * d2) by (nonlinear_arith)
        requires
            0 <= d1 <= d2,
    ;
    assert(d1 * d1 >= 0) by (nonlinear_arith);
    lemma_falloff_monotone(d1 * d1, d2 * d2, weight);
    if d2 >= weight >= 0 {
        assert(d2 * d2 >= weight * weight) by (nonlinear_arith)
            requires
                0 <= weight <= d2,
        ;
        lemma_falloff_zero_at_width(d2 * d2, weight);
    }
}

/// Linear 8-bit interpolation from `inner` (at `t == 0`) to `outer`
/// (at `t == 255`).
pub open spec fn mix_channel(inner: int, outer: int, t: int) -> int {
    (inner * (255 - t) + outer * t) / 255
}

/// A mix of two 8-bit channels stays on the 8-bit scale.
pub proof fn lemma_mix_bounds(inner: int, outer: int, t: int)
    requires
        0 <= inner <= 255,
        0 <= outer <= 255,
        0 <= t <= 255,
    ensures
        0 <= mix_channel(inner, outer, t) <= 255,
{
    assert(inner * (255 - t) + outer * t <= 255 * 255) by (nonlinear_arith)
        requires
            0 <= inner <= 255,
            0 <= outer <= 255,
            0 <= t <= 255,
    ;
    assert(inner * (255 - t) + outer * t >= 0) by (nonlinear_arith)
        requires
            0 <= inner <= 255,
            0 <= outer <= 255,
            0 <= t <= 255,
    ;
    lemma_div_pos_is_pos(inner * (255 - t) + outer * t, 255);
    lemma_div_is_ordered(inner * (255 - t) + outer * t, 255int * 255, 255);
}

/// Taper position of a squared distance within the ring: 0 at the seed,
/// 255 at the outline width.
pub open spec fn taper(d2: int, weight: int) -> int {
    let w2 = weight * weight;
    if weight <= 0 || d2 >= w2 {
        255
    } else {
        (255 * d2) / w2
    }
}

/// The taper position lies on the 8-bit scale.
pub proof fn lemma_taper_bounds(d2: int, weight: int)
    requires
        d2 >= 0,
    ensures
        0 <= taper(d2, weight) <= 255,
{
    let w2 = weight * weight;
    if weight > 0 && d2 < w2 {
        assert(weight * weight > 0) by (nonlinear_arith)
            requires
                weight > 0,
        ;
        lemma_div_pos_is_pos(255 * d2, w2);
        lemma_div_is_ordered(255 * d2, 255 * w2, w2);
        lemma_div_multiples_vanish(255, w2);
    }
}

/// The ring color at squared distance `d2`: the style's inner color at
/// the seed, tapering to the outline color at the width.
pub open spec fn ring_red(params: OutlineParams, d2: int) -> int {
    mix_channel(params.inner_color.r as int, params.color.r as int, taper(d2, params.weight as int))
}

/// Green channel of the ring color; see [`ring_red`].
pub open spec fn ring_green(params: OutlineParams, d2: int) -> int {
    mix_channel(params.inner_color.g as int, params.color.g as int, taper(d2, params.weight as int))
}

/// Blue channel of the ring color; see [`ring_red`].
pub open spec fn ring_blue(params: OutlineParams, d2: int) -> int {
    mix_channel(params.inner_color.b as int, params.color.b as int, taper(d2, params.weight as int))
}

/// Alpha-over blend of a ring color sample onto a target texel, with
/// max-accumulated alpha.
pub open spec fn blend_texel(dst: Rgba8, sr: int, sg: int, sb: int, alpha: int) -> Rgba8 {
    Rgba8 {
        r: ((sr * alpha + dst.r * (255 - alpha)) / 255) as u8,
        g: ((sg * alpha + dst.g * (255 - alpha)) / 255) as u8,
        b: ((sb * alpha + dst.b * (255 - alpha)) / 255) as u8,
        a: if alpha > dst.a { alpha as u8 } else { dst.a },
    }
}

/// Blending with zero alpha returns the target texel bit-for-bit.
pub proof fn lemma_blend_zero_alpha(dst: Rgba8, sr: int, sg: int, sb: int)
    ensures
        blend_texel(dst, sr, sg, sb, 0) == dst,
{
    assert((sr * 0 + dst.r * (255 - 0)) / 255 == dst.r as int) by {
        lemma_div_multiples_vanish(dst.r as int, 255);
    }
    assert((sg * 0 + dst.g * (255 - 0)) / 255 == dst.g as int) by {
        lemma_div_multiples_vanish(dst.g as int, 255);
    }
    assert((sb * 0 + dst.b * (255 - 0)) / 255 == dst.b as int) by {
        lemma_div_multiples_vanish(dst.b as int, 255);
    }
}

/// Each blended channel stays on the 8-bit scale.
pub proof fn lemma_blend_bounds(dst: Rgba8, sr: int, sg: int, sb: int, alpha: int)
    requires
        0 <= sr <= 255,
        0 <= sg <= 255,
        0 <= sb <= 255,
        0 <= alpha <= 255,
    ensures
        0 <= (sr * alpha + dst.r * (255 - alpha)) / 255 <= 255,
        0 <= (sg * alpha + dst.g * (255 - alpha)) / 255 <= 255,
        0 <= (sb * alpha + dst.b * (255 - alpha)) / 255 <= 255,
{
    lemma_mix_bounds(dst.r as int, sr, alpha);
    lemma_mix_bounds(dst.g as int, sg, alpha);
    lemma_mix_bounds(dst.b as int, sb, alpha);
}

/// What the composite pass writes for one target pixel `(x, y)` whose
/// sampled seed texel is `t`: the target texel unchanged when there is
/// no seed, otherwise the ring sample blended over it.  `scale` maps
/// seed-texture pixels back to view pixels (2 in half-resolution mode).
pub open spec fn composite_texel(
    t: SeedTexel,
    x: int,
    y: int,
    scale: int,
    params: OutlineParams,
    dst: Rgba8,
) -> Rgba8 {
    match t {
        SeedTexel::Sentinel => dst,
        SeedTexel::Found { x: sx, y: sy } => {
            let d2 = dist2(x, y, sx * scale, sy * scale);
            let alpha = falloff_alpha(d2, params.weight as int);
            blend_texel(dst, ring_red(params, d2), ring_green(params, d2), ring_blue(params, d2), alpha)
        },
    }
}

/// The whole composite pass: every target pixel blended with the ring
/// sample of the seed texel it maps to.
pub open spec fn composite_spec(
    seed: Seq<SeedTexel>,
    sdims: Dims,
    dims: Dims,
    scale: int,
    params: OutlineParams,
    target: Seq<Rgba8>,
) -> Seq<Rgba8> {
    Seq::new(
        dims.area() as nat,
        |i: int| composite_texel(
            seed[sdims.index(dims.x_of(i) / scale, dims.y_of(i) / scale)],
            dims.x_of(i),
            dims.y_of(i),
            scale,
            params,
            target[i],
        ),
    )
}

/// A sentinel-only seed field leaves the color target untouched: with no
/// covered pixels anywhere, compositing is the identity.
pub proof fn lemma_composite_all_sentinel(
    seed: Seq<SeedTexel>,
    sdims: Dims,
    dims: Dims,
    scale: int,
    params: OutlineParams,
    target: Seq<Rgba8>,
)
    requires
        dims.wf(),
        sdims.wf(),
        scale >= 1,
        dims.width <= sdims.width * scale,
        dims.height <= sdims.height * scale,
        seed.len() == sdims.area(),
        all_sentinel(seed),
        target.len() == dims.area(),
    ensures
        composite_spec(seed, sdims, dims, scale, params, target) == target,
{
    let out = composite_spec(seed, sdims, dims, scale, params, target);
    assert forall|i: int| 0 <= i < out.len() implies out[i] == target[i] by {
        crate::texture::lemma_linear_decompose(dims, i);
        let x = dims.x_of(i);
        let y = dims.y_of(i);
        lemma_sample_in_bounds(sdims, dims, scale, x, y);
        lemma_index_in_area(sdims, x / scale, y / scale);
    }
    assert(out =~= target);
}

/// The seed-texture pixel a view pixel samples is in bounds whenever the
/// seed texture covers the view at the given scale.
pub proof fn lemma_sample_in_bounds(sdims: Dims, dims: Dims, scale: int, x: int, y: int)
    requires
        dims.wf(),
        sdims.wf(),
        scale >= 1,
        dims.width <= sdims.width * scale,
        dims.height <= sdims.height * scale,
        dims.contains(x, y),
    ensures
        sdims.contains(x / scale, y / scale),
{
    lemma_div_pos_is_pos(x, scale);
    lemma_div_pos_is_pos(y, scale);
    vstd::arithmetic::div_mod::lemma_fundamental_div_mod(x, scale);
    vstd::arithmetic::div_mod::lemma_fundamental_div_mod(y, scale);
    vstd::arithmetic::div_mod::lemma_mod_division_less_than_divisor(x, scale);
    vstd::arithmetic::div_mod::lemma_mod_division_less_than_divisor(y, scale);
    assert(x / scale < sdims.width) by (nonlinear_arith)
        requires
            scale >= 1,
            0 <= x < sdims.width * scale,
            scale * (x / scale) + x % scale == x,
            0 <= x % scale < scale,
    ;
    assert(y / scale < sdims.height) by (nonlinear_arith)
        requires
            scale >= 1,
            0 <= y < sdims.height * scale,
            scale * (y / scale) + y % scale == y,
            0 <= y % scale < scale,
    ;
}

/// Composite alpha of a squared distance, as a runtime value.
pub fn falloff_alpha_exec(d2: u128, weight: u32) -> (a: u8)
    ensures
        a as int == falloff_alpha(d2 as int, weight as int),
{
    proof {
        assert(weight as int * weight as int <= 0xffff_ffff * 0xffff_ffff) by (nonlinear_arith)
            requires
                0 <= weight <= 0xffff_ffffu32,
        ;
        lemma_falloff_bounds(d2 as int, weight as int);
    }
    let w2 = weight as u128 * weight as u128;
    if weight == 0 || d2 >= w2 {
        0
    } else {
        let q = (255 * (w2 - d2)) / w2;
        q as u8
    }
}

/// Taper position of a squared distance, as a runtime value.
pub fn taper_exec(d2: u128, weight: u32) -> (t: u8)
    ensures
        t as int == taper(d2 as int, weight as int),
{
    proof {
        assert(weight as int * weight as int <= 0xffff_ffff * 0xffff_ffff) by (nonlinear_arith)
            requires
                0 <= weight <= 0xffff_ffffu32,
        ;
        lemma_taper_bounds(d2 as int, weight as int);
    }
    let w2 = weight as u128 * weight as u128;
    if weight == 0 || d2 >= w2 {
        255
    } else {
        let q = (255 * d2) / w2;
        q as u8
    }
}

/// 8-bit interpolation between two channels, as a runtime value.
pub fn mix_channel_exec(inner: u8, outer: u8, t: u8) -> (m: u8)
    ensures
        m as int == mix_channel(inner as int, outer as int, t as int),
{
    proof {
        lemma_mix_bounds(inner as int, outer as int, t as int);
    }
    let num = inner as u32 * (255 - t as u32) + outer as u32 * t as u32;
    (num / 255) as u8
}

/// The ring sample blended over one target texel, as a runtime value.
pub fn blend_exec(dst: Rgba8, sr: u8, sg: u8, sb: u8, alpha: u8) -> (out: Rgba8)
    ensures
        out == blend_texel(dst, sr as int, sg as int, sb as int, alpha as int),
{
    proof {
        lemma_blend_bounds(dst, sr as int, sg as int, sb as int, alpha as int);
    }
    let r = ((sr as u32 * alpha as u32 + dst.r as u32 * (255 - alpha as u32)) / 255) as u8;
    let g = ((sg as u32 * alpha as u32 + dst.g as u32 * (255 - alpha as u32)) / 255) as u8;
    let b = ((sb as u32 * alpha as u32 + dst.b as u32 * (255 - alpha as u32)) / 255) as u8;
    let a = if alpha > dst.a {
        alpha
    } else {
        dst.a
    };
    Rgba8 { r, g, b, a }
}

/// The outline composite pass: read-modify the view's color target by
/// blending the distance-mapped ring sample of every pixel, leaving
/// sentinel pixels untouched.  `scale` is 1 at full resolution and 2 in
/// half-resolution mode, where the seed texture covers the view at half
/// size.
pub fn composite_pass(
    seed: &Vec<SeedTexel>,
    sdims: Dims,
    dims: Dims,
    scale: usize,
    params: OutlineParams,
    target: &Vec<Rgba8>,
) -> (out: Vec<Rgba8>)
    requires
        dims.wf(),
        sdims.wf(),
        scale >= 1,
        dims.width <= sdims.width * scale,
        dims.height <= sdims.height * scale,
        (sdims.width - 1) * scale < dims.width,
        (sdims.height - 1) * scale < dims.height,
        seeds_wf(seed@, sdims),
        target@.len() == dims.area(),
    ensures
        out@ == composite_spec(seed@, sdims, dims, scale as int, params, target@),
        out@.len() == dims.area(),
{
    let mut out: Vec<Rgba8> = Vec::new();
    let mut y: usize = 0;
    while y < dims.height
        invariant
            y <= dims.height,
            dims.wf(),
            sdims.wf(),
            scale >= 1,
            dims.width <= sdims.width * scale,
            dims.height <= sdims.height * scale,
            (sdims.width - 1) * scale < dims.width,
            (sdims.height - 1) * scale < dims.height,
            seeds_wf(seed@, sdims),
            target@.len() == dims.area(),
            out@.len() == y * dims.width,
            forall|i: int| 0 <= i < out@.len() ==>
                out@[i] == composite_spec(seed@, sdims, dims, scale as int, params, target@)[i],
        decreases dims.height - y,
    {
        let mut x: usize = 0;
        proof {
            lemma_index_in_area(dims, 0, y as int);
        }
        while x < dims.width
            invariant
                x <= dims.width,
                y < dims.height,
                dims.wf(),
                sdims.wf(),
                scale >= 1,
                dims.width <= sdims.width * scale,
                dims.height <= sdims.height * scale,
                (sdims.width - 1) * scale < dims.width,
                (sdims.height - 1) * scale < dims.height,
                seeds_wf(seed@, sdims),
                target@.len() == dims.area(),
                out@.len() == y * dims.width + x,
                forall|i: int| 0 <= i < out@.len() ==>
                    out@[i] == composite_spec(seed@, sdims, dims, scale as int, params, target@)[i],
            decreases dims.width - x,
        {
            proof {
                lemma_index_in_area(dims, x as int, y as int);
                lemma_index_decompose(dims, x as int, y as int);
                lemma_sample_in_bounds(sdims, dims, scale as int, x as int, y as int);
            }
            let sx_s = x / scale;
            let sy_s = y / scale;
            let sample_idx = sdims.linear_index(sx_s, sy_s);
            let idx = dims.linear_index(x, y);
            let texel = match seed[sample_idx] {
                SeedTexel::Sentinel => target[idx],
                SeedTexel::Found { x: sx, y: sy } => {
                    proof {
                        vstd::arithmetic::mul::lemma_mul_inequality(
                            sx as int,
                            sdims.width - 1,
                            scale as int,
                        );
                        vstd::arithmetic::mul::lemma_mul_inequality(
                            sy as int,
                            sdims.height - 1,
                            scale as int,
                        );
                        vstd::arithmetic::mul::lemma_mul_nonnegative(sx as int, scale as int);
                        vstd::arithmetic::mul::lemma_mul_nonnegative(sy as int, scale as int);
                    }
                    let vx = sx * scale;
                    let vy = sy * scale;
                    let d2 = dist2_exec(dims, x, y, vx, vy);
                    let alpha = falloff_alpha_exec(d2, params.weight);
                    let t = taper_exec(d2, params.weight);
                    let sr = mix_channel_exec(params.inner_color.r, params.color.r, t);
                    let sg = mix_channel_exec(params.inner_color.g, params.color.g, t);
                    let sb = mix_channel_exec(params.inner_color.b, params.color.b, t);
                    blend_exec(target[idx], sr, sg, sb, alpha)
                },
            };
            out.push(texel);
            x = x + 1;
        }
        y = y + 1;
        proof {
            assert((y - 1) * dims.width + dims.width == y * dims.width) by (nonlinear_arith);
        }
    }
    proof {
        assert(out@.len() == dims.height * dims.width);
        assert(dims.height * dims.width == dims.area()) by (nonlinear_arith);
        assert(out@ =~= composite_spec(seed@, sdims, dims, scale as int, params, target@));
    }
    out
}

/// How a view's color-target format answers the two questions the
/// composite stage asks of it: whether it samples as depth, and whether
/// it may be used as a render attachment.  The host derives these from
/// its texture format tables and keeps the format's own identifier in
/// `code`.
#[derive(Clone, Copy, PartialEq, Eq, Structural, Debug, Hash)]
pub struct TargetFormatInfo {
    /// The host renderer's identifier for the format.
    pub code: u32,
    /// The format samples as depth, so it cannot be a color attachment.
    pub depth_sample: bool,
    /// The format's guaranteed usages include render attachment.
    pub render_attachment: bool,
}

/// Specialization key of the composite pipeline for one target format.
#[derive(Clone, Copy, PartialEq, Eq, Structural, Debug, Hash)]
pub struct OutlinePipelineKey {
    /// The validated color-target format.
    pub format: TargetFormatInfo,
}

impl OutlinePipelineKey {
    /// Validate a color-target format at construction time: depth-sampled
    /// formats and formats that cannot be render attachments are rejected
    /// once, at setup, rather than per frame.
    pub fn new(format: TargetFormatInfo) -> (r: Option<OutlinePipelineKey>)
        ensures
            r is Some <==> (!format.depth_sample && format.render_attachment),
            r is Some ==> r.unwrap().format == format,
    {
        if format.depth_sample {
            // Can't use this format as a color attachment.
            return None;
        }
        if format.render_attachment {
            Some(OutlinePipelineKey { format })
        } else {
            None
        }
    }
}

} // verus!
