//! Per-view driver: run the four stages in the fixed order of the
//! outline sub-graph — mask, seed init, jump flood, composite — feeding
//! each stage's output into the next stage's input slot.
//!
//! The driver first re-checks the resource pool (once per frame, before
//! any stage), then runs the pipeline.  A view without an enabled
//! [`CameraOutline`], or whose style has not been prepared yet, is a
//! benign no-op: the color target comes back bit-for-bit unchanged and
//! nothing is drawn.  The outputs are a pure function of the frame's
//! inputs; nothing carries over from earlier frames or resolutions.

use vstd::prelude::*;
use crate::texture::{Dims, Rgba8};
use crate::mask::{Fragment, mask_spec, accumulate_mask};
use crate::seed::{SeedTexel, seed_init_spec, seed_init};
use crate::jfa::{jfa_spec, jfa_run, all_sentinel};
use crate::composite::{composite_spec, composite_pass, lemma_composite_all_sentinel};
use crate::components::{CameraOutline, OutlineSettings};
use crate::style::{OutlineParams, PreparedStyles};
use crate::pool::ResourcePool;

verus! {

/// The resolution the mask and seed textures use for a view: the view's
/// own, or (in half-resolution mode) half of it, rounded up so it never
/// collapses to zero.
pub open spec fn seed_dims(dims: Dims, half_resolution: bool) -> Dims {
    if half_resolution {
        Dims { width: ((dims.width + 1) / 2) as usize, height: ((dims.height + 1) / 2) as usize }
    } else {
        dims
    }
}

/// The factor mapping seed-texture pixels back to view pixels.
pub open spec fn seed_scale(half_resolution: bool) -> int {
    if half_resolution {
        2
    } else {
        1
    }
}

/// The seed resolution covers the view at the seed scale, and no seed
/// pixel maps outside the view.
pub proof fn lemma_seed_dims_cover(dims: Dims, half_resolution: bool)
    requires
        dims.wf(),
    ensures
        seed_dims(dims, half_resolution).wf(),
        dims.width <= seed_dims(dims, half_resolution).width * seed_scale(half_resolution),
        dims.height <= seed_dims(dims, half_resolution).height * seed_scale(half_resolution),
        (seed_dims(dims, half_resolution).width - 1) * seed_scale(half_resolution) < dims.width,
        (seed_dims(dims, half_resolution).height - 1) * seed_scale(half_resolution) < dims.height,
        seed_dims(dims, half_resolution).width <= dims.width,
        seed_dims(dims, half_resolution).height <= dims.height,
{
    if half_resolution {
        let w = dims.width as int;
        let h = dims.height as int;
        let sw = (w + 1) / 2;
        let sh = (h + 1) / 2;
        assert(2 * sw == w + 1 - (w + 1) % 2);
        assert(2 * sh == h + 1 - (h + 1) % 2);
        assert(0 <= (w + 1) % 2 < 2);
        assert(0 <= (h + 1) % 2 < 2);
        assert(sw * sh <= w * h) by (nonlinear_arith)
            requires
                1 <= sw <= w,
                1 <= sh <= h,
        ;
    }
}

/// Compute the seed-texture resolution for a view.
pub fn seed_dims_exec(dims: Dims, settings: OutlineSettings) -> (s: Dims)
    requires
        dims.wf(),
    ensures
        s == seed_dims(dims, settings.half_resolution),
        s.wf(),
{
    proof {
        lemma_seed_dims_cover(dims, settings.half_resolution);
    }
    if settings.half_resolution() {
        Dims { width: (dims.width - 1) / 2 + 1, height: (dims.height - 1) / 2 + 1 }
    } else {
        dims
    }
}

/// The converged seed field a view's fragments produce: mask
/// accumulation, seed init, then the full jump-flood schedule.
pub open spec fn pipeline_seed(frags: Seq<Fragment>, sdims: Dims) -> Seq<SeedTexel> {
    jfa_spec(seed_init_spec(mask_spec(frags, sdims), sdims), sdims)
}

/// The composited color target of a view that draws an outline.
pub open spec fn pipeline_composite(
    frags: Seq<Fragment>,
    sdims: Dims,
    dims: Dims,
    scale: int,
    params: OutlineParams,
    target: Seq<Rgba8>,
) -> Seq<Rgba8> {
    composite_spec(pipeline_seed(frags, sdims), sdims, dims, scale, params, target)
}

/// What one frame of one view produced.
pub struct FrameResult {
    /// The view's color target: composited when an outline was drawn,
    /// bit-for-bit the input otherwise.
    pub target: Vec<Rgba8>,
    /// The converged seed texture, empty when the view was skipped.
    pub seed: Vec<SeedTexel>,
    /// Whether the composite stage ran.
    pub drawn: bool,
}

/// Whether a view draws an outline this frame: it has an enabled camera
/// outline whose style is already prepared.
pub open spec fn view_draws(camera: Option<CameraOutline>, styles: PreparedStyles) -> bool {
    match camera {
        Some(cam) => cam.enabled && styles.lookup(cam.style) is Some,
        None => false,
    }
}

/// The parameters the composite stage uses for a drawing view.
pub open spec fn view_params(camera: Option<CameraOutline>, styles: PreparedStyles) -> OutlineParams
    recommends
        view_draws(camera, styles),
{
    styles.lookup(camera.unwrap().style).unwrap().params
}

/// Run one view's frame: re-check the resource pool, then the four
/// stages in graph order.  Re-running with unchanged inputs yields
/// bit-identical seed and target textures, because both outputs are
/// pure functions of the inputs and a matching pool is reused untouched.
pub fn frame(
    pool: &mut ResourcePool,
    settings: OutlineSettings,
    camera: Option<CameraOutline>,
    styles: &PreparedStyles,
    frags: &Vec<Fragment>,
    dims: Dims,
    format: u32,
    target: Vec<Rgba8>,
) -> (out: FrameResult)
    requires
        dims.wf(),
        target@.len() == dims.area(),
    ensures
        final(pool).matches(seed_dims(dims, settings.half_resolution), format),
        old(pool).matches(seed_dims(dims, settings.half_resolution), format) ==> *final(pool)
            == *old(pool),
        out.drawn == view_draws(camera, *styles),
        !out.drawn ==> out.target@ == target@ && out.seed@.len() == 0,
        out.drawn ==> out.seed@ == pipeline_seed(frags@, seed_dims(dims, settings.half_resolution)),
        out.drawn ==> out.target@ == pipeline_composite(
            frags@,
            seed_dims(dims, settings.half_resolution),
            dims,
            seed_scale(settings.half_resolution),
            view_params(camera, *styles),
            target@,
        ),
{
    let sdims = seed_dims_exec(dims, settings);
    pool.ensure(sdims, format);

    let params = match camera {
        Some(cam) => {
            if cam.enabled {
                match styles.get(cam.style) {
                    Some(g) => Some(g.params),
                    None => None,
                }
            } else {
                None
            }
        },
        None => None,
    };

    match params {
        None => FrameResult { target, seed: Vec::new(), drawn: false },
        Some(params) => {
            proof {
                lemma_seed_dims_cover(dims, settings.half_resolution);
            }
            let scale: usize = if settings.half_resolution() {
                2
            } else {
                1
            };
            let mask = accumulate_mask(sdims, frags);
            let init = seed_init(&mask, sdims);
            let seed = jfa_run(init, sdims);
            let composited = composite_pass(&seed, sdims, dims, scale, params, &target);
            FrameResult { target: composited, seed, drawn: true }
        },
    }
}

/// Idempotence law: running the full pipeline twice over an unchanged
/// fragment list yields bit-identical seed and composite textures.  Both
/// outputs are pure functions of the frame's inputs — no stage keeps
/// state between runs, and a matching resource pool is reused untouched
/// (see [`crate::pool::ResourcePool::ensure`]) — so any two runs that
/// see the same inputs produce the same textures.
pub proof fn lemma_rerun_identical(
    frags: Seq<Fragment>,
    sdims: Dims,
    dims: Dims,
    scale: int,
    params: OutlineParams,
    target: Seq<Rgba8>,
    seed_a: Seq<SeedTexel>,
    seed_b: Seq<SeedTexel>,
    out_a: Seq<Rgba8>,
    out_b: Seq<Rgba8>,
)
    requires
        seed_a == pipeline_seed(frags, sdims),
        out_a == pipeline_composite(frags, sdims, dims, scale, params, target),
        seed_b == pipeline_seed(frags, sdims),
        out_b == pipeline_composite(frags, sdims, dims, scale, params, target),
    ensures
        seed_b == seed_a,
        out_b == out_a,
{
}

/// Empty-mask law: a view whose fragment list is empty — zero enabled
/// outline targets — composites to the unmodified input color target,
/// whatever the style.  The seed field converges to sentinel everywhere
/// and compositing a sentinel-only field is the identity.
pub proof fn lemma_empty_view_unchanged(
    sdims: Dims,
    dims: Dims,
    scale: int,
    params: OutlineParams,
    target: Seq<Rgba8>,
)
    requires
        dims.wf(),
        sdims.wf(),
        scale >= 1,
        dims.width <= sdims.width * scale,
        dims.height <= sdims.height * scale,
        target.len() == dims.area(),
    ensures
        pipeline_composite(Seq::empty(), sdims, dims, scale, params, target) == target,
        all_sentinel(pipeline_seed(Seq::empty(), sdims)),
{
    let mask = mask_spec(Seq::empty(), sdims);
    assert(forall|i: int| 0 <= i < mask.len() ==> #[trigger] mask[i] == 0);
    crate::jfa::lemma_empty_mask_all_sentinel(mask, sdims);
    lemma_composite_all_sentinel(
        pipeline_seed(Seq::empty(), sdims),
        sdims,
        dims,
        scale,
        params,
        target,
    );
}

} // verus!
