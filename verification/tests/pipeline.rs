use jfa_outline::components::{CameraOutline, Outline, OutlineSettings};
use jfa_outline::composite::{
    blend_exec, composite_pass, falloff_alpha_exec, mix_channel_exec, taper_exec,
    OutlinePipelineKey, TargetFormatInfo,
};
use jfa_outline::driver::{frame, seed_dims_exec};
use jfa_outline::extract::{extract_camera_outlines, extract_outline_targets, queue_mesh_masks};
use jfa_outline::graph::{outline, SlotEdge, StageNode};
use jfa_outline::mask::Fragment;
use jfa_outline::pool::ResourcePool;
use jfa_outline::seed::SeedTexel;
use jfa_outline::style::{OutlineParams, OutlineStyle, PreparedStyles};
use jfa_outline::texture::{Dims, Rgba8};

fn dims(width: usize, height: usize) -> Dims {
    Dims { width, height }
}

fn rgba(r: u8, g: u8, b: u8, a: u8) -> Rgba8 {
    Rgba8 { r, g, b, a }
}

fn gray_target(d: Dims, v: u8) -> Vec<Rgba8> {
    vec![rgba(v, v, v, v); d.width * d.height]
}

fn style(width: u32) -> OutlineStyle {
    OutlineStyle {
        color: rgba(200, 40, 10, 255),
        inner_color: rgba(100, 90, 80, 255),
        width,
    }
}

const FORMAT: u32 = 18; // the host's code for its default color format

#[test]
fn falloff_exact_values() {
    // width 4 => squared width 16, alpha = 255 * (16 - d2) / 16.
    assert_eq!(falloff_alpha_exec(0, 4), 255);
    assert_eq!(falloff_alpha_exec(1, 4), 239);
    assert_eq!(falloff_alpha_exec(4, 4), 191);
    assert_eq!(falloff_alpha_exec(9, 4), 111);
    assert_eq!(falloff_alpha_exec(15, 4), 15);
}

#[test]
fn falloff_is_zero_at_and_beyond_width() {
    assert_eq!(falloff_alpha_exec(16, 4), 0);
    assert_eq!(falloff_alpha_exec(25, 4), 0);
    assert_eq!(falloff_alpha_exec(1 << 20, 4), 0);
    // Width zero never draws.
    assert_eq!(falloff_alpha_exec(0, 0), 0);
}

#[test]
fn falloff_is_monotonically_non_increasing() {
    let mut last = 255u8;
    for d2 in 0..=40u128 {
        let a = falloff_alpha_exec(d2, 5);
        assert!(a <= last);
        last = a;
    }
}

#[test]
fn taper_and_mix_exact_values() {
    assert_eq!(taper_exec(0, 4), 0);
    assert_eq!(taper_exec(4, 4), 63);
    assert_eq!(taper_exec(16, 4), 255);
    assert_eq!(mix_channel_exec(100, 200, 0), 100);
    assert_eq!(mix_channel_exec(100, 200, 255), 200);
    assert_eq!(mix_channel_exec(100, 200, 63), 124);
}

#[test]
fn blend_zero_alpha_is_identity_and_alpha_accumulates_by_max() {
    let dst = rgba(10, 20, 30, 40);
    assert_eq!(blend_exec(dst, 99, 98, 97, 0), dst);

    let out = blend_exec(dst, 124, 124, 124, 191);
    assert_eq!(out.r as u32, (124 * 191 + 10 * 64) / 255);
    assert_eq!(out.a, 191); // max(40, 191)

    let keep = blend_exec(rgba(0, 0, 0, 250), 124, 124, 124, 191);
    assert_eq!(keep.a, 250); // max(250, 191)
}

#[test]
fn pipeline_key_rejects_invalid_formats() {
    let good = TargetFormatInfo { code: FORMAT, depth_sample: false, render_attachment: true };
    let depth = TargetFormatInfo { code: 40, depth_sample: true, render_attachment: true };
    let no_attach = TargetFormatInfo { code: 7, depth_sample: false, render_attachment: false };
    assert_eq!(OutlinePipelineKey::new(good).map(|k| k.format), Some(good));
    assert!(OutlinePipelineKey::new(depth).is_none());
    assert!(OutlinePipelineKey::new(no_attach).is_none());
}

#[test]
fn prepared_styles_are_never_stale() {
    let mut styles = PreparedStyles::new();
    assert!(styles.get(7).is_none());

    styles.prepare(7, &style(5));
    let got = styles.get(7).expect("prepared");
    assert_eq!(got.params, OutlineParams::new(style(5).color, style(5).inner_color, 5));

    // Re-preparing after an asset change replaces the stale parameters.
    styles.prepare(7, &style(9));
    assert_eq!(styles.get(7).expect("prepared").params.weight, 9);
    assert!(styles.get(8).is_none());
}

#[test]
fn settings_default_and_setter() {
    let mut s = OutlineSettings::default();
    assert!(!s.half_resolution());
    s.set_half_resolution(true);
    assert!(s.half_resolution());
}

#[test]
fn extraction_keeps_only_enabled_components() {
    let cams = vec![
        (1u64, CameraOutline { enabled: true, style: 7 }),
        (2u64, CameraOutline { enabled: false, style: 7 }),
        (3u64, CameraOutline { enabled: true, style: 8 }),
    ];
    let kept = extract_camera_outlines(&cams);
    assert_eq!(kept.len(), 2);
    assert_eq!(kept[0].0, 1);
    assert_eq!(kept[1].0, 3);

    let rows = vec![
        (10u64, Outline { enabled: false }, 100u64),
        (11u64, Outline { enabled: true }, 101u64),
    ];
    let targets = extract_outline_targets(&rows);
    assert_eq!(targets.len(), 1);
    assert_eq!(targets[0].entity, 11);
    assert_eq!(targets[0].mesh, 101);
}

#[test]
fn queueing_keeps_visibility_order_and_skips_unloaded_meshes() {
    let rows = vec![
        (1u64, Outline { enabled: true }, 100u64),
        (2u64, Outline { enabled: true }, 200u64),
        (3u64, Outline { enabled: true }, 300u64),
    ];
    let targets = extract_outline_targets(&rows);
    let visible = vec![3u64, 9, 1, 2];
    let loaded = vec![100u64, 300];
    // Entity 9 has no outline, mesh 200 is not loaded yet.
    assert_eq!(queue_mesh_masks(&visible, &targets, &loaded), vec![3, 1]);
}

#[test]
fn queueing_uses_the_first_extracted_outline_of_an_entity() {
    let rows = vec![
        (1u64, Outline { enabled: true }, 100u64),
        (1u64, Outline { enabled: true }, 999u64), // shadowed duplicate
    ];
    let targets = extract_outline_targets(&rows);
    // Mesh 999 is loaded but the first entry (mesh 100) wins, and 100 is not.
    assert_eq!(queue_mesh_masks(&vec![1], &targets, &vec![999]), Vec::<u64>::new());
    assert_eq!(queue_mesh_masks(&vec![1], &targets, &vec![100]), vec![1]);
}

#[test]
fn graph_has_the_four_stages_wired_in_order() {
    let g = outline();
    assert_eq!(
        g.nodes,
        vec![StageNode::MeshMask, StageNode::JfaInit, StageNode::Jfa, StageNode::OutlineComposite]
    );
    assert_eq!(
        g.edges,
        vec![
            SlotEdge { from: 0, to: 1 },
            SlotEdge { from: 1, to: 2 },
            SlotEdge { from: 2, to: 3 },
        ]
    );
}

#[test]
fn pool_recreates_on_resolution_change_without_residue() {
    let mut pool = ResourcePool::new();
    pool.ensure(dims(4, 4), FORMAT);
    {
        let set = pool.get();
        assert_eq!(set.dims, dims(4, 4));
        assert_eq!(set.mask.len(), 16);
        assert_eq!(set.seed_a.len(), 16);
        assert_eq!(set.seed_b.len(), 16);
    }
    // Scribble into the cached set, then change the resolution: the new
    // set must be fresh, with nothing carried over.
    if let Some(set) = pool.cached.as_mut() {
        set.mask[3] = 77;
        set.seed_a[5] = SeedTexel::Found { x: 1, y: 1 };
    }
    pool.ensure(dims(2, 3), FORMAT);
    let set = pool.get();
    assert_eq!(set.dims, dims(2, 3));
    assert_eq!(set.format, FORMAT);
    assert_eq!(set.mask, vec![0; 6]);
    assert_eq!(set.seed_a, vec![SeedTexel::Sentinel; 6]);
    assert_eq!(set.seed_b, vec![SeedTexel::Sentinel; 6]);
}

#[test]
fn pool_is_idempotent_under_stable_resolution() {
    let mut pool = ResourcePool::new();
    pool.ensure(dims(4, 4), FORMAT);
    if let Some(set) = pool.cached.as_mut() {
        set.mask[0] = 9; // contents survive as long as the key matches
    }
    pool.ensure(dims(4, 4), FORMAT);
    assert_eq!(pool.get().mask[0], 9);
    // A format change alone also recreates.
    pool.ensure(dims(4, 4), FORMAT + 1);
    assert_eq!(pool.get().mask[0], 0);
}

#[test]
fn view_without_camera_outline_is_a_benign_no_op() {
    let d = dims(4, 4);
    let styles = PreparedStyles::new();
    let target = gray_target(d, 50);
    let mut pool = ResourcePool::new();
    let out = frame(
        &mut pool,
        OutlineSettings::default(),
        None,
        &styles,
        &vec![Fragment { x: 1, y: 1, contribution: 255 }],
        d,
        FORMAT,
        target.clone(),
    );
    assert!(!out.drawn);
    assert_eq!(out.target, target);
    assert!(out.seed.is_empty());
}

#[test]
fn disabled_or_unprepared_views_are_skipped() {
    let d = dims(4, 4);
    let target = gray_target(d, 50);
    let frags = vec![Fragment { x: 1, y: 1, contribution: 255 }];
    let mut pool = ResourcePool::new();

    // Disabled camera outline.
    let mut styles = PreparedStyles::new();
    styles.prepare(7, &style(3));
    let cam = CameraOutline { enabled: false, style: 7 };
    let out = frame(
        &mut pool, OutlineSettings::default(), Some(cam), &styles, &frags, d, FORMAT,
        target.clone(),
    );
    assert!(!out.drawn);
    assert_eq!(out.target, target);

    // Enabled, but the style is not prepared yet: skip, never block.
    let cam = CameraOutline { enabled: true, style: 8 };
    let out = frame(
        &mut pool, OutlineSettings::default(), Some(cam), &styles, &frags, d, FORMAT,
        target.clone(),
    );
    assert!(!out.drawn);
    assert_eq!(out.target, target);
}

#[test]
fn empty_mask_leaves_the_color_target_untouched() {
    let d = dims(8, 8);
    let mut styles = PreparedStyles::new();
    styles.prepare(7, &style(4));
    let cam = CameraOutline { enabled: true, style: 7 };
    let target = gray_target(d, 99);
    let mut pool = ResourcePool::new();
    let out = frame(
        &mut pool, OutlineSettings::default(), Some(cam), &styles, &vec![], d, FORMAT,
        target.clone(),
    );
    assert!(out.drawn);
    assert_eq!(out.target, target); // bit-identical: no visible change
    assert!(out.seed.iter().all(|t| *t == SeedTexel::Sentinel));
}

#[test]
fn rerunning_the_pipeline_is_bit_identical() {
    let d = dims(16, 16);
    let mut styles = PreparedStyles::new();
    styles.prepare(7, &style(5));
    let cam = CameraOutline { enabled: true, style: 7 };
    let frags = vec![
        Fragment { x: 2, y: 3, contribution: 255 },
        Fragment { x: 12, y: 9, contribution: 255 },
    ];
    let target = gray_target(d, 10);
    let mut pool = ResourcePool::new();
    let a = frame(
        &mut pool, OutlineSettings::default(), Some(cam), &styles, &frags, d, FORMAT,
        target.clone(),
    );
    let b = frame(
        &mut pool, OutlineSettings::default(), Some(cam), &styles, &frags, d, FORMAT,
        target.clone(),
    );
    assert!(a.drawn && b.drawn);
    assert_eq!(a.seed, b.seed);
    assert_eq!(a.target, b.target);
}

#[test]
fn outline_ring_has_exact_composited_values() {
    // Single seed at (2, 2) on an 8x8 view, width 3 (squared width 9).
    let d = dims(8, 8);
    let mut styles = PreparedStyles::new();
    styles.prepare(7, &style(3));
    let cam = CameraOutline { enabled: true, style: 7 };
    let frags = vec![Fragment { x: 2, y: 2, contribution: 255 }];
    let target = gray_target(d, 10);
    let mut pool = ResourcePool::new();
    let out = frame(
        &mut pool, OutlineSettings::default(), Some(cam), &styles, &frags, d, FORMAT, target,
    );
    assert!(out.drawn);
    let at = |x: usize, y: usize| out.target[y * 8 + x];

    // At the seed: alpha 255, taper 0 => the inner color replaces the target.
    assert_eq!(at(2, 2), rgba(100, 90, 80, 255));

    // Distance 2 (d2 = 4 < 9): alpha = 255 * 5 / 9 = 141, taper = 255 * 4 / 9 = 113.
    let sr = (100 * (255 - 113) + 200 * 113) / 255; // 144
    let blended_r = (sr * 141 + 10 * (255 - 141)) / 255;
    let px = at(4, 2);
    assert_eq!(px.a, 141);
    assert_eq!(px.r as usize, blended_r);

    // Distance 3 and beyond: exactly no change.
    assert_eq!(at(5, 2), rgba(10, 10, 10, 10));
    assert_eq!(at(7, 7), rgba(10, 10, 10, 10));
}

#[test]
fn half_resolution_halves_the_seed_texture() {
    assert_eq!(seed_dims_exec(dims(9, 9), OutlineSettings { half_resolution: true }), dims(5, 5));
    assert_eq!(seed_dims_exec(dims(1, 1), OutlineSettings { half_resolution: true }), dims(1, 1));
    assert_eq!(seed_dims_exec(dims(8, 6), OutlineSettings { half_resolution: true }), dims(4, 3));
    assert_eq!(seed_dims_exec(dims(8, 6), OutlineSettings { half_resolution: false }), dims(8, 6));

    let d = dims(9, 9);
    let mut styles = PreparedStyles::new();
    styles.prepare(7, &style(4));
    let cam = CameraOutline { enabled: true, style: 7 };
    // Fragments are rasterized at seed resolution in half-resolution mode.
    let frags = vec![Fragment { x: 2, y: 2, contribution: 255 }];
    let settings = OutlineSettings { half_resolution: true };
    let mut pool = ResourcePool::new();
    let out = frame(&mut pool, settings, Some(cam), &styles, &frags, d, FORMAT, gray_target(d, 0));
    assert!(out.drawn);
    assert_eq!(out.seed.len(), 25);
    assert_eq!(out.target.len(), 81);
    // The seed pixel maps back to view pixel (4, 4), which gets the inner color.
    assert_eq!(out.target[4 * 9 + 4], rgba(100, 90, 80, 255));
}

#[test]
fn composite_pass_full_resolution_sentinel_only_is_identity() {
    let d = dims(3, 3);
    let seed = vec![SeedTexel::Sentinel; 9];
    let params = OutlineParams::new(rgba(1, 2, 3, 4), rgba(5, 6, 7, 8), 2);
    let target = gray_target(d, 123);
    let out = composite_pass(&seed, d, d, 1, params, &target);
    assert_eq!(out, target);
}
