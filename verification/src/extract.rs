//! Per-frame extraction and queueing decisions.
//!
//! Each frame the host hands over the cameras that carry an outline
//! component, the entities that carry an [`Outline`] component, and the
//! set of meshes whose GPU copies are loaded.  These functions make the
//! decisions the render world acts on: which cameras get a mask phase,
//! which targets are extracted, and which visible entities are queued
//! into the mask pass.

use vstd::prelude::*;
use crate::components::{CameraOutline, ExtractedOutline, Outline};

verus! {

/// The cameras whose outline component is enabled, in input order.
pub open spec fn enabled_cameras(s: Seq<(u64, CameraOutline)>) -> Seq<(u64, CameraOutline)>
    decreases s.len(),
{
    if s.len() == 0 {
        Seq::empty()
    } else {
        let rest = enabled_cameras(s.drop_last());
        if s.last().1.enabled {
            rest.push(s.last())
        } else {
            rest
        }
    }
}

/// Keep only the cameras that asked for an outline; disabled components
/// are dropped at extraction and never reach the render world.
pub fn extract_camera_outlines(cams: &Vec<(u64, CameraOutline)>) -> (out: Vec<(u64, CameraOutline)>)
    ensures
        out@ == enabled_cameras(cams@),
{
    let mut out: Vec<(u64, CameraOutline)> = Vec::new();
    let mut i: usize = 0;
    proof {
        assert(cams@.take(0).len() == 0);
    }
    while i < cams.len()
        invariant
            i <= cams@.len(),
            out@ == enabled_cameras(cams@.take(i as int)),
        decreases cams@.len() - i,
    {
        proof {
            assert(cams@.take(i + 1).drop_last() =~= cams@.take(i as int));
            assert(cams@.take(i + 1).last() == cams@[i as int]);
        }
        let cam = cams[i];
        if cam.1.enabled {
            out.push(cam);
        }
        i = i + 1;
    }
    proof {
        assert(cams@.take(cams@.len() as int) =~= cams@);
    }
    out
}

/// The outline targets among `(entity, outline, mesh)` rows whose
/// component is enabled, in input order.
pub open spec fn enabled_targets(s: Seq<(u64, Outline, u64)>) -> Seq<ExtractedOutline>
    decreases s.len(),
{
    if s.len() == 0 {
        Seq::empty()
    } else {
        let rest = enabled_targets(s.drop_last());
        if s.last().1.enabled {
            rest.push(ExtractedOutline { entity: s.last().0, mesh: s.last().2 })
        } else {
            rest
        }
    }
}

/// Extract every entity whose [`Outline`] component is enabled into an
/// [`ExtractedOutline`] for the render world.
pub fn extract_outline_targets(rows: &Vec<(u64, Outline, u64)>) -> (out: Vec<ExtractedOutline>)
    ensures
        out@ == enabled_targets(rows@),
{
    let mut out: Vec<ExtractedOutline> = Vec::new();
    let mut i: usize = 0;
    proof {
        assert(rows@.take(0).len() == 0);
    }
    while i < rows.len()
        invariant
            i <= rows@.len(),
            out@ == enabled_targets(rows@.take(i as int)),
        decreases rows@.len() - i,
    {
        proof {
            assert(rows@.take(i + 1).drop_last() =~= rows@.take(i as int));
            assert(rows@.take(i + 1).last() == rows@[i as int]);
        }
        let row = rows[i];
        if row.1.enabled {
            out.push(ExtractedOutline { entity: row.0, mesh: row.2 });
        }
        i = i + 1;
    }
    proof {
        assert(rows@.take(rows@.len() as int) =~= rows@);
    }
    out
}

/// The mesh of the first extracted target carrying `entity`, if any.
pub open spec fn find_mesh(targets: Seq<ExtractedOutline>, entity: u64) -> Option<u64>
    decreases targets.len(),
{
    if targets.len() == 0 {
        None
    } else if targets[0].entity == entity {
        Some(targets[0].mesh)
    } else {
        find_mesh(targets.drop_first(), entity)
    }
}

/// Look an entity's extracted outline up.
fn find_mesh_exec(targets: &Vec<ExtractedOutline>, entity: u64) -> (r: Option<u64>)
    ensures
        r == find_mesh(targets@, entity),
{
    let mut i: usize = 0;
    proof {
        assert(targets@.skip(0) =~= targets@);
    }
    while i < targets.len()
        invariant
            i <= targets@.len(),
            find_mesh(targets@.skip(i as int), entity) == find_mesh(targets@, entity),
        decreases targets@.len() - i,
    {
        proof {
            assert(targets@.skip(i as int).drop_first() =~= targets@.skip(i + 1));
            assert(targets@.skip(i as int)[0] == targets@[i as int]);
        }
        if targets[i].entity == entity {
            return Some(targets[i].mesh);
        }
        i = i + 1;
    }
    None
}

/// Whether the GPU copy of mesh `m` is loaded.
fn mesh_loaded(loaded: &Vec<u64>, m: u64) -> (r: bool)
    ensures
        r == loaded@.contains(m),
{
    let mut i: usize = 0;
    while i < loaded.len()
        invariant
            i <= loaded@.len(),
            forall|j: int| 0 <= j < i ==> loaded@[j] != m,
        decreases loaded@.len() - i,
    {
        if loaded[i] == m {
            return true;
        }
        i = i + 1;
    }
    false
}

/// The visible entities that get a mask phase item, in visibility order:
/// those with an extracted outline whose mesh is loaded.
pub open spec fn queue_spec(
    visible: Seq<u64>,
    targets: Seq<ExtractedOutline>,
    loaded: Seq<u64>,
) -> Seq<u64>
    decreases visible.len(),
{
    if visible.len() == 0 {
        Seq::empty()
    } else {
        let rest = queue_spec(visible.drop_last(), targets, loaded);
        let e = visible.last();
        match find_mesh(targets, e) {
            Some(m) => if loaded.contains(m) {
                rest.push(e)
            } else {
                rest
            },
            None => rest,
        }
    }
}

/// Queue the mask phase for one view: walk the view's visible entities
/// in order and keep those that are outline targets with a loaded mesh.
/// Entities without an extracted outline, or whose mesh the GPU has not
/// finished loading, are skipped silently.
pub fn queue_mesh_masks(
    visible: &Vec<u64>,
    targets: &Vec<ExtractedOutline>,
    loaded: &Vec<u64>,
) -> (queued: Vec<u64>)
    ensures
        queued@ == queue_spec(visible@, targets@, loaded@),
{
    let mut queued: Vec<u64> = Vec::new();
    let mut i: usize = 0;
    proof {
        assert(visible@.take(0).len() == 0);
    }
    while i < visible.len()
        invariant
            i <= visible@.len(),
            queued@ == queue_spec(visible@.take(i as int), targets@, loaded@),
        decreases visible@.len() - i,
    {
        proof {
            assert(visible@.take(i + 1).drop_last() =~= visible@.take(i as int));
            assert(visible@.take(i + 1).last() == visible@[i as int]);
        }
        let e = visible[i];
        match find_mesh_exec(targets, e) {
            Some(m) => {
                if mesh_loaded(loaded, m) {
                    queued.push(e);
                }
            },
            None => {},
        }
        i = i + 1;
    }
    proof {
        assert(visible@.take(visible@.len() as int) =~= visible@);
    }
    queued
}

} // verus!
