//! Outline styles and their GPU-side parameter blocks.
//!
//! An [`OutlineStyle`] is an immutable asset: an outline color, an inner
//! color and a width in pixels, all on the 8-bit unorm scale the pipeline
//! composites in.  Before the composite stage can use a style, the host
//! derives a [`GpuOutlineParams`] from it and stores it in a
//! [`PreparedStyles`] table keyed by the style's asset id.  Preparation
//! runs asynchronously — a style may lag a frame behind a change — so the
//! composite stage looks the style up and skips when it is not yet there,
//! but a prepared entry is never stale: it always equals the parameters
//! derived from the style it was prepared from.

use vstd::prelude::*;
use crate::texture::Rgba8;

verus! {

/// Visual style for an outline.
#[derive(Clone, Copy, PartialEq, Eq, Structural, Debug)]
pub struct OutlineStyle {
    /// Color of the outline ring.
    pub color: Rgba8,
    /// Color the ring tapers to at distance zero.
    pub inner_color: Rgba8,
    /// Outline width in pixels.
    pub width: u32,
}

/// The parameter block the composite stage reads: the style's values in
/// the shape the uniform buffer is packed from.
#[derive(Clone, Copy, PartialEq, Eq, Structural, Debug)]
pub struct OutlineParams {
    /// Outline color.
    pub color: Rgba8,
    /// Inner outline color.
    pub inner_color: Rgba8,
    /// Outline weight in pixels.
    pub weight: u32,
}

impl OutlineParams {
    /// Pack a style's values into a parameter block.
    pub fn new(color: Rgba8, inner_color: Rgba8, weight: u32) -> (p: OutlineParams)
        ensures
            p == (OutlineParams { color, inner_color, weight }),
    {
        OutlineParams { color, inner_color, weight }
    }
}

/// The parameters a style was derived into.
pub open spec fn params_of(style: OutlineStyle) -> OutlineParams {
    OutlineParams { color: style.color, inner_color: style.inner_color, weight: style.width }
}

/// A style's GPU-side representation: the derived parameter block.  The
/// uniform buffer and bind group packed from it belong to the host
/// renderer.
#[derive(Clone, Copy, PartialEq, Eq, Structural, Debug)]
pub struct GpuOutlineParams {
    /// The parameter values the buffer was packed from.
    pub params: OutlineParams,
}

impl OutlineStyle {
    /// The values handed to preparation when the asset changes.
    pub fn extract_asset(&self) -> (p: OutlineParams)
        ensures
            p == params_of(*self),
    {
        OutlineParams::new(self.color, self.inner_color, self.width)
    }

    /// Derive the GPU-side representation of the extracted values.  Once
    /// prepared, the representation matches its source exactly.
    pub fn prepare_asset(extracted: OutlineParams) -> (g: GpuOutlineParams)
        ensures
            g.params == extracted,
    {
        GpuOutlineParams { params: extracted }
    }
}

/// First entry of `entries` carrying `id`, scanning from the front; the
/// newest preparation is inserted at the front, so it wins.
pub open spec fn lookup_entries(entries: Seq<(u64, GpuOutlineParams)>, id: u64) -> Option<GpuOutlineParams>
    decreases entries.len(),
{
    if entries.len() == 0 {
        None
    } else if entries[0].0 == id {
        Some(entries[0].1)
    } else {
        lookup_entries(entries.drop_first(), id)
    }
}

/// The table of styles whose GPU parameters have been prepared, keyed by
/// asset id.  A style missing here is "not yet prepared" and makes the
/// composite stage skip.
pub struct PreparedStyles {
    /// Prepared entries, newest first.
    pub entries: Vec<(u64, GpuOutlineParams)>,
}

impl PreparedStyles {
    /// The prepared parameters of style `id`, if any.
    pub open spec fn lookup(self, id: u64) -> Option<GpuOutlineParams> {
        lookup_entries(self.entries@, id)
    }

    /// An empty table: nothing prepared yet.
    pub fn new() -> (s: PreparedStyles)
        ensures
            forall|id: u64| s.lookup(id) is None,
    {
        PreparedStyles { entries: Vec::new() }
    }

    /// Record the preparation of style `id`: its looked-up parameters are
    /// exactly those derived from `style`, and every other style's entry
    /// is unchanged — a prepared style is never stale.
    pub fn prepare(&mut self, id: u64, style: &OutlineStyle)
        ensures
            final(self).lookup(id) == Some(GpuOutlineParams { params: params_of(*style) }),
            forall|other: u64| other != id ==> final(self).lookup(other) == old(self).lookup(other),
    {
        let extracted = style.extract_asset();
        let prepared = OutlineStyle::prepare_asset(extracted);
        self.entries.insert(0, (id, prepared));
        proof {
            assert(self.entries@.drop_first() =~= old(self).entries@);
        }
    }

    /// Look up the prepared parameters of style `id`.
    pub fn get(&self, id: u64) -> (r: Option<&GpuOutlineParams>)
        ensures
            match r {
                Some(g) => self.lookup(id) == Some(*g),
                None => self.lookup(id) is None,
            },
    {
        let mut i: usize = 0;
        proof {
            assert(self.entries@.skip(0) =~= self.entries@);
        }
        while i < self.entries.len()
            invariant
                i <= self.entries@.len(),
                lookup_entries(self.entries@.skip(i as int), id) == self.lookup(id),
            decreases self.entries@.len() - i,
        {
            proof {
                assert(self.entries@.skip(i as int).drop_first() =~= self.entries@.skip(i + 1));
                assert(self.entries@.skip(i as int)[0] == self.entries@[i as int]);
            }
            if self.entries[i].0 == id {
                return Some(&self.entries[i].1);
            }
            i = i + 1;
        }
        proof {
            assert(self.entries@.skip(self.entries@.len() as int).len() == 0);
        }
        None
    }
}

} // verus!
