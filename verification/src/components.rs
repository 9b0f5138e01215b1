//! Per-entity and per-view components the host extracts for the
//! pipeline, and the global settings resource.

use vstd::prelude::*;

verus! {

/// Performance and visual quality settings for JFA-based outlines.
#[derive(Clone, Copy, PartialEq, Eq, Structural, Debug)]
pub struct OutlineSettings {
    pub half_resolution: bool,
}

impl OutlineSettings {
    /// Returns whether the half-resolution setting is enabled.
    pub fn half_resolution(&self) -> (r: bool)
        ensures
            r == self.half_resolution,
    {
        self.half_resolution
    }

    /// Sets whether the half-resolution setting is enabled.
    pub fn set_half_resolution(&mut self, value: bool)
        ensures
            final(self).half_resolution == value,
    {
        self.half_resolution = value;
    }
}

impl Default for OutlineSettings {
    /// Outlines render at full resolution unless configured otherwise.
    fn default() -> (s: Self)
        ensures
            s.half_resolution == false,
    {
        OutlineSettings { half_resolution: false }
    }
}

/// Component for entities that should be outlined.
#[derive(Clone, Copy, PartialEq, Eq, Structural, Debug)]
pub struct Outline {
    pub enabled: bool,
}

/// Component for enabling outlines when rendering with a given camera.
/// `style` is the asset id of the [`crate::style::OutlineStyle`] to use;
/// outline styling is tied to the camera rather than the mesh.
#[derive(Clone, Copy, PartialEq, Eq, Structural, Debug)]
pub struct CameraOutline {
    pub enabled: bool,
    pub style: u64,
}

/// An outline target after extraction: the entity and the mesh it draws
/// with.  The world transform extracted alongside stays with the host,
/// which hands it to the mask rasterizer.
#[derive(Clone, Copy, PartialEq, Eq, Structural, Debug)]
pub struct ExtractedOutline {
    pub entity: u64,
    pub mesh: u64,
}

} // verus!
