//! Resource pool: own and lazily reallocate the pipeline's intermediate
//! textures, keyed by view resolution and target format.
//!
//! The pool is checked once per frame, before any stage runs.  When the
//! cached set still matches the view's resolution and format it is
//! returned unchanged; otherwise a new set is allocated from scratch,
//! with the mask cleared and both seed buffers all-sentinel, so nothing
//! from the previous resolution can bleed into the new frame.

use vstd::prelude::*;
use crate::texture::Dims;
use crate::seed::SeedTexel;

verus! {

/// The intermediate textures for one view: the coverage mask and the two
/// ping-pong seed buffers, all sized to `dims`.
pub struct ResourceSet {
    /// Resolution the set was allocated for.
    pub dims: Dims,
    /// Target-format code the set was allocated for.
    pub format: u32,
    /// Coverage mask texture.
    pub mask: Vec<u8>,
    /// First seed buffer of the ping-pong pair.
    pub seed_a: Vec<SeedTexel>,
    /// Second seed buffer of the ping-pong pair.
    pub seed_b: Vec<SeedTexel>,
}

impl ResourceSet {
    /// A usable set: correctly sized buffers for its resolution.
    pub open spec fn wf(self) -> bool {
        &&& self.dims.wf()
        &&& self.mask@.len() == self.dims.area()
        &&& self.seed_a@.len() == self.dims.area()
        &&& self.seed_b@.len() == self.dims.area()
    }

    /// A set fresh from allocation: sized for `dims`, mask cleared, both
    /// seed buffers sentinel-only — no residual data from any earlier
    /// resolution.
    pub open spec fn is_fresh(self, dims: Dims, format: u32) -> bool {
        &&& self.dims == dims
        &&& self.format == format
        &&& self.wf()
        &&& forall|i: int| 0 <= i < self.mask@.len() ==> #[trigger] self.mask@[i] == 0
        &&& forall|i: int| 0 <= i < self.seed_a@.len() ==> #[trigger] self.seed_a@[i]
            == SeedTexel::Sentinel
        &&& forall|i: int| 0 <= i < self.seed_b@.len() ==> #[trigger] self.seed_b@[i]
            == SeedTexel::Sentinel
    }
}

/// Allocate a fresh resource set for one view.
fn allocate_set(dims: Dims, format: u32) -> (s: ResourceSet)
    requires
        dims.wf(),
    ensures
        s.is_fresh(dims, format),
{
    let n = dims.texel_count();
    let mut mask: Vec<u8> = Vec::new();
    let mut i: usize = 0;
    while i < n
        invariant
            i <= n,
            mask@.len() == i,
            forall|p: int| 0 <= p < i ==> #[trigger] mask@[p] == 0,
        decreases n - i,
    {
        mask.push(0);
        i = i + 1;
    }
    let mut seed_a: Vec<SeedTexel> = Vec::new();
    let mut j: usize = 0;
    while j < n
        invariant
            j <= n,
            seed_a@.len() == j,
            forall|p: int| 0 <= p < j ==> #[trigger] seed_a@[p] == SeedTexel::Sentinel,
        decreases n - j,
    {
        seed_a.push(SeedTexel::Sentinel);
        j = j + 1;
    }
    let mut seed_b: Vec<SeedTexel> = Vec::new();
    let mut l: usize = 0;
    while l < n
        invariant
            l <= n,
            seed_b@.len() == l,
            forall|p: int| 0 <= p < l ==> #[trigger] seed_b@[p] == SeedTexel::Sentinel,
        decreases n - l,
    {
        seed_b.push(SeedTexel::Sentinel);
        l = l + 1;
    }
    ResourceSet { dims, format, mask, seed_a, seed_b }
}

/// The per-frame owner of the intermediate textures.  Stages never
/// reallocate; only [`ResourcePool::ensure`], which runs once per frame
/// before the pipeline, may replace the cached set.
pub struct ResourcePool {
    /// The cached resource set, if any frame has run yet.
    pub cached: Option<ResourceSet>,
}

impl ResourcePool {
    /// Whether the cached set already serves this resolution and format.
    pub open spec fn matches(self, dims: Dims, format: u32) -> bool {
        match self.cached {
            Some(c) => c.dims == dims && c.format == format && c.wf(),
            None => false,
        }
    }

    /// A pool that has allocated nothing yet.
    pub fn new() -> (p: ResourcePool)
        ensures
            p.cached is None,
    {
        ResourcePool { cached: None }
    }

    /// Recreate-if-stale: after the call the pool holds a usable set for
    /// `dims` and `format`.  A matching cached set is kept unchanged —
    /// ensure is idempotent under a stable view — while a stale or
    /// missing one is replaced by a freshly allocated set carrying no
    /// residual data.
    pub fn ensure(&mut self, dims: Dims, format: u32)
        requires
            dims.wf(),
        ensures
            final(self).matches(dims, format),
            old(self).matches(dims, format) ==> *final(self) == *old(self),
            !old(self).matches(dims, format) ==> (final(self).cached matches Some(s)
                && s.is_fresh(dims, format)),
    {
        let stale = match &self.cached {
            Some(c) => {
                !(c.dims.width == dims.width && c.dims.height == dims.height && c.format == format
                    && c.mask.len() == c.dims.texel_count()
                    && c.seed_a.len() == c.dims.texel_count()
                    && c.seed_b.len() == c.dims.texel_count())
            },
            None => true,
        };
        if stale {
            self.cached = Some(allocate_set(dims, format));
        }
    }

    /// Borrow the cached set.
    pub fn get(&self) -> (r: &ResourceSet)
        requires
            self.cached is Some,
        ensures
            *r == self.cached.unwrap(),
    {
        match &self.cached {
            Some(c) => c,
            None => unreached(),
        }
    }
}

} // verus!
