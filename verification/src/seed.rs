//! Seed-init stage: turn the coverage mask into the initial seed field.
//!
//! A seed texel either holds the pixel coordinate of a (tentatively)
//! nearest covered pixel, or the sentinel "no seed found yet".  On the
//! GPU a texel is stored as two 16-bit signed-normalized channels holding
//! a coordinate in `[-1, 1]`; the sentinel is both channels at the
//! representable extreme negative value, which no valid coordinate ever
//! encodes to.  [`encode_snorm`] is that bit-level encoding.

use vstd::prelude::*;
use crate::texture::{Dims, lemma_index_in_area, lemma_index_decompose};

verus! {

/// One texel of a seed texture: the coordinate of the nearest known
/// covered pixel, or the sentinel when none has been found.
#[derive(Clone, Copy, PartialEq, Eq, Structural, Debug)]
pub enum SeedTexel {
    /// No seed known for this pixel.
    Sentinel,
    /// The nearest known covered pixel sits at `(x, y)`.
    Found { x: usize, y: usize },
}

/// A seed texel is well formed when any coordinate it holds lies inside
/// the seed texture.
pub open spec fn texel_wf(t: SeedTexel, dims: Dims) -> bool {
    match t {
        SeedTexel::Sentinel => true,
        SeedTexel::Found { x, y } => dims.contains(x as int, y as int),
    }
}

/// A whole seed texture is well formed: one texel per pixel, each with an
/// in-bounds coordinate.
pub open spec fn seeds_wf(g: Seq<SeedTexel>, dims: Dims) -> bool {
    &&& g.len() == dims.area()
    &&& forall|i: int| 0 <= i < g.len() ==> texel_wf(#[trigger] g[i], dims)
}

/// The initial seed field: every covered pixel seeds itself, every other
/// pixel starts with the sentinel.
pub open spec fn seed_init_spec(mask: Seq<u8>, dims: Dims) -> Seq<SeedTexel> {
    Seq::new(
        dims.area() as nat,
        |i: int| if mask[i] > 0 {
            SeedTexel::Found { x: dims.x_of(i) as usize, y: dims.y_of(i) as usize }
        } else {
            SeedTexel::Sentinel
        },
    )
}

/// Full-screen seed-init pass: reads the mask, writes one texel per pixel,
/// no blending.
pub fn seed_init(mask: &Vec<u8>, dims: Dims) -> (seeds: Vec<SeedTexel>)
    requires
        dims.wf(),
        mask@.len() == dims.area(),
    ensures
        seeds@ == seed_init_spec(mask@, dims),
        seeds_wf(seeds@, dims),
{
    let mut seeds: Vec<SeedTexel> = Vec::new();
    let mut y: usize = 0;
    while y < dims.height
        invariant
            y <= dims.height,
            dims.wf(),
            mask@.len() == dims.area(),
            seeds@.len() == y * dims.width,
            forall|i: int| 0 <= i < seeds@.len() ==>
                seeds@[i] == seed_init_spec(mask@, dims)[i],
        decreases dims.height - y,
    {
        let mut x: usize = 0;
        proof {
            lemma_index_in_area(dims, 0, y as int);
        }
        while x < dims.width
            invariant
                x <= dims.width,
                y < dims.height,
                dims.wf(),
                mask@.len() == dims.area(),
                seeds@.len() == y * dims.width + x,
                forall|i: int| 0 <= i < seeds@.len() ==>
                    seeds@[i] == seed_init_spec(mask@, dims)[i],
            decreases dims.width - x,
        {
            proof {
                lemma_index_in_area(dims, x as int, y as int);
                lemma_index_decompose(dims, x as int, y as int);
            }
            let idx = dims.linear_index(x, y);
            if mask[idx] > 0 {
                seeds.push(SeedTexel::Found { x, y });
            } else {
                seeds.push(SeedTexel::Sentinel);
            }
            x = x + 1;
        }
        y = y + 1;
        proof {
            assert((y - 1) * dims.width + dims.width == y * dims.width) by (nonlinear_arith);
        }
    }
    proof {
        assert(seeds@.len() == dims.height * dims.width);
        assert(dims.height * dims.width == dims.area()) by (nonlinear_arith);
        assert(seeds@ =~= seed_init_spec(mask@, dims));
        assert forall|i: int| 0 <= i < seeds@.len() implies texel_wf(#[trigger] seeds@[i], dims) by {
            crate::texture::lemma_linear_decompose(dims, i);
        }
    }
    seeds
}

/// Signed-normalized 16-bit encoding of pixel-center coordinate `c` on an
/// axis of `n` pixels: the floor of `32767 * ((2c + 1)/n - 1)`.  The result
/// always lies in the valid snorm range `-32767 ..= 32767`, so it never
/// collides with the sentinel channel value `-32768`.
pub open spec fn snorm_channel(c: int, n: int) -> int {
    if 2 * c + 1 >= n {
        (32767 * (2 * c + 1 - n)) / n
    } else {
        -((32767 * (n - 2 * c - 1) + n - 1) / n)
    }
}

/// Channel pair a seed texel is stored as: a valid coordinate encoding, or
/// the out-of-range sentinel pair.
pub open spec fn encode_spec(t: SeedTexel, dims: Dims) -> (int, int) {
    match t {
        SeedTexel::Sentinel => (-32768, -32768),
        SeedTexel::Found { x, y } => (
            snorm_channel(x as int, dims.width as int),
            snorm_channel(y as int, dims.height as int),
        ),
    }
}

/// A valid coordinate encodes into the valid snorm range.
pub proof fn lemma_snorm_in_range(c: int, n: int)
    requires
        0 <= c < n,
    ensures
        -32767 <= snorm_channel(c, n) <= 32767,
{
    if 2 * c + 1 >= n {
        let v = 2 * c + 1 - n;
        assert(32767 * v >= 0) by (nonlinear_arith)
            requires
                v >= 0,
        ;
        assert(32767 * v <= 32767 * n) by (nonlinear_arith)
            requires
                v <= n,
        ;
        assert((32767 * v) / n <= (32767 * n) / n) by {
            vstd::arithmetic::div_mod::lemma_div_is_ordered(32767 * v, 32767 * n, n);
        }
        assert((32767 * n) / n == 32767) by (nonlinear_arith)
            requires
                n >= 1,
        ;
        vstd::arithmetic::div_mod::lemma_div_pos_is_pos(32767 * v, n);
    } else {
        let m = n - 2 * c - 1;
        let q = (32767 * m + n - 1) / n;
        assert(32767 * m >= 0) by (nonlinear_arith)
            requires
                m >= 0,
        ;
        vstd::arithmetic::div_mod::lemma_div_pos_is_pos(32767 * m + n - 1, n);
        assert(32767 * m + n - 1 <= 32767 * n + n - 1) by (nonlinear_arith)
            requires
                m <= n,
        ;
        assert(q <= (32767 * n + n - 1) / n) by {
            vstd::arithmetic::div_mod::lemma_div_is_ordered(32767 * m + n - 1, 32767 * n + n - 1, n);
        }
        assert((32767 * n + n - 1) / n == 32767 + (n - 1) / n) by (nonlinear_arith)
            requires
                n >= 1,
        ;
        assert((n - 1) / n == 0) by {
            vstd::arithmetic::div_mod::lemma_basic_div(n - 1, n);
        }
    }
}

/// The snorm channel pair of a seed texel.  The sentinel is the only texel
/// that encodes outside the valid `[-32767, 32767]` range.
pub fn encode_snorm(t: &SeedTexel, dims: Dims) -> (r: (i16, i16))
    requires
        dims.wf(),
        texel_wf(*t, dims),
    ensures
        (r.0 as int, r.1 as int) == encode_spec(*t, dims),
        t is Found ==> -32767 <= r.0 && -32767 <= r.1,
        t is Sentinel ==> r.0 == -32768 && r.1 == -32768,
{
    match t {
        SeedTexel::Sentinel => (-32768, -32768),
        SeedTexel::Found { x, y } => {
            let cx = snorm_exec(*x, dims.width);
            let cy = snorm_exec(*y, dims.height);
            (cx, cy)
        },
    }
}

/// One snorm channel, computed with unsigned division on the magnitude so
/// that both branches round toward negative infinity.
fn snorm_exec(c: usize, n: usize) -> (r: i16)
    requires
        1 <= n,
        c < n,
    ensures
        r as int == snorm_channel(c as int, n as int),
        -32767 <= r <= 32767,
{
    proof {
        lemma_snorm_in_range(c as int, n as int);
    }
    let c2 = c as u128 * 2 + 1;
    if c2 >= n as u128 {
        let v = c2 - n as u128;
        let q = (32767u128 * v) / (n as u128);
        q as i16
    } else {
        let m = n as u128 - c2;
        let q = (32767u128 * m + n as u128 - 1) / (n as u128);
        let neg = -(q as i64);
        neg as i16
    }
}

} // verus!
