//! Screen-space outlines by the jump flooding algorithm (JFA).
//!
//! The library models the four-stage outline pipeline — mask accumulation,
//! seed initialization, iterative jump-flood propagation with ping-pong
//! buffers, and distance-based compositing — as verified functions over
//! integer pixel grids.  A host renderer supplies per-view coverage
//! fragments, an optional camera outline component and a style, and takes
//! back the composited color target; everything in between is specified and
//! proved here.

pub mod texture;
pub mod mask;
pub mod seed;
pub mod jfa;
pub mod style;
pub mod composite;
pub mod components;
pub mod extract;
pub mod pool;
pub mod graph;
pub mod driver;
pub mod convergence;
