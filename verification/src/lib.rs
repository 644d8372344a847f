//! A progressive ray-tracing render pipeline: a block scheduler with a
//! center-out spiral ordering, a fixed-point path tracer, an ordered frame
//! assembler, and a per-consumer progressive-delivery state machine.

pub mod assemble;
pub mod camera;
pub mod controller;
pub mod delivery;
pub mod encode;
pub mod material;
pub mod object;
pub mod render;
pub mod rng;
pub mod scene;
pub mod sizing;
pub mod spiral;
pub mod shared;

use vstd::prelude::*;

verus! {

} // verus!
