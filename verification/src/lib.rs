//! Runtime core of a chunked world simulation: axis-separated sliding
//! collision for mobile entities, and a streamed terrain of fixed-size
//! chunks generated deterministically from a sampled noise field.
//!
//! World positions, sizes and speeds are fixed-point integers: one world
//! unit is `SCALE` ticks of an `i64`. Chunk coordinates are plain `i32`
//! pairs.
use vstd::prelude::*;

pub mod chunk;
pub mod collider;
pub mod field;
pub mod intmath;
pub mod player;
pub mod store;
pub mod streamer;
pub mod unit;
pub mod vec2;

verus! {

/// Fixed-point ticks per world unit.
pub const SCALE: i64 = 1000;

} // verus!
