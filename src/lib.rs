//! Tile-grid collision and physics core of a 2D side-view platformer.
//!
//! World coordinates are fixed-point integers: one world unit is [`UNIT`]
//! sub-units, and elapsed time is measured in microseconds.
use vstd::prelude::*;

pub mod collider;
pub mod player;
pub mod tile_id;
pub mod tiles;
pub mod tileset;

verus! {

/// Number of sub-units in one world unit.
pub const UNIT: i64 = 1_000_000;

/// `v` fits in an `i64`.
pub open spec fn fits_i64(v: int) -> bool {
    i64::MIN <= v <= i64::MAX
}

} // verus!
