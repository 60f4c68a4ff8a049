//! Simulation core of a turn-based dungeon crawler: the tile-grid map model,
//! procedural level builders, the per-turn simulation passes, and the
//! run-state scheduler that threads them through a shared world.

use vstd::prelude::*;

pub mod bsp_map;
pub mod components;
pub mod connectivity;
pub mod gamelog;
pub mod map;
pub mod map_builders;
pub mod player;
pub mod rect;
pub mod rng;
pub mod simple_map;
pub mod spawner;
pub mod state;
pub mod systems;
pub mod world;

verus! {

/// Whether the builders record intermediate snapshots for an animated replay
/// of the generation process.
pub const SHOW_MAPGEN_VISUALIZER: bool = true;

} // verus!
