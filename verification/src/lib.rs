//! A verified 2D tile-world simulation core: an authoritative tile grid with
//! per-cell lighting, rule-based auto-tiling, noise-driven world generation,
//! camera-windowed render-slice extraction, and whole-structure persistence.

use vstd::prelude::*;

pub mod auto_tile;
pub mod codec;
pub mod collision;
pub mod errors;
pub mod font;
pub mod inventory;
pub mod player;
pub mod textures;
pub mod grid_index;
pub mod mini_map;
pub mod registry;
pub mod render;
pub mod input;
pub mod lighting;
pub mod tile_edit;
pub mod tile_map;
pub mod tiles;
pub mod world_gen;

verus! {

/// Number of tile layers in every cell: terrain, decoration, reserved.
pub const LAYER_COUNT: usize = 3;

/// Identifier of the empty tile on any layer.
pub const EMPTY_TILE: u32 = 0;

} // verus!
