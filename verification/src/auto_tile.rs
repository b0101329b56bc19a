//! Applying the auto-tile rule to cells of the grid: computing the
//! neighbor-emptiness mask of a cell and re-deriving its terrain tile.

use vstd::prelude::*;

use crate::grid_index::cell_index;
use crate::tile_map::TileMap;
use crate::tiles;

verus! {

/// The terrain-layer tile of `(x, y)` in a flat tile buffer of width `w`.
pub open spec fn spec_tile0(t: Seq<u32>, w: int, x: int, y: int) -> u32 {
    t[cell_index(w, x, y, 0)]
}

/// The emptiness of the four orthogonal neighbors of `(x, y)`, as
/// `(left, right, up, down)`. A neighbor beyond the grid edge is clamped to
/// the nearest valid cell, so an edge cell is never treated as exposed
/// merely for lying on the edge.
pub open spec fn spec_neighbors_empty(t: Seq<u32>, w: int, h: int, x: int, y: int) -> (
    bool,
    bool,
    bool,
    bool,
) {
    (
        spec_tile0(t, w, if x == 0 { 0int } else { x - 1 }, y) == 0,
        spec_tile0(t, w, if x + 1 < w { x + 1 } else { w - 1 }, y) == 0,
        spec_tile0(t, w, x, if y == 0 { 0int } else { y - 1 }) == 0,
        spec_tile0(t, w, x, if y + 1 < h { y + 1 } else { h - 1 }) == 0,
    )
}

/// What re-deriving the terrain tile of `(x, y)` writes there: if the tile
/// found on `layer` belongs to an auto-tiling family, the family's table
/// entry for the cell's neighbor mask; otherwise the terrain tile unchanged.
pub open spec fn spec_retile(t: Seq<u32>, w: int, h: int, x: int, y: int, layer: int) -> u32 {
    let cur = t[cell_index(w, x, y, layer)];
    match tiles::spec_autotile_family(cur) {
        Some(family) => {
            let (l, r, u, d) = spec_neighbors_empty(t, w, h, x, y);
            tiles::spec_auto_tile_id(family, l, r, u, d)
        },
        None => t[cell_index(w, x, y, 0)],
    }
}

impl TileMap {
    /// Whether the clamped orthogonal neighbors of `(x, y)` are empty, as
    /// `(left, right, up, down)`.
    pub fn neighbors_empty(&self, x: usize, y: usize) -> (r: (bool, bool, bool, bool))
        requires
            self.wf(),
            x < self.width,
            y < self.height,
        ensures
            r == spec_neighbors_empty(
                self.tiles@,
                self.width as int,
                self.height as int,
                x as int,
                y as int,
            ),
    {
        let lx = if x == 0 { 0 } else { x - 1 };
        let rx = if x + 1 < self.width { x + 1 } else { self.width - 1 };
        let uy = if y == 0 { 0 } else { y - 1 };
        let dy = if y + 1 < self.height { y + 1 } else { self.height - 1 };
        let il = self.cell_index_of(lx, y, 0);
        let ir = self.cell_index_of(rx, y, 0);
        let iu = self.cell_index_of(x, uy, 0);
        let id = self.cell_index_of(x, dy, 0);
        (
            self.tiles[il] == 0,
            self.tiles[ir] == 0,
            self.tiles[iu] == 0,
            self.tiles[id] == 0,
        )
    }

    /// Re-derives the terrain tile of `(x, y)` from its neighbor mask, if the
    /// tile found on `layer` takes part in auto-tiling; otherwise leaves the
    /// grid as it is.
    pub fn retile_cell(&mut self, x: usize, y: usize, layer: usize)
        requires
            old(self).wf(),
            x < old(self).width,
            y < old(self).height,
            layer < 3,
        ensures
            final(self).wf(),
            *final(self) == (TileMap { tiles: final(self).tiles, ..*old(self) }),
            final(self).tiles@ == old(self).tiles@.update(
                cell_index(old(self).width as int, x as int, y as int, 0),
                spec_retile(
                    old(self).tiles@,
                    old(self).width as int,
                    old(self).height as int,
                    x as int,
                    y as int,
                    layer as int,
                ),
            ),
    {
        let i = self.cell_index_of(x, y, layer);
        let cur = self.tiles[i];
        let new_tile: u32;
        match tiles::autotile_family(cur) {
            Some(family) => {
                let (l, r, u, d) = self.neighbors_empty(x, y);
                new_tile = tiles::auto_tile_id(family, l, r, u, d);
            },
            None => {
                let i0 = self.cell_index_of(x, y, 0);
                new_tile = self.tiles[i0];
            },
        }
        self.set_tile(x, y, 0, new_tile);
    }
}

} // verus!
