//! The single tile-mutation entry point: writing a tile, the light
//! bookkeeping and relaxation that follow, the sky-light update of the edited
//! column, and the auto-tile pass over the four orthogonal neighbors.

use vstd::prelude::*;

use crate::auto_tile::{spec_retile, spec_tile0};
use crate::errors::TileMapError;
use crate::grid_index::{
    cell_index, chan_of, col_of, lemma_cell_index_bounds, lemma_cell_index_decomp,
    lemma_cell_index_inj, lemma_cell_index_recomp, row_of,
};
use crate::lighting::{in_region, spec_relax_iter, LightRegion, RELAX_PASSES};
use crate::tile_map::TileMap;
use crate::tiles;

verus! {

/// Radius of the window whose light is rebuilt when a light source is
/// removed.
pub const LIGHT_RESET_RADIUS: usize = 16;

/// How much the relaxation window widens beyond the reset window after a
/// light source was removed.
pub const LIGHT_EDIT_WIDENING: usize = 8;

/// The window of cells within `radius` of `(cx, cy)`, clamped to a `w` by
/// `h` grid.
pub open spec fn spec_clamped_region(cx: int, cy: int, radius: int, w: int, h: int) -> LightRegion {
    LightRegion {
        x0: (if cx - radius > 0 { cx - radius } else { 0int }) as usize,
        x1: (if cx + radius < w { cx + radius } else { w }) as usize,
        y0: (if cy - radius > 0 { cy - radius } else { 0int }) as usize,
        y1: (if cy + radius < h { cy + radius } else { h }) as usize,
    }
}

/// The first row of column `x` at or below `y` whose terrain tile is solid,
/// or the grid height when the rest of the column holds none.
pub open spec fn spec_first_solid_row(t: Seq<u32>, w: int, h: int, x: int, y: int) -> int
    decreases h - y,
{
    if y < 0 || y >= h {
        h
    } else if tiles::spec_is_solid(spec_tile0(t, w, x, y)) {
        y
    } else {
        spec_first_solid_row(t, w, h, x, y + 1)
    }
}

pub proof fn lemma_first_solid_row_bounds(t: Seq<u32>, w: int, h: int, x: int, y: int)
    requires
        0 <= h,
    ensures
        spec_first_solid_row(t, w, h, x, y) <= h,
    decreases h - y,
{
    if 0 <= y < h && !tiles::spec_is_solid(spec_tile0(t, w, x, y)) {
        lemma_first_solid_row_bounds(t, w, h, x, y + 1);
    }
}

/// What the sky-light height of the edited column becomes: a solid tile at
/// or above the recorded height lowers it to the edit row; a non-solid tile
/// forces a full-column rescan; a solid tile below the height leaves it.
pub open spec fn spec_sky_after_edit(m: TileMap, t1: Seq<u32>, cx: int, cy: int, id: u32) -> u32 {
    if tiles::spec_is_solid(id) && cy <= m.sky_light@[cx] {
        cy as u32
    } else if !tiles::spec_is_solid(id) {
        spec_first_solid_row(t1, m.width as int, m.height as int, cx, 0) as u32
    } else {
        m.sky_light@[cx]
    }
}

/// Rebuilt light contents of a window after a light source was removed:
/// cells of the window take their tile's emission color, or darkness when
/// their tile emits none; cells outside keep their value.
pub open spec fn spec_reset_lights(t1: Seq<u32>, l: Seq<u8>, w: int, reg: LightRegion) -> Seq<u8> {
    Seq::new(
        l.len(),
        |i: int|
            if in_region(reg, col_of(w, i), row_of(w, i)) {
                match tiles::spec_light_color(spec_tile0(t1, w, col_of(w, i), row_of(w, i))) {
                    Some(color) => color@[chan_of(i)],
                    None => 0u8,
                }
            } else {
                l[i]
            },
    )
}

/// A light cell overwritten with a source color.
pub open spec fn spec_seed_light(l: Seq<u8>, w: int, x: int, y: int, color: [u8; 3]) -> Seq<u8> {
    l.update(cell_index(w, x, y, 0), color@[0]).update(cell_index(w, x, y, 1), color@[1]).update(
        cell_index(w, x, y, 2),
        color@[2],
    )
}

/// The whole light grid after an edit of `(cx, cy)` on `layer` wrote `id`:
/// seeding or resetting as the old and new terrain tiles demand, then the
/// fixed number of relaxation passes over the affected window.
pub open spec fn spec_lights_after_edit(m: TileMap, cx: int, cy: int, layer: int, id: u32) -> Seq<
    u8,
> {
    let w = m.width as int;
    let h = m.height as int;
    let t1 = m.tiles@.update(cell_index(w, cx, cy, layer), id);
    let center = t1[cell_index(w, cx, cy, 0)];
    let was = m.tiles@[cell_index(w, cx, cy, 0)];
    match tiles::spec_light_color(center) {
        Some(color) => spec_relax_iter(
            spec_seed_light(m.lighting@, w, cx, cy, color),
            w,
            h,
            spec_clamped_region(cx, cy, LIGHT_RESET_RADIUS as int, w, h),
            RELAX_PASSES as nat,
        ),
        None => if tiles::spec_emits_light(was) {
            spec_relax_iter(
                spec_reset_lights(
                    t1,
                    m.lighting@,
                    w,
                    spec_clamped_region(cx, cy, LIGHT_RESET_RADIUS as int, w, h),
                ),
                w,
                h,
                spec_clamped_region(
                    cx,
                    cy,
                    (LIGHT_RESET_RADIUS + LIGHT_EDIT_WIDENING) as int,
                    w,
                    h,
                ),
                RELAX_PASSES as nat,
            )
        } else {
            m.lighting@
        },
    }
}

/// Whether `(x, y)` is one of the four orthogonal neighbors of `(cx, cy)`.
pub open spec fn spec_is_edit_neighbor(cx: int, cy: int, x: int, y: int) -> bool {
    (y == cy && (x == cx - 1 || x == cx + 1)) || (x == cx && (y == cy - 1 || y == cy + 1))
}

/// The whole tile buffer after an edit: the edited layer cell takes `id`,
/// and the terrain tile of each in-grid orthogonal neighbor is re-derived
/// from the written grid by the auto-tile rule.
pub open spec fn spec_tiles_after_edit(m: TileMap, cx: int, cy: int, layer: int, id: u32) -> Seq<
    u32,
> {
    let w = m.width as int;
    let h = m.height as int;
    let t1 = m.tiles@.update(cell_index(w, cx, cy, layer), id);
    Seq::new(
        t1.len(),
        |i: int|
            if chan_of(i) == 0 && spec_is_edit_neighbor(cx, cy, col_of(w, i), row_of(w, i)) {
                spec_retile(t1, w, h, col_of(w, i), row_of(w, i), layer)
            } else {
                t1[i]
            },
    )
}

/// A terrain-layer write to a cell that is neither the retiled cell itself
/// nor one of its clamped mask cells leaves the retiling outcome unchanged.
proof fn lemma_retile_unaffected(
    t1: Seq<u32>,
    w: int,
    h: int,
    x: int,
    y: int,
    layer: int,
    ax: int,
    ay: int,
    v: u32,
)
    requires
        t1.len() == 3 * (w * h),
        0 <= x < w,
        0 <= y < h,
        0 <= layer < 3,
        0 <= ax < w,
        0 <= ay < h,
        (ax, ay) != (x, y),
        (ax, ay) != ((if x == 0 { 0int } else { x - 1 }), y),
        (ax, ay) != ((if x + 1 < w { x + 1 } else { w - 1 }), y),
        (ax, ay) != (x, (if y == 0 { 0int } else { y - 1 })),
        (ax, ay) != (x, (if y + 1 < h { y + 1 } else { h - 1 })),
    ensures
        spec_retile(t1.update(cell_index(w, ax, ay, 0), v), w, h, x, y, layer) == spec_retile(
            t1,
            w,
            h,
            x,
            y,
            layer,
        ),
{
    let t2 = t1.update(cell_index(w, ax, ay, 0), v);
    lemma_cell_index_bounds(w, h, ax, ay, 0);
    lemma_cell_index_bounds(w, h, x, y, layer);
    lemma_cell_index_bounds(w, h, x, y, 0);
    lemma_cell_index_inj(w, h, x, y, layer, ax, ay, 0);
    lemma_cell_index_inj(w, h, x, y, 0, ax, ay, 0);
    let lx = if x == 0 { 0int } else { x - 1 };
    let rx = if x + 1 < w { x + 1 } else { w - 1 };
    let uy = if y == 0 { 0int } else { y - 1 };
    let dy = if y + 1 < h { y + 1 } else { h - 1 };
    lemma_cell_index_bounds(w, h, lx, y, 0);
    lemma_cell_index_bounds(w, h, rx, y, 0);
    lemma_cell_index_bounds(w, h, x, uy, 0);
    lemma_cell_index_bounds(w, h, x, dy, 0);
    lemma_cell_index_inj(w, h, lx, y, 0, ax, ay, 0);
    lemma_cell_index_inj(w, h, rx, y, 0, ax, ay, 0);
    lemma_cell_index_inj(w, h, x, uy, 0, ax, ay, 0);
    lemma_cell_index_inj(w, h, x, dy, 0, ax, ay, 0);
    assert(t2[cell_index(w, x, y, layer)] == t1[cell_index(w, x, y, layer)]);
    assert(t2[cell_index(w, x, y, 0)] == t1[cell_index(w, x, y, 0)]);
    assert(t2[cell_index(w, lx, y, 0)] == t1[cell_index(w, lx, y, 0)]);
    assert(t2[cell_index(w, rx, y, 0)] == t1[cell_index(w, rx, y, 0)]);
    assert(t2[cell_index(w, x, uy, 0)] == t1[cell_index(w, x, uy, 0)]);
    assert(t2[cell_index(w, x, dy, 0)] == t1[cell_index(w, x, dy, 0)]);
}

impl TileMap {
    /// Scans column `x` for its topmost solid terrain tile.
    fn first_solid_row(&self, x: usize) -> (r: usize)
        requires
            self.wf(),
            x < self.width,
        ensures
            r == spec_first_solid_row(
                self.tiles@,
                self.width as int,
                self.height as int,
                x as int,
                0,
            ),
            r <= self.height,
    {
        let ghost w = self.width as int;
        let ghost h = self.height as int;
        let mut y: usize = 0;
        while y < self.height
            invariant
                self.wf(),
                x < self.width,
                w == self.width as int,
                h == self.height as int,
                y <= self.height,
                spec_first_solid_row(self.tiles@, w, h, x as int, 0) == spec_first_solid_row(
                    self.tiles@,
                    w,
                    h,
                    x as int,
                    y as int,
                ),
            decreases self.height - y,
        {
            let i = self.cell_index_of(x, y, 0);
            if tiles::is_solid(self.tiles[i]) {
                return y;
            }
            y += 1;
        }
        self.height
    }

    /// Rebuilds the light of every cell of `reg` from the terrain tiles: a
    /// light-emitting tile re-seeds its color, every other cell goes dark.
    fn reset_light_window(&mut self, reg: LightRegion)
        requires
            old(self).wf(),
            reg.x1 <= old(self).width,
            reg.y1 <= old(self).height,
        ensures
            final(self).wf(),
            *final(self) == (TileMap { lighting: final(self).lighting, ..*old(self) }),
            final(self).lighting@ == spec_reset_lights(
                old(self).tiles@,
                old(self).lighting@,
                old(self).width as int,
                reg,
            ),
    {
        let ghost w = self.width as int;
        let ghost h = self.height as int;
        let ghost target = spec_reset_lights(old(self).tiles@, old(self).lighting@, w, reg);
        let len = self.lighting.len();
        let mut next: Vec<u8> = Vec::new();
        let mut i: usize = 0;
        let mut x: usize = 0;
        let mut y: usize = 0;
        let mut c: usize = 0;
        while i < len
            invariant
                self.wf(),
                *self == *old(self),
                w == self.width as int,
                h == self.height as int,
                reg.x1 <= self.width,
                reg.y1 <= self.height,
                target == spec_reset_lights(self.tiles@, self.lighting@, w, reg),
                target.len() == len,
                len == self.lighting@.len(),
                i <= len,
                c < 3,
                x < self.width,
                y <= self.height,
                i == cell_index(w, x as int, y as int, c as int),
                y < self.height || i == len,
                next@.len() == i,
                forall|j: int| 0 <= j < i ==> next@[j] == target[j],
            decreases len - i,
        {
            proof {
                lemma_cell_index_bounds(w, h, x as int, y as int, c as int);
                lemma_cell_index_decomp(w, h, x as int, y as int, c as int);
            }
            let value: u8;
            if reg.x0 <= x && x < reg.x1 && reg.y0 <= y && y < reg.y1 {
                let i0 = self.cell_index_of(x, y, 0);
                match tiles::light_color(self.tiles[i0]) {
                    Some(color) => {
                        value = color[c];
                    },
                    None => {
                        value = 0;
                    },
                }
            } else {
                let ii = self.cell_index_of(x, y, c);
                value = self.lighting[ii];
            }
            next.push(value);
            i += 1;
            c += 1;
            if c == 3 {
                c = 0;
                x += 1;
                if x == self.width {
                    x = 0;
                    y += 1;
                    proof {
                        assert((y as int) * w == (y - 1) * w + w) by (nonlinear_arith);
                    }
                }
            }
            proof {
                if y < self.height {
                    lemma_cell_index_bounds(w, h, x as int, y as int, c as int);
                } else {
                    assert(h * w == w * h) by (nonlinear_arith);
                }
            }
        }
        self.lighting = next;
        proof {
            assert(self.lighting@ =~= target);
        }
    }

    /// The clamped window of cells within `radius` of `(cx, cy)`.
    fn clamped_region(&self, cx: usize, cy: usize, radius: usize) -> (r: LightRegion)
        requires
            self.wf(),
            cx < self.width,
            cy < self.height,
            radius <= 32,
        ensures
            r == spec_clamped_region(
                cx as int,
                cy as int,
                radius as int,
                self.width as int,
                self.height as int,
            ),
            r.x1 <= self.width,
            r.y1 <= self.height,
    {
        proof {
            assert(self.width <= usize::MAX / 3 && self.height <= usize::MAX / 3)
                by (nonlinear_arith)
                requires
                    3 * ((self.width as int) * (self.height as int)) <= usize::MAX,
                    1 <= self.width,
                    1 <= self.height,
            ;
        }
        let x0 = if cx > radius { cx - radius } else { 0 };
        let x1 = if cx + radius < self.width { cx + radius } else { self.width };
        let y0 = if cy > radius { cy - radius } else { 0 };
        let y1 = if cy + radius < self.height { cy + radius } else { self.height };
        LightRegion { x0, x1, y0, y1 }
    }

    /// The single mutation entry point. Writes `new_tile` to `(tile_x,
    /// tile_y)` on `layer`, then in order: seeds the cell's light if the new
    /// terrain tile emits, or rebuilds and widens the surrounding light
    /// window if a light source was just removed; updates the column's
    /// sky-light height; runs the relaxation passes when light changed; and
    /// re-derives the auto-tile of the four orthogonal neighbors.
    pub fn change_tile(&mut self, tile_x: usize, tile_y: usize, layer: usize, new_tile: u32) -> (r:
        Result<(), TileMapError>)
        requires
            old(self).wf(),
            tile_x < old(self).width,
            tile_y < old(self).height,
            layer < 3,
        ensures
            r is Ok,
            final(self).wf(),
            final(self).width == old(self).width,
            final(self).height == old(self).height,
            final(self).entity_lights@ == old(self).entity_lights@,
            final(self).mini_map == old(self).mini_map,
            final(self).tiles@ == spec_tiles_after_edit(
                *old(self),
                tile_x as int,
                tile_y as int,
                layer as int,
                new_tile,
            ),
            final(self).lighting@ == spec_lights_after_edit(
                *old(self),
                tile_x as int,
                tile_y as int,
                layer as int,
                new_tile,
            ),
            final(self).sky_light@ == old(self).sky_light@.update(
                tile_x as int,
                spec_sky_after_edit(
                    *old(self),
                    old(self).tiles@.update(
                        cell_index(old(self).width as int, tile_x as int, tile_y as int, layer as int),
                        new_tile,
                    ),
                    tile_x as int,
                    tile_y as int,
                    new_tile,
                ),
            ),
    {
        let ghost w = self.width as int;
        let ghost h = self.height as int;
        let ghost cx = tile_x as int;
        let ghost cy = tile_y as int;
        let was = self.get_tile(tile_x, tile_y, 0);
        self.set_tile(tile_x, tile_y, layer, new_tile);
        let ghost t1 = self.tiles@;
        proof {
            lemma_cell_index_bounds(w, h, cx, cy, 0);
        }
        let center = self.get_tile(tile_x, tile_y, 0);

        // Light seeding or reset.
        match tiles::light_color(center) {
            Some(color) => {
                self.set_light(tile_x, tile_y, color);
                let reg = self.clamped_region(tile_x, tile_y, LIGHT_RESET_RADIUS);
                self.relax_light_region(reg, RELAX_PASSES);
            },
            None => {
                if tiles::emits_light(was) {
                    let reset = self.clamped_region(tile_x, tile_y, LIGHT_RESET_RADIUS);
                    self.reset_light_window(reset);
                    let wide = self.clamped_region(
                        tile_x,
                        tile_y,
                        LIGHT_RESET_RADIUS + LIGHT_EDIT_WIDENING,
                    );
                    self.relax_light_region(wide, RELAX_PASSES);
                }
            },
        }
        proof {
            assert(self.lighting@ == spec_lights_after_edit(*old(self), cx, cy, layer as int, new_tile));
        }

        // Sky-light height of the edited column.
        let is_sol = tiles::is_solid(new_tile);
        if is_sol && tile_y <= self.sky_light[tile_x] as usize {
            self.sky_light.set(tile_x, tile_y as u32);
        } else if !is_sol {
            let row = self.first_solid_row(tile_x);
            proof {
                lemma_first_solid_row_bounds(self.tiles@, w, h, cx, 0);
            }
            self.sky_light.set(tile_x, row as u32);
        } else {
            proof {
                assert(self.sky_light@.update(cx, self.sky_light@[cx]) =~= self.sky_light@);
            }
        }

        // Auto-tile the four orthogonal neighbors.
        if tile_x > 0 {
            self.retile_cell(tile_x - 1, tile_y, layer);
        }
        if tile_x + 1 < self.width {
            self.retile_cell(tile_x + 1, tile_y, layer);
        }
        if tile_y > 0 {
            self.retile_cell(tile_x, tile_y - 1, layer);
        }
        if tile_y + 1 < self.height {
            self.retile_cell(tile_x, tile_y + 1, layer);
        }
        proof {
            lemma_edit_neighbors_pointwise(*old(self), *self, t1, cx, cy, layer as int, new_tile);
        }
        Ok(())
    }
}

/// The auto-tile correctness law of tile edits: after `change_tile`, every
/// in-grid orthogonal neighbor of the edited cell whose tile on the edited
/// layer belongs to an auto-tiling family carries exactly its family's table
/// entry for the neighbor's post-edit emptiness mask (read on the written
/// grid; edge neighbors clamp to the nearest valid cell). A neighbor outside
/// every auto-tiling family keeps its terrain tile. In particular, a
/// grass-family neighbor whose mask is empty-left-only takes the family's
/// left-wall entry.
pub proof fn lemma_edit_retiles_neighbors(
    m0: TileMap,
    m1: TileMap,
    cx: int,
    cy: int,
    layer: int,
    id: u32,
    nx: int,
    ny: int,
)
    requires
        m0.wf(),
        0 <= cx < m0.width,
        0 <= cy < m0.height,
        0 <= layer < 3,
        m1.width == m0.width,
        m1.height == m0.height,
        m1.tiles@ == spec_tiles_after_edit(m0, cx, cy, layer, id),
        spec_is_edit_neighbor(cx, cy, nx, ny),
        0 <= nx < m0.width,
        0 <= ny < m0.height,
    ensures
        ({
            let w = m0.width as int;
            let h = m0.height as int;
            let t1 = m0.tiles@.update(cell_index(w, cx, cy, layer), id);
            match tiles::spec_autotile_family(t1[cell_index(w, nx, ny, layer)]) {
                Some(family) => {
                    let mask = crate::auto_tile::spec_neighbors_empty(t1, w, h, nx, ny);
                    m1.spec_tile(nx, ny, 0) == tiles::spec_auto_tile_id(
                        family,
                        mask.0,
                        mask.1,
                        mask.2,
                        mask.3,
                    )
                },
                None => m1.spec_tile(nx, ny, 0) == t1[cell_index(w, nx, ny, 0)],
            }
        }),
{
    let w = m0.width as int;
    let h = m0.height as int;
    lemma_cell_index_bounds(w, h, cx, cy, layer);
    lemma_cell_index_bounds(w, h, nx, ny, 0);
    lemma_cell_index_decomp(w, h, nx, ny, 0);
}

/// Glue for the neighbor pass of `change_tile`: the four sequential retiles,
/// each reading the grid the earlier ones wrote, equal the pointwise
/// description over the freshly written grid, because no retile reads a cell
/// an earlier one wrote.
proof fn lemma_edit_neighbors_pointwise(
    m0: TileMap,
    m: TileMap,
    t1: Seq<u32>,
    cx: int,
    cy: int,
    layer: int,
    id: u32,
)
    requires
        m0.wf(),
        0 <= cx < m0.width,
        0 <= cy < m0.height,
        0 <= layer < 3,
        t1 == m0.tiles@.update(cell_index(m0.width as int, cx, cy, layer), id),
        m.width == m0.width,
        m.height == m0.height,
        m.tiles@ == retiled_chain(t1, m0.width as int, m0.height as int, cx, cy, layer),
    ensures
        m.tiles@ == spec_tiles_after_edit(m0, cx, cy, layer, id),
{
    let w = m0.width as int;
    let h = m0.height as int;
    lemma_cell_index_bounds(w, h, cx, cy, layer);
    assert(t1.len() == m0.tiles@.len());
    assert(t1.len() == 3 * (w * h));
    lemma_retiled_chain_pointwise(t1, w, h, cx, cy, layer);
    let chain = retiled_chain(t1, w, h, cx, cy, layer);
    let target = spec_tiles_after_edit(m0, cx, cy, layer, id);
    assert forall|i: int| 0 <= i < t1.len() implies chain[i] == target[i] by {
        lemma_cell_index_recomp(w, h, i);
    }
    assert(chain =~= target);
}

/// The tile buffer after retiling, in order, those of the four orthogonal
/// neighbors of `(cx, cy)` that lie in the grid, each from the buffer the
/// previous steps produced.
pub open spec fn retiled_chain(t1: Seq<u32>, w: int, h: int, cx: int, cy: int, layer: int) -> Seq<
    u32,
> {
    let ta = if cx > 0 {
        t1.update(cell_index(w, cx - 1, cy, 0), spec_retile(t1, w, h, cx - 1, cy, layer))
    } else {
        t1
    };
    let tb = if cx + 1 < w {
        ta.update(cell_index(w, cx + 1, cy, 0), spec_retile(ta, w, h, cx + 1, cy, layer))
    } else {
        ta
    };
    let tc = if cy > 0 {
        tb.update(cell_index(w, cx, cy - 1, 0), spec_retile(tb, w, h, cx, cy - 1, layer))
    } else {
        tb
    };
    if cy + 1 < h {
        tc.update(cell_index(w, cx, cy + 1, 0), spec_retile(tc, w, h, cx, cy + 1, layer))
    } else {
        tc
    }
}

/// Each link of the retiling chain reads only cells no earlier link wrote,
/// so every link's outcome equals the retiling of the fresh buffer, and the
/// chain is four independent pointwise updates.
proof fn lemma_retiled_chain_pointwise(t1: Seq<u32>, w: int, h: int, cx: int, cy: int, layer: int)
    requires
        t1.len() == 3 * (w * h),
        0 <= cx < w,
        0 <= cy < h,
        0 <= layer < 3,
    ensures
        ({
            let chain = retiled_chain(t1, w, h, cx, cy, layer);
            &&& chain.len() == t1.len()
            &&& (forall|x: int, y: int, c: int|
                0 <= x < w && 0 <= y < h && 0 <= c < 3 ==> #[trigger] chain[cell_index(
                    w,
                    x,
                    y,
                    c,
                )] == (if c == 0 && spec_is_edit_neighbor(cx, cy, x, y) {
                    spec_retile(t1, w, h, x, y, layer)
                } else {
                    t1[cell_index(w, x, y, c)]
                }))
        }),
{
    if cx > 0 {
        lemma_cell_index_bounds(w, h, cx - 1, cy, 0);
    }
    if cx + 1 < w {
        lemma_cell_index_bounds(w, h, cx + 1, cy, 0);
    }
    if cy > 0 {
        lemma_cell_index_bounds(w, h, cx, cy - 1, 0);
    }
    if cy + 1 < h {
        lemma_cell_index_bounds(w, h, cx, cy + 1, 0);
    }
    let ta = if cx > 0 {
        t1.update(cell_index(w, cx - 1, cy, 0), spec_retile(t1, w, h, cx - 1, cy, layer))
    } else {
        t1
    };
    let tb = if cx + 1 < w {
        ta.update(cell_index(w, cx + 1, cy, 0), spec_retile(ta, w, h, cx + 1, cy, layer))
    } else {
        ta
    };
    let tc = if cy > 0 {
        tb.update(cell_index(w, cx, cy - 1, 0), spec_retile(tb, w, h, cx, cy - 1, layer))
    } else {
        tb
    };
    let td = if cy + 1 < h {
        tc.update(cell_index(w, cx, cy + 1, 0), spec_retile(tc, w, h, cx, cy + 1, layer))
    } else {
        tc
    };
    assert(ta.len() == t1.len());
    assert(tb.len() == t1.len());
    assert(tc.len() == t1.len());
    assert(td.len() == t1.len());

    // The retiling of each later neighbor is unaffected by the earlier writes.
    if cx + 1 < w && cx > 0 {
        lemma_retile_unaffected(
            t1,
            w,
            h,
            cx + 1,
            cy,
            layer,
            cx - 1,
            cy,
            spec_retile(t1, w, h, cx - 1, cy, layer),
        );
    }
    if cy > 0 {
        if cx > 0 {
            lemma_retile_unaffected(
                t1,
                w,
                h,
                cx,
                cy - 1,
                layer,
                cx - 1,
                cy,
                spec_retile(t1, w, h, cx - 1, cy, layer),
            );
        }
        if cx + 1 < w {
            lemma_retile_unaffected(
                ta,
                w,
                h,
                cx,
                cy - 1,
                layer,
                cx + 1,
                cy,
                spec_retile(ta, w, h, cx + 1, cy, layer),
            );
        }
    }
    if cy + 1 < h {
        if cx > 0 {
            lemma_retile_unaffected(
                t1,
                w,
                h,
                cx,
                cy + 1,
                layer,
                cx - 1,
                cy,
                spec_retile(t1, w, h, cx - 1, cy, layer),
            );
        }
        if cx + 1 < w {
            lemma_retile_unaffected(
                ta,
                w,
                h,
                cx,
                cy + 1,
                layer,
                cx + 1,
                cy,
                spec_retile(ta, w, h, cx + 1, cy, layer),
            );
        }
        if cy > 0 {
            lemma_retile_unaffected(
                tb,
                w,
                h,
                cx,
                cy + 1,
                layer,
                cx,
                cy - 1,
                spec_retile(tb, w, h, cx, cy - 1, layer),
            );
        }
    }
    // Pointwise reading of the chained updates.
    assert forall|x: int, y: int, c: int|
        0 <= x < w && 0 <= y < h && 0 <= c < 3 implies #[trigger] td[cell_index(w, x, y, c)] == (
    if c == 0 && spec_is_edit_neighbor(cx, cy, x, y) {
        spec_retile(t1, w, h, x, y, layer)
    } else {
        t1[cell_index(w, x, y, c)]
    }) by {
        lemma_cell_index_bounds(w, h, x, y, c);
        if cx > 0 {
            lemma_cell_index_bounds(w, h, cx - 1, cy, 0);
            if (x, y, c) != (cx - 1, cy, 0int) {
                lemma_cell_index_inj(w, h, x, y, c, cx - 1, cy, 0);
            }
        }
        if cx + 1 < w {
            lemma_cell_index_bounds(w, h, cx + 1, cy, 0);
            if (x, y, c) != (cx + 1, cy, 0int) {
                lemma_cell_index_inj(w, h, x, y, c, cx + 1, cy, 0);
            }
        }
        if cy > 0 {
            lemma_cell_index_bounds(w, h, cx, cy - 1, 0);
            if (x, y, c) != (cx, cy - 1, 0int) {
                lemma_cell_index_inj(w, h, x, y, c, cx, cy - 1, 0);
            }
        }
        if cy + 1 < h {
            lemma_cell_index_bounds(w, h, cx, cy + 1, 0);
            if (x, y, c) != (cx, cy + 1, 0int) {
                lemma_cell_index_inj(w, h, x, y, c, cx, cy + 1, 0);
            }
        }
    }
}

} // verus!
