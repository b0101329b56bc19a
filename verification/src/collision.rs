//! Axis-aligned collision queries against the terrain layer. Box
//! coordinates are in sub-tile pixel units, eight per tile.

use vstd::prelude::*;

use crate::tile_map::TileMap;
use crate::tiles;

verus! {

/// Sub-tile units per tile.
pub const TILE_UNITS: i64 = 8;

/// The tile column or row a sub-tile coordinate falls in: the coordinate
/// divided by eight, rounded toward negative infinity.
pub open spec fn spec_tile_floor(v: int) -> int {
    if v >= 0 {
        v / 8
    } else {
        -((7 - v) / 8)
    }
}

/// The first tile column or row fully past a sub-tile coordinate: the
/// coordinate divided by eight, rounded toward positive infinity.
pub open spec fn spec_tile_ceil(v: int) -> int {
    -spec_tile_floor(-v)
}

/// `spec_tile_floor` is the floor of division by eight.
pub proof fn lemma_tile_floor_bounds(v: int)
    ensures
        8 * spec_tile_floor(v) <= v < 8 * (spec_tile_floor(v) + 1),
{
    if v >= 0 {
        assert(8 * (v / 8) <= v < 8 * (v / 8 + 1)) by (nonlinear_arith);
    } else {
        assert(8 * (-((7 - v) / 8)) <= v < 8 * (-((7 - v) / 8) + 1)) by (nonlinear_arith)
            requires
                v < 0,
        ;
    }
}

/// Clamping an integer into `[0, limit]`.
pub open spec fn spec_clamp(v: int, limit: int) -> int {
    if v < 0 {
        0
    } else if v > limit {
        limit
    } else {
        v
    }
}

/// Whether the box covers a solid terrain tile of the grid. Tiles outside
/// the grid are skipped, never treated as solid.
pub open spec fn spec_box_collides(m: TileMap, x: int, y: int, w_box: int, h_box: int) -> bool {
    exists|tx: int, ty: int|
        spec_tile_floor(x) <= tx < spec_tile_ceil(x + w_box) && spec_tile_floor(y) <= ty
            < spec_tile_ceil(y + h_box) && 0 <= tx < m.width && 0 <= ty < m.height
            && tiles::spec_is_solid(#[trigger] m.spec_tile(tx, ty, 0))
}

/// The floor of division by eight, carried out on a wide integer.
fn tile_floor8(v: i128) -> (r: i128)
    requires
        -0x1_0000_0000_0000_0000_0000 <= v <= 0x1_0000_0000_0000_0000_0000,
    ensures
        r == spec_tile_floor(v as int),
{
    if v >= 0 {
        v / 8
    } else {
        -((7 - v) / 8)
    }
}

impl TileMap {
    /// Converts a sub-tile box into the range of tiles it covers and reports
    /// whether any covered terrain tile is solid. Tiles beyond the grid edge
    /// are skipped, not clamped.
    pub fn check_aabb_collision(&self, x: i64, y: i64, box_width: i64, box_height: i64) -> (r:
        bool)
        requires
            self.wf(),
        ensures
            r == spec_box_collides(
                *self,
                x as int,
                y as int,
                box_width as int,
                box_height as int,
            ),
    {
        let sx: i128 = tile_floor8(x as i128);
        let sy: i128 = tile_floor8(y as i128);
        let ex: i128 = -tile_floor8(-(x as i128 + box_width as i128));
        let ey: i128 = -tile_floor8(-(y as i128 + box_height as i128));
        let tx0: usize = clamp_to(sx, self.width);
        let ty0: usize = clamp_to(sy, self.height);
        let tx1: usize = clamp_to(ex, self.width);
        let ty1: usize = clamp_to(ey, self.height);
        let mut ty = ty0;
        while ty < ty1
            invariant
                self.wf(),
                ty0 <= ty,
                ty <= ty1 || ty == ty0,
                tx0 as int == spec_clamp(sx as int, self.width as int),
                tx1 as int == spec_clamp(ex as int, self.width as int),
                ty0 as int == spec_clamp(sy as int, self.height as int),
                ty1 as int == spec_clamp(ey as int, self.height as int),
                sx == spec_tile_floor(x as int),
                sy == spec_tile_floor(y as int),
                ex == spec_tile_ceil(x as int + box_width as int),
                ey == spec_tile_ceil(y as int + box_height as int),
                forall|ax: int, ay: int|
                    sx <= ax < ex && sy <= ay < ey && 0 <= ax < self.width && 0 <= ay
                        < self.height && ay < ty ==> !tiles::spec_is_solid(
                        #[trigger] self.spec_tile(ax, ay, 0),
                    ),
            decreases ty1 - ty,
        {
            let mut tx = tx0;
            while tx < tx1
                invariant
                    self.wf(),
                    ty0 <= ty < ty1,
                    tx0 <= tx,
                    tx <= tx1 || tx == tx0,
                    tx0 as int == spec_clamp(sx as int, self.width as int),
                    tx1 as int == spec_clamp(ex as int, self.width as int),
                    ty0 as int == spec_clamp(sy as int, self.height as int),
                    ty1 as int == spec_clamp(ey as int, self.height as int),
                    sx == spec_tile_floor(x as int),
                    sy == spec_tile_floor(y as int),
                    ex == spec_tile_ceil(x as int + box_width as int),
                    ey == spec_tile_ceil(y as int + box_height as int),
                    forall|ax: int, ay: int|
                        sx <= ax < ex && sy <= ay < ey && 0 <= ax < self.width && 0 <= ay
                            < self.height && ay < ty ==> !tiles::spec_is_solid(
                            #[trigger] self.spec_tile(ax, ay, 0),
                        ),
                    forall|ax: int|
                        sx <= ax < ex && 0 <= ax < self.width && ax < tx ==> !tiles::spec_is_solid(
                            #[trigger] self.spec_tile(ax, ty as int, 0),
                        ),
                decreases tx1 - tx,
            {
                let i = self.cell_index_of(tx, ty, 0);
                if tiles::is_solid(self.tiles[i]) {
                    proof {
                        assert(sx <= tx as int && (tx as int) < ex && sy <= ty as int && (ty as int) < ey);
                        assert(tiles::spec_is_solid(self.spec_tile(tx as int, ty as int, 0)));
                        assert(spec_box_collides(*self, x as int, y as int, box_width as int, box_height as int));
                    }
                    return true;
                }
                tx += 1;
            }
            ty += 1;
        }
        false
    }
}

/// Clamps a wide integer into `[0, limit]` as an index.
fn clamp_to(v: i128, limit: usize) -> (r: usize)
    requires
        limit <= u32::MAX,
    ensures
        r as int == spec_clamp(v as int, limit as int),
{
    if v < 0 {
        0
    } else if v > limit as i128 {
        limit
    } else {
        v as usize
    }
}

} // verus!
