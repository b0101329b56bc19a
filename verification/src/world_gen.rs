//! The world generator: biome-blended terrain placement from sampled noise
//! fields, the auto-tiling normalization pass, structure stamping, and light
//! seeding with full-grid relaxation.
//!
//! Noise is an outside capability: the host samples its coherent noise
//! fields and hands the generator fixed-point values (ten-thousandths, in
//! `[-10000, 10000]`), one per column or per cell and biome preset.

use vstd::prelude::*;

use crate::errors::TileMapError;
use crate::grid_index::{
    cell_index, chan_of, col_of, lemma_cell_index_bounds, lemma_cell_index_decomp,
    lemma_cell_index_inj, row_of,
};
use crate::tile_map::TileMap;

verus! {

/// One unit of noise in fixed-point ten-thousandths.
pub const NOISE_ONE: i64 = 10000;

/// The biome presets, in bucket order.
#[derive(Clone, Copy, PartialEq, Eq, Structural, Debug)]
pub enum Biom {
    Forest,
    Desert,
    Jungle,
    Tundra,
}

/// How many biome presets the generator blends between.
pub const BIOME_COUNT: usize = 4;

/// The world generator's terrain shape: the surface sits `height_base` rows
/// down plus a noise-driven span, with a noise-driven dirt band below it.
pub struct WorldGenerator {
    pub height_base: usize,
    pub height_span: usize,
    pub dirt_span: usize,
}

impl WorldGenerator {
    /// The generator with the world's standard terrain shape.
    pub fn new() -> (r: WorldGenerator)
        ensures
            r.height_base == 100,
            r.height_span == 50,
            r.dirt_span == 10,
    {
        WorldGenerator { height_base: 100, height_span: 50, dirt_span: 10 }
    }

    /// Bounds under which the generator's arithmetic stays in range.
    pub open spec fn wf(self) -> bool {
        &&& self.height_base + self.height_span <= u32::MAX
        &&& self.dirt_span <= u32::MAX
    }
}

/// The sampled noise fields generation consumes. Per-cell fields hold one
/// value per biome preset, laid out `(y * width + x) * 4 + preset`; per-
/// column fields hold `x * 4 + preset` (the dirt field) or one value per
/// column (the biome field).
pub struct NoiseSamples {
    pub biome: Vec<i64>,
    pub dirt: Vec<i64>,
    pub land: Vec<i64>,
    pub cave: Vec<i64>,
    pub cave_threshold: Vec<i64>,
}

impl NoiseSamples {
    pub open spec fn wf_for(self, w: int, h: int) -> bool {
        &&& self.biome@.len() == w
        &&& self.dirt@.len() == 4 * w
        &&& self.land@.len() == 4 * (w * h)
        &&& self.cave@.len() == 4 * (w * h)
        &&& self.cave_threshold@.len() == 4 * (w * h)
    }
}

/// Index of preset `p`'s sample for cell `(x, y)`.
pub open spec fn quad_index(w: int, x: int, y: int, p: int) -> int {
    (y * w + x) * 4 + p
}

pub proof fn lemma_quad_index_bounds(w: int, h: int, x: int, y: int, p: int)
    requires
        0 <= x < w,
        0 <= y < h,
        0 <= p < 4,
    ensures
        0 <= quad_index(w, x, y, p) < 4 * (w * h),
{
    assert(0 <= (y * w + x) * 4 + p < 4 * (w * h)) by (nonlinear_arith)
        requires
            0 <= x < w,
            0 <= y < h,
            0 <= p < 4,
    ;
}

/// A noise sample clamped into one noise unit each way and shifted to the
/// non-negative range `[0, 20000]`.
pub open spec fn spec_shifted(v: int) -> int {
    if v < -10000 {
        0int
    } else if v > 10000 {
        20000int
    } else {
        v + 10000
    }
}

/// Which preset owns the biome value, which neighboring preset blends in,
/// and the neighbor's closeness to the bucket boundary, as `(main, extra,
/// weight)` with the weight in twenty-thousandths.
pub open spec fn spec_biome_sel(b: int) -> (int, int, int) {
    let scaled = spec_shifted(b) * 4;
    let main = if scaled / 20000 > 3 {
        3int
    } else {
        scaled / 20000
    };
    let frac = scaled % 20000;
    if frac > 10000 {
        let extra = if main + 1 > 3 {
            3int
        } else {
            main + 1
        };
        (main, extra, frac - 10000)
    } else {
        let extra = if main > 0 {
            main - 1
        } else {
            0int
        };
        (main, extra, 10000 - frac)
    }
}

/// The linear blend of two shifted samples: the main sample carries
/// `weight` twenty-thousandths, the extra sample the rest.
pub open spec fn spec_blend(main: int, extra: int, weight: int) -> int {
    (main * weight + extra * (20000 - weight)) / 20000
}

/// The threshold bias each biome preset adds to its cave threshold, in
/// ten-thousandths.
pub open spec fn spec_threshold_bias(p: int) -> int {
    if p == 1 {
        5000int
    } else if p == 2 {
        -5000int
    } else {
        0int
    }
}

/// The blended, shifted land noise of cell `(x, y)`.
pub open spec fn spec_land_at(s: NoiseSamples, w: int, x: int, y: int) -> int {
    let sel = spec_biome_sel(s.biome@[x] as int);
    spec_blend(
        spec_shifted(s.land@[quad_index(w, x, y, sel.0)] as int),
        spec_shifted(s.land@[quad_index(w, x, y, sel.1)] as int),
        sel.2,
    )
}

/// The blended, shifted cave noise of cell `(x, y)`.
pub open spec fn spec_cave_noise_at(s: NoiseSamples, w: int, x: int, y: int) -> int {
    let sel = spec_biome_sel(s.biome@[x] as int);
    spec_blend(
        spec_shifted(s.cave@[quad_index(w, x, y, sel.0)] as int),
        spec_shifted(s.cave@[quad_index(w, x, y, sel.1)] as int),
        sel.2,
    )
}

/// The blended cave threshold of cell `(x, y)`, shifted by two noise units
/// so the per-preset bias keeps it non-negative.
pub open spec fn spec_cave_threshold_at(s: NoiseSamples, w: int, x: int, y: int) -> int {
    let sel = spec_biome_sel(s.biome@[x] as int);
    spec_blend(
        spec_shifted(s.cave_threshold@[quad_index(w, x, y, sel.0)] as int) + 10000
            + spec_threshold_bias(sel.0),
        spec_shifted(s.cave_threshold@[quad_index(w, x, y, sel.1)] as int) + 10000
            + spec_threshold_bias(sel.1),
        sel.2,
    )
}

/// The blended, shifted dirt noise of column `x`.
pub open spec fn spec_dirt_noise_at(s: NoiseSamples, x: int) -> int {
    let sel = spec_biome_sel(s.biome@[x] as int);
    spec_blend(
        spec_shifted(s.dirt@[4 * x + sel.0] as int),
        spec_shifted(s.dirt@[4 * x + sel.1] as int),
        sel.2,
    )
}

/// The surface row of cell `(x, y)`: the base depth plus the land noise's
/// share of the span.
pub open spec fn spec_surface_height(g: WorldGenerator, s: NoiseSamples, w: int, x: int, y: int) -> int {
    g.height_base + spec_land_at(s, w, x, y) * g.height_span / 20000
}

/// The dirt band thickness of column `x`.
pub open spec fn spec_dirt_depth(g: WorldGenerator, s: NoiseSamples, x: int) -> int {
    spec_dirt_noise_at(s, x) * g.dirt_span / 20000
}

/// Whether cell `(x, y)` is carved out as a cave: the cave noise exceeds the
/// blended threshold plus a fixed margin, the threshold biased upward near
/// the surface so caves do not breach at ground level.
pub open spec fn spec_cave_at(g: WorldGenerator, s: NoiseSamples, w: int, x: int, y: int) -> bool {
    let height = spec_surface_height(g, s, w, x, y);
    let depth_bias = if height >= y {
        (height - y) * 1000
    } else {
        let d = (y - height) * 1000;
        if d > 7500 {
            -7500int
        } else {
            -d
        }
    };
    spec_cave_noise_at(s, w, x, y) > spec_cave_threshold_at(s, w, x, y) + 5000 + depth_bias
}

/// What terrain generation writes at cell `(x, y)`: empty air for caves and
/// sky, the plain grass tile at the surface, plain dirt in the dirt band,
/// plain stone below.
pub open spec fn spec_gen_tile(g: WorldGenerator, s: NoiseSamples, w: int, x: int, y: int) -> u32 {
    let height = spec_surface_height(g, s, w, x, y);
    if spec_cave_at(g, s, w, x, y) {
        0u32
    } else if y < height {
        0u32
    } else if y == height {
        1u32
    } else if y <= height + spec_dirt_depth(g, s, x) {
        29u32
    } else {
        44u32
    }
}

/// The first row of column `x` at or below `y` that terrain generation
/// fills, or the grid height when it fills none.
pub open spec fn spec_first_filled(
    g: WorldGenerator,
    s: NoiseSamples,
    w: int,
    h: int,
    x: int,
    y: int,
) -> int
    decreases h - y,
{
    if y < 0 || y >= h {
        h
    } else if spec_gen_tile(g, s, w, x, y) != 0 {
        y
    } else {
        spec_first_filled(g, s, w, h, x, y + 1)
    }
}

/// The sky-light height generation records for column `x`: the first filled
/// row, or the grid height when the column is entirely open to the sky.
pub open spec fn spec_gen_sky(g: WorldGenerator, s: NoiseSamples, w: int, h: int, x: int) -> int {
    spec_first_filled(g, s, w, h, x, 0)
}

pub proof fn lemma_first_filled_bounds(
    g: WorldGenerator,
    s: NoiseSamples,
    w: int,
    h: int,
    x: int,
    y: int,
)
    requires
        0 <= h,
    ensures
        spec_first_filled(g, s, w, h, x, y) <= h,
    decreases h - y,
{
    if 0 <= y < h && spec_gen_tile(g, s, w, x, y) == 0 {
        lemma_first_filled_bounds(g, s, w, h, x, y + 1);
    }
}

/// The blended land noise of cell `(x, y)` as executable code.
fn land_at(s: &NoiseSamples, w: usize, h: usize, x: usize, y: usize) -> (r: i64)
    requires
        s.wf_for(w as int, h as int),
        x < w,
        y < h,
    ensures
        r == spec_land_at(*s, w as int, x as int, y as int),
        0 <= r <= 40000,
{
    let n = s.land.len();
    proof {
        lemma_quad_index_bounds(w as int, h as int, x as int, y as int, 0);
        lemma_quad_index_bounds(w as int, h as int, x as int, y as int, 3);
    }
    let sel = biome_sel(s.biome[x]);
    let base = (y * w + x) * 4;
    proof {
        lemma_quad_index_bounds(w as int, h as int, x as int, y as int, sel.0 as int);
        lemma_quad_index_bounds(w as int, h as int, x as int, y as int, sel.1 as int);
    }
    blend(shifted(s.land[base + sel.0]), shifted(s.land[base + sel.1]), sel.2)
}

/// The blended cave noise of cell `(x, y)` as executable code.
fn cave_noise_at(s: &NoiseSamples, w: usize, h: usize, x: usize, y: usize) -> (r: i64)
    requires
        s.wf_for(w as int, h as int),
        x < w,
        y < h,
    ensures
        r == spec_cave_noise_at(*s, w as int, x as int, y as int),
        0 <= r <= 40000,
{
    let n = s.cave.len();
    proof {
        lemma_quad_index_bounds(w as int, h as int, x as int, y as int, 0);
        lemma_quad_index_bounds(w as int, h as int, x as int, y as int, 3);
    }
    let sel = biome_sel(s.biome[x]);
    let base = (y * w + x) * 4;
    proof {
        lemma_quad_index_bounds(w as int, h as int, x as int, y as int, sel.0 as int);
        lemma_quad_index_bounds(w as int, h as int, x as int, y as int, sel.1 as int);
    }
    blend(shifted(s.cave[base + sel.0]), shifted(s.cave[base + sel.1]), sel.2)
}

/// The blended cave threshold of cell `(x, y)` as executable code.
fn cave_threshold_at(s: &NoiseSamples, w: usize, h: usize, x: usize, y: usize) -> (r: i64)
    requires
        s.wf_for(w as int, h as int),
        x < w,
        y < h,
    ensures
        r == spec_cave_threshold_at(*s, w as int, x as int, y as int),
        0 <= r <= 40000,
{
    let n = s.cave_threshold.len();
    proof {
        lemma_quad_index_bounds(w as int, h as int, x as int, y as int, 0);
        lemma_quad_index_bounds(w as int, h as int, x as int, y as int, 3);
    }
    let sel = biome_sel(s.biome[x]);
    let base = (y * w + x) * 4;
    proof {
        lemma_quad_index_bounds(w as int, h as int, x as int, y as int, sel.0 as int);
        lemma_quad_index_bounds(w as int, h as int, x as int, y as int, sel.1 as int);
    }
    let b0 = threshold_bias(sel.0);
    let b1 = threshold_bias(sel.1);
    blend(
        shifted(s.cave_threshold[base + sel.0]) + 10000 + b0,
        shifted(s.cave_threshold[base + sel.1]) + 10000 + b1,
        sel.2,
    )
}

/// The blended dirt noise of column `x` as executable code.
fn dirt_noise_at(s: &NoiseSamples, w: usize, h: usize, x: usize) -> (r: i64)
    requires
        s.wf_for(w as int, h as int),
        x < w,
    ensures
        r == spec_dirt_noise_at(*s, x as int),
        0 <= r <= 40000,
{
    let n = s.dirt.len();
    let sel = biome_sel(s.biome[x]);
    blend(shifted(s.dirt[4 * x + sel.0]), shifted(s.dirt[4 * x + sel.1]), sel.2)
}

/// The cave-threshold bias of one biome preset as executable code.
fn threshold_bias(p: usize) -> (r: i64)
    requires
        p < 4,
    ensures
        r == spec_threshold_bias(p as int),
        -5000 <= r <= 5000,
{
    if p == 1 {
        5000
    } else if p == 2 {
        -5000
    } else {
        0
    }
}

/// The surface row of cell `(x, y)` as executable code.
fn surface_height(g: &WorldGenerator, s: &NoiseSamples, w: usize, h: usize, x: usize, y: usize) -> (r: u64)
    requires
        g.wf(),
        s.wf_for(w as int, h as int),
        x < w,
        y < h,
    ensures
        r == spec_surface_height(*g, *s, w as int, x as int, y as int),
        r <= 3 * 0xFFFF_FFFF,
{
    let land = land_at(s, w, h, x, y);
    proof {
        assert(0 <= (land as int) * (g.height_span as int) <= 40000 * 0xFFFF_FFFF && (land as int)
            * (g.height_span as int) / 20000 <= 2 * 0xFFFF_FFFF) by (nonlinear_arith)
            requires
                0 <= land <= 40000,
                0 <= g.height_span <= 0xFFFF_FFFF,
        ;
    }
    g.height_base as u64 + (land as u64) * (g.height_span as u64) / 20000
}

/// The dirt band thickness of column `x` as executable code.
fn dirt_depth(g: &WorldGenerator, s: &NoiseSamples, w: usize, h: usize, x: usize) -> (r: u64)
    requires
        g.wf(),
        s.wf_for(w as int, h as int),
        x < w,
    ensures
        r == spec_dirt_depth(*g, *s, x as int),
        r <= 2 * 0xFFFF_FFFF,
{
    let noise = dirt_noise_at(s, w, h, x);
    proof {
        assert(0 <= (noise as int) * (g.dirt_span as int) <= 40000 * 0xFFFF_FFFF && (noise as int)
            * (g.dirt_span as int) / 20000 <= 2 * 0xFFFF_FFFF) by (nonlinear_arith)
            requires
                0 <= noise <= 40000,
                0 <= g.dirt_span <= 0xFFFF_FFFF,
        ;
    }
    (noise as u64) * (g.dirt_span as u64) / 20000
}

/// Whether cell `(x, y)` is carved out as a cave, as executable code.
fn cave_at(g: &WorldGenerator, s: &NoiseSamples, w: usize, h: usize, x: usize, y: usize) -> (r:
    bool)
    requires
        g.wf(),
        s.wf_for(w as int, h as int),
        x < w,
        y < h,
        h <= 0xFFFF_FFFF,
    ensures
        r == spec_cave_at(*g, *s, w as int, x as int, y as int),
{
    let height = surface_height(g, s, w, h, x, y);
    let depth_bias: i64 = if height >= y as u64 {
        ((height - y as u64) * 1000) as i64
    } else {
        let d = ((y as u64 - height) * 1000) as i64;
        if d > 7500 {
            -7500
        } else {
            -d
        }
    };
    let cave = cave_noise_at(s, w, h, x, y);
    let thr = cave_threshold_at(s, w, h, x, y);
    cave > thr + 5000 + depth_bias
}

/// What terrain generation writes at cell `(x, y)`, as executable code.
fn gen_tile_at(g: &WorldGenerator, s: &NoiseSamples, w: usize, h: usize, x: usize, y: usize) -> (
    r: u32)
    requires
        g.wf(),
        s.wf_for(w as int, h as int),
        x < w,
        y < h,
        h <= 0xFFFF_FFFF,
    ensures
        r == spec_gen_tile(*g, *s, w as int, x as int, y as int),
{
    if cave_at(g, s, w, h, x, y) {
        return 0;
    }
    let height = surface_height(g, s, w, h, x, y);
    if (y as u64) < height {
        0
    } else if y as u64 == height {
        1
    } else if y as u64 <= height + dirt_depth(g, s, w, h, x) {
        29
    } else {
        44
    }
}

/// What the auto-tiling normalization pass leaves on the terrain layer of
/// `(x, y)`: grass and dirt share the grass family's table, stone has its
/// own, every other tile stays.
pub open spec fn spec_post_tile(t: Seq<u32>, w: int, h: int, x: int, y: int) -> u32 {
    let cur = crate::auto_tile::spec_tile0(t, w, x, y);
    let mask = crate::auto_tile::spec_neighbors_empty(t, w, h, x, y);
    if crate::tiles::spec_is_grass(cur) || crate::tiles::spec_is_dirt(cur) {
        crate::tiles::spec_auto_tile_id(crate::tiles::Family::Grass, mask.0, mask.1, mask.2, mask.3)
    } else if crate::tiles::spec_is_stone(cur) {
        crate::tiles::spec_auto_tile_id(crate::tiles::Family::Stone, mask.0, mask.1, mask.2, mask.3)
    } else {
        cur
    }
}

/// The whole tile buffer after the normalization pass.
pub open spec fn spec_post_pass(t: Seq<u32>, w: int, h: int) -> Seq<u32> {
    Seq::new(
        t.len(),
        |i: int|
            if chan_of(i) == 0 {
                spec_post_tile(t, w, h, col_of(w, i), row_of(w, i))
            } else {
                t[i]
            },
    )
}

/// The light grid after seeding: every cell whose terrain tile emits takes
/// the emission color, every other cell keeps its value.
pub open spec fn spec_seed_all(t: Seq<u32>, l: Seq<u8>, w: int) -> Seq<u8> {
    Seq::new(
        l.len(),
        |i: int|
            match crate::tiles::spec_light_color(
                crate::auto_tile::spec_tile0(t, w, col_of(w, i), row_of(w, i)),
            ) {
                Some(color) => color@[chan_of(i)],
                None => l[i],
            },
    )
}

/// Splitting a first-filled scan at a prefix of empty rows.
proof fn lemma_first_filled_skip(
    g: WorldGenerator,
    s: NoiseSamples,
    w: int,
    h: int,
    x: int,
    k: int,
)
    requires
        0 <= k <= h,
        forall|j: int| 0 <= j < k ==> spec_gen_tile(g, s, w, x, j) == 0,
    ensures
        spec_first_filled(g, s, w, h, x, 0) == spec_first_filled(g, s, w, h, x, k),
    decreases k,
{
    if k > 0 {
        lemma_first_filled_skip(g, s, w, h, x, k - 1);
        assert(spec_gen_tile(g, s, w, x, k - 1) == 0);
    }
}

impl WorldGenerator {
    /// Fills an empty grid's terrain layer from the noise fields and records
    /// each column's sky-light height at its first filled row.
    fn place_terrain(&self, map: &mut TileMap, s: &NoiseSamples)
        requires
            old(map).wf(),
            self.wf(),
            s.wf_for(old(map).width as int, old(map).height as int),
            forall|i: int| 0 <= i < old(map).tiles@.len() ==> old(map).tiles@[i] == 0u32,
        ensures
            final(map).wf(),
            *final(map) == (TileMap {
                tiles: final(map).tiles,
                sky_light: final(map).sky_light,
                ..*old(map)
            }),
            final(map).tiles@.len() == old(map).tiles@.len(),
            forall|x: int, y: int, l: int|
                0 <= x < old(map).width && 0 <= y < old(map).height && 0 <= l < 3
                    ==> #[trigger] final(map).tiles@[cell_index(old(map).width as int, x, y, l)]
                    == (if l == 0 {
                    spec_gen_tile(*self, *s, old(map).width as int, x, y)
                } else {
                    0u32
                }),
            forall|x: int|
                0 <= x < old(map).width ==> #[trigger] final(map).sky_light@[x] == spec_gen_sky(
                    *self,
                    *s,
                    old(map).width as int,
                    old(map).height as int,
                    x,
                ) as u32,
    {
        let ghost w = map.width as int;
        let ghost h = map.height as int;
        let width = map.width;
        let height = map.height;
        proof {
            assert forall|ax: int, ay: int, al: int|
                0 <= ax < w && 0 <= ay < h && 0 <= al < 3 implies #[trigger] map.tiles@[cell_index(
                w,
                ax,
                ay,
                al,
            )] == 0u32 by {
                lemma_cell_index_bounds(w, h, ax, ay, al);
            }
        }
        let mut x: usize = 0;
        while x < width
            invariant
                map.wf(),
                *map == (TileMap {
                    tiles: map.tiles,
                    sky_light: map.sky_light,
                    ..*old(map)
                }),
                self.wf(),
                s.wf_for(w, h),
                w == map.width as int,
                h == map.height as int,
                width == map.width,
                height == map.height,
                x <= width,
                forall|ax: int, ay: int, al: int|
                    0 <= ax < w && 0 <= ay < h && 0 <= al < 3 ==> #[trigger] map.tiles@[cell_index(
                        w,
                        ax,
                        ay,
                        al,
                    )] == (if al == 0 && ax < x {
                        spec_gen_tile(*self, *s, w, ax, ay)
                    } else {
                        0u32
                    }),
                forall|ax: int|
                    0 <= ax < w ==> #[trigger] map.sky_light@[ax] == (if ax < x {
                        spec_gen_sky(*self, *s, w, h, ax) as u32
                    } else {
                        old(map).sky_light@[ax]
                    }),
            decreases width - x,
        {
            let mut found = false;
            let mut found_row: usize = 0;
            let mut y: usize = 0;
            while y < height
                invariant
                    map.wf(),
                    *map == (TileMap {
                        tiles: map.tiles,
                        sky_light: map.sky_light,
                        ..*old(map)
                    }),
                    self.wf(),
                    s.wf_for(w, h),
                    w == map.width as int,
                    h == map.height as int,
                    width == map.width,
                    height == map.height,
                    x < width,
                    y <= height,
                    forall|ax: int, ay: int, al: int|
                        0 <= ax < w && 0 <= ay < h && 0 <= al < 3
                            ==> #[trigger] map.tiles@[cell_index(w, ax, ay, al)] == (if al == 0
                            && (ax < x || (ax == x && ay < y)) {
                            spec_gen_tile(*self, *s, w, ax, ay)
                        } else {
                            0u32
                        }),
                    forall|ax: int|
                        0 <= ax < w ==> #[trigger] map.sky_light@[ax] == (if ax < x {
                            spec_gen_sky(*self, *s, w, h, ax) as u32
                        } else {
                            old(map).sky_light@[ax]
                        }),
                    found ==> 0 <= found_row < y && spec_gen_tile(*self, *s, w, x as int,
                        found_row as int,
                    ) != 0 && (forall|j: int|
                        0 <= j < found_row ==> spec_gen_tile(*self, *s, w, x as int, j) == 0),
                    !found ==> (forall|j: int|
                        0 <= j < y ==> spec_gen_tile(*self, *s, w, x as int, j) == 0),
                decreases height - y,
            {
                let id = gen_tile_at(self, s, width, height, x, y);
                if id != 0 {
                    let ghost before = map.tiles@;
                    map.set_tile(x, y, 0, id);
                    proof {
                        lemma_cell_index_bounds(w, h, x as int, y as int, 0);
                        assert forall|ax: int, ay: int, al: int|
                            0 <= ax < w && 0 <= ay < h && 0 <= al < 3
                                implies #[trigger] map.tiles@[cell_index(w, ax, ay, al)] == (
                        if al == 0 && (ax < x || (ax == x && ay < y + 1)) {
                            spec_gen_tile(*self, *s, w, ax, ay)
                        } else {
                            0u32
                        }) by {
                            lemma_cell_index_bounds(w, h, ax, ay, al);
                            if ax != x as int || ay != y as int || al != 0 {
                                lemma_cell_index_inj(w, h, ax, ay, al, x as int, y as int, 0);
                            }
                        }
                    }
                    if !found {
                        found = true;
                        found_row = y;
                    }
                }
                y += 1;
            }
            let sky_val: u32 = if found {
                proof {
                    lemma_first_filled_skip(*self, *s, w, h, x as int, found_row as int);
                }
                found_row as u32
            } else {
                proof {
                    lemma_first_filled_skip(*self, *s, w, h, x as int, h);
                }
                height as u32
            };
            map.sky_light.set(x, sky_val);
            x += 1;
        }
    }

    /// Rebuilds the terrain layer with the auto-tiling normalization pass:
    /// every grass, dirt or stone tile takes its table entry for the cell's
    /// neighbor-emptiness mask, read from the grid as placement left it.
    fn normalize_edges(&self, map: &mut TileMap)
        requires
            old(map).wf(),
        ensures
            final(map).wf(),
            *final(map) == (TileMap { tiles: final(map).tiles, ..*old(map) }),
            final(map).tiles@ == spec_post_pass(
                old(map).tiles@,
                old(map).width as int,
                old(map).height as int,
            ),
    {
        let ghost w = map.width as int;
        let ghost h = map.height as int;
        let ghost target = spec_post_pass(old(map).tiles@, w, h);
        let len = map.tiles.len();
        let mut next: Vec<u32> = Vec::new();
        let mut i: usize = 0;
        let mut x: usize = 0;
        let mut y: usize = 0;
        let mut c: usize = 0;
        while i < len
            invariant
                map.wf(),
                *map == *old(map),
                w == map.width as int,
                h == map.height as int,
                target == spec_post_pass(map.tiles@, w, h),
                target.len() == len,
                len == map.tiles@.len(),
                i <= len,
                c < 3,
                x < map.width,
                y <= map.height,
                i == cell_index(w, x as int, y as int, c as int),
                y < map.height || i == len,
                next@.len() == i,
                forall|j: int| 0 <= j < i ==> next@[j] == target[j],
            decreases len - i,
        {
            proof {
                lemma_cell_index_bounds(w, h, x as int, y as int, c as int);
                lemma_cell_index_decomp(w, h, x as int, y as int, c as int);
            }
            let value: u32;
            if c == 0 {
                let i0 = map.cell_index_of(x, y, 0);
                let cur = map.tiles[i0];
                let grass_like = crate::tiles::in_family(cur, crate::tiles::Family::Grass)
                    || crate::tiles::in_family(cur, crate::tiles::Family::Dirt);
                let stone_like = crate::tiles::in_family(cur, crate::tiles::Family::Stone);
                if grass_like || stone_like {
                    let mask = map.neighbors_empty(x, y);
                    let family = if grass_like {
                        crate::tiles::Family::Grass
                    } else {
                        crate::tiles::Family::Stone
                    };
                    value = crate::tiles::auto_tile_id(family, mask.0, mask.1, mask.2, mask.3);
                } else {
                    value = cur;
                }
            } else {
                let ii = map.cell_index_of(x, y, c);
                value = map.tiles[ii];
            }
            next.push(value);
            i += 1;
            c += 1;
            if c == 3 {
                c = 0;
                x += 1;
                if x == map.width {
                    x = 0;
                    y += 1;
                    proof {
                        assert((y as int) * w == (y - 1) * w + w) by (nonlinear_arith);
                    }
                }
            }
            proof {
                if y < map.height {
                    lemma_cell_index_bounds(w, h, x as int, y as int, c as int);
                } else {
                    assert(h * w == w * h) by (nonlinear_arith);
                }
            }
        }
        map.tiles = next;
        proof {
            assert(map.tiles@ =~= target);
        }
    }

    /// Seeds the light grid from the terrain layer: every light-emitting
    /// tile writes its emission color into its own cell.
    fn seed_lights(&self, map: &mut TileMap)
        requires
            old(map).wf(),
        ensures
            final(map).wf(),
            *final(map) == (TileMap { lighting: final(map).lighting, ..*old(map) }),
            final(map).lighting@ == spec_seed_all(
                old(map).tiles@,
                old(map).lighting@,
                old(map).width as int,
            ),
    {
        let ghost w = map.width as int;
        let ghost h = map.height as int;
        let ghost target = spec_seed_all(old(map).tiles@, old(map).lighting@, w);
        let len = map.lighting.len();
        let mut next: Vec<u8> = Vec::new();
        let mut i: usize = 0;
        let mut x: usize = 0;
        let mut y: usize = 0;
        let mut c: usize = 0;
        while i < len
            invariant
                map.wf(),
                *map == *old(map),
                w == map.width as int,
                h == map.height as int,
                target == spec_seed_all(map.tiles@, map.lighting@, w),
                target.len() == len,
                len == map.lighting@.len(),
                i <= len,
                c < 3,
                x < map.width,
                y <= map.height,
                i == cell_index(w, x as int, y as int, c as int),
                y < map.height || i == len,
                next@.len() == i,
                forall|j: int| 0 <= j < i ==> next@[j] == target[j],
            decreases len - i,
        {
            proof {
                lemma_cell_index_bounds(w, h, x as int, y as int, c as int);
                lemma_cell_index_decomp(w, h, x as int, y as int, c as int);
            }
            let i0 = map.cell_index_of(x, y, 0);
            let value: u8;
            match crate::tiles::light_color(map.tiles[i0]) {
                Some(color) => {
                    value = color[c];
                },
                None => {
                    let ii = map.cell_index_of(x, y, c);
                    value = map.lighting[ii];
                },
            }
            next.push(value);
            i += 1;
            c += 1;
            if c == 3 {
                c = 0;
                x += 1;
                if x == map.width {
                    x = 0;
                    y += 1;
                    proof {
                        assert((y as int) * w == (y - 1) * w + w) by (nonlinear_arith);
                    }
                }
            }
            proof {
                if y < map.height {
                    lemma_cell_index_bounds(w, h, x as int, y as int, c as int);
                } else {
                    assert(h * w == w * h) by (nonlinear_arith);
                }
            }
        }
        map.lighting = next;
        proof {
            assert(map.lighting@ =~= target);
        }
    }
}

/// The bush footprint: the decoration tile stamped `(dx, dy)` away from a
/// bush's anchor surface tile, if the footprint covers that offset.
pub open spec fn spec_bush_tile(dx: int, dy: int) -> Option<u32> {
    if dy == -2 && dx == 0 {
        Some(73u32)
    } else if dy == -2 && dx == 1 {
        Some(74u32)
    } else if dy == -2 && dx == 2 {
        Some(75u32)
    } else if dy == -1 && dx == -1 {
        Some(78u32)
    } else if dy == -1 && dx == 0 {
        Some(79u32)
    } else if dy == -1 && dx == 1 {
        Some(80u32)
    } else if dy == -1 && dx == 2 {
        Some(81u32)
    } else if dy == 0 && dx == -1 {
        Some(84u32)
    } else if dy == 0 && dx == 0 {
        Some(85u32)
    } else if dy == 0 && dx == 1 {
        Some(86u32)
    } else if dy == 0 && dx == 2 {
        Some(87u32)
    } else {
        None
    }
}

/// The tree footprint: the decoration tile stamped `(dx, dy)` away from a
/// tree's anchor surface tile, if the footprint covers that offset.
pub open spec fn spec_tree_tile(dx: int, dy: int) -> Option<u32> {
    if dy == -8 && -1 <= dx <= 2 {
        Some((49 + dx) as u32)
    } else if dy == -7 && -2 <= dx <= 2 {
        Some((54 + dx) as u32)
    } else if dy == -6 && -2 <= dx <= 2 {
        Some((59 + dx) as u32)
    } else if dy == -5 && -1 <= dx <= 2 {
        Some((63 + dx) as u32)
    } else if dy == -4 && -1 <= dx <= 1 {
        Some((67 + dx) as u32)
    } else if dy == -3 && -1 <= dx <= 1 {
        Some((70 + dx) as u32)
    } else if dy == -2 && dx == 0 {
        Some(72u32)
    } else if dy == -1 && 0 <= dx <= 1 {
        Some((76 + dx) as u32)
    } else if dy == 0 && 0 <= dx <= 1 {
        Some((82 + dx) as u32)
    } else {
        None
    }
}

/// The first row of column `x` at or below `y`, within the structure scan's
/// margin, whose terrain tile is not empty; the grid height when the rest of
/// the scanned band holds none.
pub open spec fn spec_surface_scan(t: Seq<u32>, w: int, h: int, x: int, y: int) -> int
    decreases h - y,
{
    if y < 0 || y >= h - 4 {
        h
    } else if crate::auto_tile::spec_tile0(t, w, x, y) != 0 {
        y
    } else {
        spec_surface_scan(t, w, h, x, y + 1)
    }
}

/// Whether (and how) column `sx` stamps a structure: structure columns come
/// every twenty-fifth column at two offsets, away from the grid's margin;
/// the anchor is the first obstructed row of the scan band, which must be a
/// plain grass tile; a bush further needs plain grass on both sides, a tree
/// enough room above the anchor. Yields the anchor row and whether the
/// stamp is a bush.
pub open spec fn spec_stamp_at(t: Seq<u32>, w: int, h: int, sx: int) -> Option<(int, bool)> {
    if 4 <= sx < w - 4 && (sx % 25 == 10 || sx % 25 == 20) {
        let ys = spec_surface_scan(t, w, h, sx, 4);
        if ys < h - 4 && crate::auto_tile::spec_tile0(t, w, sx, ys) == 1 {
            if sx % 25 == 10 {
                if crate::auto_tile::spec_tile0(t, w, sx - 1, ys) == 1
                    && crate::auto_tile::spec_tile0(t, w, sx + 1, ys) == 1 {
                    Some((ys, true))
                } else {
                    None
                }
            } else {
                if ys >= 8 {
                    Some((ys, false))
                } else {
                    None
                }
            }
        } else {
            None
        }
    } else {
        None
    }
}

/// What column `sx`'s stamp, if any, writes at cell `(gx, gy)`.
pub open spec fn spec_try_stamp(t: Seq<u32>, w: int, h: int, sx: int, gx: int, gy: int) -> Option<
    u32,
> {
    match spec_stamp_at(t, w, h, sx) {
        Some(anchor) => if anchor.1 {
            spec_bush_tile(gx - sx, gy - anchor.0)
        } else {
            spec_tree_tile(gx - sx, gy - anchor.0)
        },
        None => None,
    }
}

/// The decoration tile structure stamping leaves at cell `(gx, gy)`, if any
/// nearby column's stamp covers the cell.
pub open spec fn spec_decoration_at(t: Seq<u32>, w: int, h: int, gx: int, gy: int) -> Option<u32> {
    if spec_try_stamp(t, w, h, gx - 2, gx, gy) is Some {
        spec_try_stamp(t, w, h, gx - 2, gx, gy)
    } else if spec_try_stamp(t, w, h, gx - 1, gx, gy) is Some {
        spec_try_stamp(t, w, h, gx - 1, gx, gy)
    } else if spec_try_stamp(t, w, h, gx, gx, gy) is Some {
        spec_try_stamp(t, w, h, gx, gx, gy)
    } else if spec_try_stamp(t, w, h, gx + 1, gx, gy) is Some {
        spec_try_stamp(t, w, h, gx + 1, gx, gy)
    } else {
        spec_try_stamp(t, w, h, gx + 2, gx, gy)
    }
}

/// The whole tile buffer after structure stamping: covered decoration-layer
/// cells take their footprint tile, everything else stays.
pub open spec fn spec_struct_pass(t: Seq<u32>, w: int, h: int) -> Seq<u32> {
    Seq::new(
        t.len(),
        |i: int|
            if chan_of(i) == 1 && spec_decoration_at(t, w, h, col_of(w, i), row_of(w, i)) is Some {
                spec_decoration_at(t, w, h, col_of(w, i), row_of(w, i)).unwrap()
            } else {
                t[i]
            },
    )
}

/// The terrain layer terrain placement produces, as one buffer.
pub open spec fn spec_terrain_tiles(g: WorldGenerator, s: NoiseSamples, w: int, h: int) -> Seq<
    u32,
> {
    Seq::new(
        (3 * (w * h)) as nat,
        |i: int|
            if chan_of(i) == 0 {
                spec_gen_tile(g, s, w, col_of(w, i), row_of(w, i))
            } else {
                0u32
            },
    )
}

/// Splitting a surface scan at a prefix of empty rows.
proof fn lemma_surface_scan_skip(t: Seq<u32>, w: int, h: int, x: int, k: int)
    requires
        4 <= k,
        forall|j: int| 4 <= j < k ==> crate::auto_tile::spec_tile0(t, w, x, j) == 0,
    ensures
        spec_surface_scan(t, w, h, x, 4) == spec_surface_scan(t, w, h, x, k),
    decreases k,
{
    if k > 4 {
        lemma_surface_scan_skip(t, w, h, x, k - 1);
        assert(crate::auto_tile::spec_tile0(t, w, x, k - 1) == 0);
    }
}

impl TileMap {
    /// Scans a structure column's band for its anchor row.
    fn surface_scan(&self, x: usize) -> (r: usize)
        requires
            self.wf(),
            x < self.width,
            self.height >= 9,
        ensures
            r == spec_surface_scan(
                self.tiles@,
                self.width as int,
                self.height as int,
                x as int,
                4,
            ),
            r <= self.height,
    {
        let ghost w = self.width as int;
        let ghost h = self.height as int;
        let mut y: usize = 4;
        while y < self.height - 4
            invariant
                self.wf(),
                x < self.width,
                self.height >= 9,
                w == self.width as int,
                h == self.height as int,
                4 <= y <= self.height - 4,
                spec_surface_scan(self.tiles@, w, h, x as int, 4) == spec_surface_scan(
                    self.tiles@,
                    w,
                    h,
                    x as int,
                    y as int,
                ),
            decreases self.height - 4 - y,
        {
            let i = self.cell_index_of(x, y, 0);
            if self.tiles[i] != 0 {
                return y;
            }
            y += 1;
        }
        self.height
    }

    /// Decides whether column `sx` stamps a structure, and where.
    fn stamp_at(&self, sx: usize) -> (r: Option<(usize, bool)>)
        requires
            self.wf(),
            sx < self.width,
        ensures
            match r {
                Some(anchor) => spec_stamp_at(
                    self.tiles@,
                    self.width as int,
                    self.height as int,
                    sx as int,
                ) == Some((anchor.0 as int, anchor.1)),
                None => spec_stamp_at(
                    self.tiles@,
                    self.width as int,
                    self.height as int,
                    sx as int,
                ) is None,
            },
    {
        if self.height < 9 || sx < 4 || self.width < 5 || sx >= self.width - 4 || (sx % 25 != 10
            && sx % 25 != 20) {
            return None;
        }
        let ys = self.surface_scan(sx);
        if ys >= self.height - 4 {
            return None;
        }
        let i = self.cell_index_of(sx, ys, 0);
        if self.tiles[i] != 1 {
            return None;
        }
        if sx % 25 == 10 {
            let il = self.cell_index_of(sx - 1, ys, 0);
            let ir = self.cell_index_of(sx + 1, ys, 0);
            if self.tiles[il] == 1 && self.tiles[ir] == 1 {
                Some((ys, true))
            } else {
                None
            }
        } else {
            if ys >= 8 {
                Some((ys, false))
            } else {
                None
            }
        }
    }

    /// The decoration tile structure stamping leaves at `(gx, gy)`, if any.
    fn decoration_at(&self, gx: usize, gy: usize) -> (r: Option<u32>)
        requires
            self.wf(),
            gx < self.width,
            gy < self.height,
        ensures
            r == spec_decoration_at(
                self.tiles@,
                self.width as int,
                self.height as int,
                gx as int,
                gy as int,
            ),
    {
        let mut d: usize = 0;
        while d < 5
            invariant
                self.wf(),
                gx < self.width,
                gy < self.height,
                d <= 5,
                forall|sxi: int|
                    gx - 2 <= sxi < gx - 2 + d ==> #[trigger] spec_try_stamp(
                        self.tiles@,
                        self.width as int,
                        self.height as int,
                        sxi,
                        gx as int,
                        gy as int,
                    ) is None,
            decreases 5 - d,
        {
            let candidate: Option<usize> = if d < 2 {
                let back = 2 - d;
                if gx >= back {
                    Some(gx - back)
                } else {
                    None
                }
            } else {
                let off = d - 2;
                if off < self.width - gx {
                    Some(gx + off)
                } else {
                    None
                }
            };
            if let Some(sx) = candidate {
                match self.stamp_at(sx) {
                    Some(anchor) => {
                        let value: Option<u32> = if anchor.1 {
                            bush_tile(sx, anchor.0, gx, gy)
                        } else {
                            tree_tile(sx, anchor.0, gx, gy)
                        };
                        if value.is_some() {
                            return value;
                        }
                    },
                    None => {},
                }
            } else {
                proof {
                    let sxi = gx + d - 2;
                    if sxi < 0 || sxi >= self.width {
                        assert(spec_stamp_at(
                            self.tiles@,
                            self.width as int,
                            self.height as int,
                            sxi,
                        ) is None);
                    }
                }
            }
            d += 1;
        }
        None
    }

    /// Stamps every structure footprint into a fresh decoration layer and
    /// leaves every other layer as it is.
    fn place_structures(&mut self)
        requires
            old(self).wf(),
        ensures
            final(self).wf(),
            *final(self) == (TileMap { tiles: final(self).tiles, ..*old(self) }),
            final(self).tiles@ == spec_struct_pass(
                old(self).tiles@,
                old(self).width as int,
                old(self).height as int,
            ),
    {
        let ghost w = self.width as int;
        let ghost h = self.height as int;
        let ghost target = spec_struct_pass(old(self).tiles@, w, h);
        let len = self.tiles.len();
        let mut next: Vec<u32> = Vec::new();
        let mut i: usize = 0;
        let mut x: usize = 0;
        let mut y: usize = 0;
        let mut c: usize = 0;
        while i < len
            invariant
                self.wf(),
                *self == *old(self),
                w == self.width as int,
                h == self.height as int,
                target == spec_struct_pass(self.tiles@, w, h),
                target.len() == len,
                len == self.tiles@.len(),
                i <= len,
                c < 3,
                x < self.width,
                y <= self.height,
                i == cell_index(w, x as int, y as int, c as int),
                y < self.height || i == len,
                next@.len() == i,
                forall|j: int| 0 <= j < i ==> next@[j] == target[j],
            decreases len - i,
        {
            proof {
                lemma_cell_index_bounds(w, h, x as int, y as int, c as int);
                lemma_cell_index_decomp(w, h, x as int, y as int, c as int);
            }
            let value: u32;
            if c == 1 {
                match self.decoration_at(x, y) {
                    Some(id) => {
                        value = id;
                    },
                    None => {
                        let ii = self.cell_index_of(x, y, c);
                        value = self.tiles[ii];
                    },
                }
            } else {
                let ii = self.cell_index_of(x, y, c);
                value = self.tiles[ii];
            }
            next.push(value);
            i += 1;
            c += 1;
            if c == 3 {
                c = 0;
                x += 1;
                if x == self.width {
                    x = 0;
                    y += 1;
                    proof {
                        assert((y as int) * w == (y - 1) * w + w) by (nonlinear_arith);
                    }
                }
            }
            proof {
                if y < self.height {
                    lemma_cell_index_bounds(w, h, x as int, y as int, c as int);
                } else {
                    assert(h * w == w * h) by (nonlinear_arith);
                }
            }
        }
        self.tiles = next;
        proof {
            assert(self.tiles@ =~= target);
        }
    }
}

impl TileMap {
    /// Allocates a grid and, when a generator is given, runs generation on
    /// it at once, as the world's construction-time lifecycle demands.
    pub fn new_with_generator(
        width: usize,
        height: usize,
        world_generator: Option<&WorldGenerator>,
        samples: &NoiseSamples,
    ) -> (r: Result<TileMap, TileMapError>)
        requires
            match world_generator {
                Some(g) => g.wf() && samples.wf_for(width as int, height as int),
                None => true,
            },
        ensures
            r is Ok <==> (1 <= width && 1 <= height && width <= u32::MAX && height <= u32::MAX
                && width <= usize::MAX / 3 / height),
            r matches Ok(m) ==> m.wf() && m.width == width && m.height == height,
            world_generator is None ==> (r matches Ok(m) ==> (forall|i: int|
                0 <= i < m.tiles@.len() ==> m.tiles@[i] == 0u32)),
            world_generator matches Some(g) ==> (r matches Ok(m) ==> m.tiles@ == spec_struct_pass(
                spec_post_pass(
                    spec_terrain_tiles(*g, *samples, width as int, height as int),
                    width as int,
                    height as int,
                ),
                width as int,
                height as int,
            )),
    {
        let mut map = match TileMap::new(width, height) {
            Ok(map) => map,
            Err(error) => {
                return Err(error);
            },
        };
        if let Some(generator) = world_generator {
            let outcome = generator.generate_tile_map(&mut map, samples);
            if let Err(error) = outcome {
                return Err(error);
            }
        }
        Ok(map)
    }
}

impl WorldGenerator {
    /// Generates the world into a freshly allocated grid: noise-driven
    /// terrain with biome blending and cave carving, the auto-tiling
    /// normalization pass, structure stamping on the decoration layer,
    /// per-column sky-light heights, and seeded light relaxed over the
    /// whole grid for the fixed number of passes.
    pub fn generate_tile_map(&self, tile_map: &mut TileMap, samples: &NoiseSamples) -> (r: Result<
        (),
        TileMapError,
    >)
        requires
            old(tile_map).wf(),
            self.wf(),
            samples.wf_for(old(tile_map).width as int, old(tile_map).height as int),
            forall|i: int| 0 <= i < old(tile_map).tiles@.len() ==> old(tile_map).tiles@[i] == 0u32,
        ensures
            r is Ok,
            final(tile_map).wf(),
            final(tile_map).width == old(tile_map).width,
            final(tile_map).height == old(tile_map).height,
            final(tile_map).entity_lights@ == old(tile_map).entity_lights@,
            final(tile_map).mini_map == old(tile_map).mini_map,
            ({
                let w = old(tile_map).width as int;
                let h = old(tile_map).height as int;
                &&& final(tile_map).tiles@ == spec_struct_pass(
                    spec_post_pass(spec_terrain_tiles(*self, *samples, w, h), w, h),
                    w,
                    h,
                )
                &&& (forall|x: int|
                    0 <= x < w ==> #[trigger] final(tile_map).sky_light@[x] == spec_gen_sky(
                        *self,
                        *samples,
                        w,
                        h,
                        x,
                    ) as u32)
                &&& final(tile_map).lighting@ == crate::lighting::spec_relax_iter(
                    spec_seed_all(final(tile_map).tiles@, old(tile_map).lighting@, w),
                    w,
                    h,
                    crate::lighting::LightRegion {
                        x0: 0,
                        x1: old(tile_map).width,
                        y0: 0,
                        y1: old(tile_map).height,
                    },
                    crate::lighting::RELAX_PASSES as nat,
                )
            }),
    {
        let ghost w = tile_map.width as int;
        let ghost h = tile_map.height as int;
        self.place_terrain(tile_map, samples);
        proof {
            assert forall|i: int| 0 <= i < tile_map.tiles@.len() implies tile_map.tiles@[i]
                == spec_terrain_tiles(*self, *samples, w, h)[i] by {
                crate::grid_index::lemma_cell_index_recomp(w, h, i);
            }
            assert(tile_map.tiles@ =~= spec_terrain_tiles(*self, *samples, w, h));
        }
        self.normalize_edges(tile_map);
        tile_map.place_structures();
        self.seed_lights(tile_map);
        let full = crate::lighting::LightRegion {
            x0: 0,
            x1: tile_map.get_map_width(),
            y0: 0,
            y1: tile_map.get_map_height(),
        };
        tile_map.relax_light_region(full, crate::lighting::RELAX_PASSES);
        Ok(())
    }
}

/// The bush footprint lookup for grid cell `(gx, gy)` and anchor
/// `(sx, ys)`, as executable code.
fn bush_tile(sx: usize, ys: usize, gx: usize, gy: usize) -> (r: Option<u32>)
    requires
        sx <= u32::MAX,
        ys <= u32::MAX,
        gx <= u32::MAX,
        gy <= u32::MAX,
    ensures
        r == spec_bush_tile(gx - sx, gy - ys),
{
    let dx: i64 = gx as i64 - sx as i64;
    let dy: i64 = gy as i64 - ys as i64;
    if dy == -2 && dx == 0 {
        Some(73)
    } else if dy == -2 && dx == 1 {
        Some(74)
    } else if dy == -2 && dx == 2 {
        Some(75)
    } else if dy == -1 && dx == -1 {
        Some(78)
    } else if dy == -1 && dx == 0 {
        Some(79)
    } else if dy == -1 && dx == 1 {
        Some(80)
    } else if dy == -1 && dx == 2 {
        Some(81)
    } else if dy == 0 && dx == -1 {
        Some(84)
    } else if dy == 0 && dx == 0 {
        Some(85)
    } else if dy == 0 && dx == 1 {
        Some(86)
    } else if dy == 0 && dx == 2 {
        Some(87)
    } else {
        None
    }
}

/// The tree footprint lookup for grid cell `(gx, gy)` and anchor
/// `(sx, ys)`, as executable code.
fn tree_tile(sx: usize, ys: usize, gx: usize, gy: usize) -> (r: Option<u32>)
    requires
        sx <= u32::MAX,
        ys <= u32::MAX,
        gx <= u32::MAX,
        gy <= u32::MAX,
    ensures
        r == spec_tree_tile(gx - sx, gy - ys),
{
    let dx: i64 = gx as i64 - sx as i64;
    let dy: i64 = gy as i64 - ys as i64;
    if dy == -8 && -1 <= dx && dx <= 2 {
        Some((49 + dx) as u32)
    } else if dy == -7 && -2 <= dx && dx <= 2 {
        Some((54 + dx) as u32)
    } else if dy == -6 && -2 <= dx && dx <= 2 {
        Some((59 + dx) as u32)
    } else if dy == -5 && -1 <= dx && dx <= 2 {
        Some((63 + dx) as u32)
    } else if dy == -4 && -1 <= dx && dx <= 1 {
        Some((67 + dx) as u32)
    } else if dy == -3 && -1 <= dx && dx <= 1 {
        Some((70 + dx) as u32)
    } else if dy == -2 && dx == 0 {
        Some(72)
    } else if dy == -1 && 0 <= dx && dx <= 1 {
        Some((76 + dx) as u32)
    } else if dy == 0 && 0 <= dx && dx <= 1 {
        Some((82 + dx) as u32)
    } else {
        None
    }
}

/// The noise-blend selection as executable code.
fn biome_sel(b: i64) -> (r: (usize, usize, u32))
    ensures
        r.0 as int == spec_biome_sel(b as int).0,
        r.1 as int == spec_biome_sel(b as int).1,
        r.2 as int == spec_biome_sel(b as int).2,
        r.0 < 4,
        r.1 < 4,
        r.2 <= 10000,
{
    let scaled: u32 = (shifted(b) * 4) as u32;
    let main: usize = if scaled / 20000 > 3 {
        3
    } else {
        (scaled / 20000) as usize
    };
    let frac: u32 = scaled % 20000;
    if frac > 10000 {
        let extra: usize = if main + 1 > 3 {
            3
        } else {
            main + 1
        };
        (main, extra, frac - 10000)
    } else {
        let extra: usize = if main > 0 {
            main - 1
        } else {
            0
        };
        (main, extra, 10000 - frac)
    }
}

/// A noise sample clamped and shifted into `[0, 20000]`.
fn shifted(v: i64) -> (r: i64)
    ensures
        r == spec_shifted(v as int),
        0 <= r <= 20000,
{
    if v < -10000 {
        0
    } else if v > 10000 {
        20000
    } else {
        v + 10000
    }
}

/// The linear blend of two shifted samples.
fn blend(main: i64, extra: i64, weight: u32) -> (r: i64)
    requires
        0 <= main <= 40000,
        0 <= extra <= 40000,
        weight <= 10000,
    ensures
        r == spec_blend(main as int, extra as int, weight as int),
        0 <= r <= 40000,
{
    proof {
        assert(0 <= main * (weight as i64) + extra * (20000 - weight as i64) <= 40000 * 20000
            && (main * (weight as i64) + extra * (20000 - weight as i64)) / 20000 <= 40000)
            by (nonlinear_arith)
            requires
                0 <= main <= 40000,
                0 <= extra <= 40000,
                0 <= weight <= 10000,
        ;
    }
    (main * (weight as i64) + extra * (20000 - weight as i64)) / 20000
}

} // verus!
