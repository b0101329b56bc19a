//! The authoritative tile grid: three tile layers and a light grid in flat
//! row-major buffers, per-column sky-light heights, and named entity lights.

use vstd::prelude::*;

use crate::errors::TileMapError;
use crate::grid_index::{cell_index, lemma_cell_index_bounds};
use crate::mini_map::MiniMap;
use vstd::string::StringSliceAdditionalSpecFns;

verus! {

/// A named moving light source. The position is in sub-tile pixel units
/// (8 per tile); the color carries a strength in thousandths.
pub struct EntityLight {
    pub position: (i64, i64),
    pub color: (u8, u8, u8, u32),
}

impl EntityLight {
    pub fn new(position: (i64, i64), color: (u8, u8, u8, u32)) -> (r: EntityLight)
        ensures
            r.position == position,
            r.color == color,
    {
        EntityLight { position, color }
    }
}

/// The tile grid. `tiles` and `lighting` are row-major, three entries per
/// cell: `(y * width + x) * 3 + layer` (or `+ channel` for the light grid).
pub struct TileMap {
    pub width: usize,
    pub height: usize,
    pub tiles: Vec<u32>,
    pub lighting: Vec<u8>,
    pub sky_light: Vec<u32>,
    pub entity_lights: Vec<(String, EntityLight)>,
    pub mini_map: MiniMap,
}

impl TileMap {
    /// Well-formedness: fixed non-empty dimensions, matching buffer lengths,
    /// and sky-light heights never beyond the grid height.
    pub open spec fn wf(self) -> bool {
        &&& 1 <= self.width
        &&& 1 <= self.height
        &&& self.width <= u32::MAX
        &&& self.height <= u32::MAX
        &&& 3 * (self.width * self.height) <= usize::MAX
        &&& self.tiles@.len() == 3 * (self.width * self.height)
        &&& self.lighting@.len() == 3 * (self.width * self.height)
        &&& self.sky_light@.len() == self.width
        &&& (forall|x: int|
            0 <= x < self.width ==> #[trigger] self.sky_light@[x] <= self.height)
        &&& self.mini_map.wf()
        &&& self.mini_map.map_width == self.width
        &&& self.mini_map.map_height == self.height
    }

    pub open spec fn in_bounds(self, x: int, y: int) -> bool {
        0 <= x < self.width && 0 <= y < self.height
    }

    /// The tile stored at `(x, y)` on `layer`; only meaningful in bounds.
    pub open spec fn spec_tile(self, x: int, y: int, layer: int) -> u32 {
        self.tiles@[cell_index(self.width as int, x, y, layer)]
    }

    /// The bounds-checked tile read: out-of-range coordinates read as empty.
    pub open spec fn spec_tile_or_empty(self, x: int, y: int, layer: int) -> u32 {
        if self.in_bounds(x, y) && 0 <= layer < 3 {
            self.spec_tile(x, y, layer)
        } else {
            0u32
        }
    }

    /// One channel of the baked light at `(x, y)`.
    pub open spec fn spec_light(self, x: int, y: int, channel: int) -> u8 {
        self.lighting@[cell_index(self.width as int, x, y, channel)]
    }

    /// Two grids have the same shape when their dimensions agree.
    pub open spec fn same_shape(self, other: TileMap) -> bool {
        self.width == other.width && self.height == other.height
    }

    /// A fresh grid of empty tiles, fully dark, with every column's sky-light
    /// height at the grid height. Fails exactly when a dimension is zero or
    /// the cell count does not fit the machine.
    pub fn new(width: usize, height: usize) -> (r: Result<TileMap, TileMapError>)
        ensures
            r is Ok <==> (1 <= width && 1 <= height && width <= u32::MAX && height <= u32::MAX
                && width <= usize::MAX / 3 / height),
            r matches Ok(m) ==> {
                &&& m.wf()
                &&& m.width == width
                &&& m.height == height
                &&& (forall|i: int| 0 <= i < m.tiles@.len() ==> m.tiles@[i] == 0u32)
                &&& (forall|i: int| 0 <= i < m.lighting@.len() ==> m.lighting@[i] == 0u8)
                &&& (forall|x: int|
                    0 <= x < width ==> #[trigger] m.sky_light@[x] == height as u32)
                &&& m.entity_lights@.len() == 0
                &&& (forall|i: int|
                    0 <= i < m.mini_map.lighting@.len() ==> m.mini_map.lighting@[i] == 0u16)
            },
    {
        if width == 0 || height == 0 || width > u32::MAX as usize || height > u32::MAX as usize
            || width > usize::MAX / 3 / height {
            return Err(
                TileMapError {
                    message: String::from_str("tile map dimensions are empty or too large"),
                    level: crate::errors::LoggingError::Error,
                },
            );
        }
        proof {
            assert(3 * (width * height) <= usize::MAX) by (nonlinear_arith)
                requires
                    1 <= height,
                    width <= usize::MAX / 3 / height,
            ;
        }
        let cells = width * height;
        let len = 3 * cells;
        let mut tiles: Vec<u32> = Vec::new();
        let mut i: usize = 0;
        while i < len
            invariant
                i <= len,
                tiles@.len() == i,
                forall|j: int| 0 <= j < i ==> tiles@[j] == 0u32,
            decreases len - i,
        {
            tiles.push(0);
            i += 1;
        }
        let mut lighting: Vec<u8> = Vec::new();
        let mut i: usize = 0;
        while i < len
            invariant
                i <= len,
                lighting@.len() == i,
                forall|j: int| 0 <= j < i ==> lighting@[j] == 0u8,
            decreases len - i,
        {
            lighting.push(0);
            i += 1;
        }
        let mut sky_light: Vec<u32> = Vec::new();
        let mut i: usize = 0;
        while i < width
            invariant
                i <= width,
                height <= u32::MAX,
                sky_light@.len() == i,
                forall|j: int| 0 <= j < i ==> #[trigger] sky_light@[j] == height as u32,
            decreases width - i,
        {
            sky_light.push(height as u32);
            i += 1;
        }
        proof {
            assert(width * height <= usize::MAX) by (nonlinear_arith)
                requires
                    3 * (width * height) <= usize::MAX,
                    1 <= width,
                    1 <= height,
            ;
        }
        let mini_map = MiniMap::new(width, height);
        Ok(TileMap { width, height, tiles, lighting, sky_light, entity_lights: Vec::new(), mini_map })
    }

    /// The flat buffer index of `(x, y, layer)`.
    #[inline]
    pub fn cell_index_of(&self, x: usize, y: usize, layer: usize) -> (i: usize)
        requires
            self.wf(),
            x < self.width,
            y < self.height,
            layer < 3,
        ensures
            i == cell_index(self.width as int, x as int, y as int, layer as int),
            i < self.tiles@.len(),
            i < self.lighting@.len(),
    {
        proof {
            lemma_cell_index_bounds(
                self.width as int,
                self.height as int,
                x as int,
                y as int,
                layer as int,
            );
        }
        (y * self.width + x) * 3 + layer
    }

    /// Bounds-checked tile read: returns the empty tile for any coordinate or
    /// layer outside the grid, and never fails.
    pub fn get_tile(&self, x: usize, y: usize, layer: usize) -> (r: u32)
        requires
            self.wf(),
        ensures
            r == self.spec_tile_or_empty(x as int, y as int, layer as int),
    {
        if y >= self.height || x >= self.width || layer >= 3 {
            return 0;
        }
        let i = self.cell_index_of(x, y, layer);
        self.tiles[i]
    }

    /// Writes one tile layer; coordinates must be in bounds.
    pub fn set_tile(&mut self, x: usize, y: usize, layer: usize, id: u32)
        requires
            old(self).wf(),
            x < old(self).width,
            y < old(self).height,
            layer < 3,
        ensures
            final(self).wf(),
            *final(self) == (TileMap {
                tiles: final(self).tiles,
                ..*old(self)
            }),
            final(self).tiles@ == old(self).tiles@.update(
                cell_index(old(self).width as int, x as int, y as int, layer as int),
                id,
            ),
    {
        let i = self.cell_index_of(x, y, layer);
        self.tiles.set(i, id);
    }

    /// A mutable borrow of one tile layer; bounds are the caller's
    /// responsibility.
    pub fn get_tile_mut(&mut self, x: usize, y: usize, layer: usize) -> (r: &mut u32)
        requires
            old(self).wf(),
            x < old(self).width,
            y < old(self).height,
            layer < 3,
        ensures
            *r == old(self).spec_tile(x as int, y as int, layer as int),
            final(self).wf(),
            *final(self) == (TileMap { tiles: final(self).tiles, ..*old(self) }),
            final(self).tiles@ == old(self).tiles@.update(
                cell_index(old(self).width as int, x as int, y as int, layer as int),
                *final(r),
            ),
    {
        let i = self.cell_index_of(x, y, layer);
        &mut self.tiles[i]
    }

    /// Reads one light channel; coordinates must be in bounds.
    pub fn get_light(&self, x: usize, y: usize, channel: usize) -> (r: u8)
        requires
            self.wf(),
            x < self.width,
            y < self.height,
            channel < 3,
        ensures
            r == self.spec_light(x as int, y as int, channel as int),
    {
        let i = self.cell_index_of(x, y, channel);
        self.lighting[i]
    }

    /// Writes all three channels of one light cell.
    pub fn set_light(&mut self, x: usize, y: usize, color: [u8; 3])
        requires
            old(self).wf(),
            x < old(self).width,
            y < old(self).height,
        ensures
            final(self).wf(),
            *final(self) == (TileMap {
                lighting: final(self).lighting,
                ..*old(self)
            }),
            final(self).lighting@ == old(self).lighting@.update(
                cell_index(old(self).width as int, x as int, y as int, 0),
                color@[0],
            ).update(
                cell_index(old(self).width as int, x as int, y as int, 1),
                color@[1],
            ).update(
                cell_index(old(self).width as int, x as int, y as int, 2),
                color@[2],
            ),
    {
        let i0 = self.cell_index_of(x, y, 0);
        let i1 = self.cell_index_of(x, y, 1);
        let i2 = self.cell_index_of(x, y, 2);
        self.lighting.set(i0, color[0]);
        self.lighting.set(i1, color[1]);
        self.lighting.set(i2, color[2]);
    }

    pub fn get_map_width(&self) -> (r: usize)
        ensures
            r == self.width,
    {
        self.width
    }

    pub fn get_map_height(&self) -> (r: usize)
        ensures
            r == self.height,
    {
        self.height
    }

    /// The recorded sky-light height of column `x` (the grid height for an
    /// out-of-range column).
    pub fn get_sky_light(&self, x: usize) -> (r: u32)
        requires
            self.wf(),
        ensures
            r == if 0 <= x < self.width {
                self.sky_light@[x as int]
            } else {
                self.height as u32
            },
    {
        if x < self.width {
            self.sky_light[x]
        } else {
            self.height as u32
        }
    }

    /// Registers a named entity light: insert-or-no-op. A name already
    /// registered keeps its existing light unchanged, so no name's light is
    /// ever in the list twice and the render slice never double-counts one.
    pub fn add_entity_light(&mut self, name: String, position: (i64, i64), color: (u8, u8, u8, u32))
        ensures
            *final(self) == (TileMap {
                entity_lights: final(self).entity_lights,
                ..*old(self)
            }),
            (exists|i: int|
                0 <= i < old(self).entity_lights@.len() && #[trigger] old(
                    self,
                ).entity_lights@[i].0@ == name@) ==> final(self).entity_lights@ == old(
                self,
            ).entity_lights@,
            !(exists|i: int|
                0 <= i < old(self).entity_lights@.len() && #[trigger] old(
                    self,
                ).entity_lights@[i].0@ == name@) ==> final(self).entity_lights@ == old(
                self,
            ).entity_lights@.push((name, (EntityLight { position, color }))),
    {
        let n = self.entity_lights.len();
        let mut i: usize = 0;
        while i < n
            invariant
                n == self.entity_lights@.len(),
                i <= n,
                *self == *old(self),
                forall|j: int| 0 <= j < i ==> #[trigger] self.entity_lights@[j].0@ != name@,
            decreases n - i,
        {
            if str_eq(self.entity_lights[i].0.as_str(), name.as_str()) {
                return ;
            }
            i += 1;
        }
        self.entity_lights.push((name, EntityLight::new(position, color)));
    }

    /// Replaces the first entity light registered under `name`; a no-op when
    /// the name is unknown (a documented design choice, not an error).
    pub fn update_entity_light(&mut self, name: &str, position: (i64, i64), color: (u8, u8, u8, u32))
        ensures
            *final(self) == (TileMap {
                entity_lights: final(self).entity_lights,
                ..*old(self)
            }),
            final(self).entity_lights@.len() == old(self).entity_lights@.len(),
            (exists|i: int|
                0 <= i < old(self).entity_lights@.len() && #[trigger] old(
                    self,
                ).entity_lights@[i].0@ == name@) ==> {
                let i = first_light_named(old(self).entity_lights@, name@);
                final(self).entity_lights@ == old(self).entity_lights@.update(
                    i,
                    (old(self).entity_lights@[i].0, (EntityLight { position, color })),
                )
            },
            !(exists|i: int|
                0 <= i < old(self).entity_lights@.len() && #[trigger] old(
                    self,
                ).entity_lights@[i].0@ == name@) ==> final(self).entity_lights@ == old(
                self,
            ).entity_lights@,
    {
        let n = self.entity_lights.len();
        let mut i: usize = 0;
        while i < n
            invariant
                n == self.entity_lights@.len(),
                i <= n,
                *self == (TileMap { entity_lights: self.entity_lights, ..*old(self) }),
                self.entity_lights@ == old(self).entity_lights@,
                forall|j: int| 0 <= j < i ==> #[trigger] self.entity_lights@[j].0@ != name@,
            decreases n - i,
        {
            if str_eq(self.entity_lights[i].0.as_str(), name) {
                proof {
                    lemma_first_light_named(old(self).entity_lights@, name@, i as int);
                }
                let nm = self.entity_lights[i].0.clone();
                self.entity_lights.set(i, (nm, EntityLight::new(position, color)));
                return ;
            }
            i += 1;
        }
    }
}

/// Whether two string slices read the same characters, decided by their
/// byte representations.
pub fn str_eq(a: &str, b: &str) -> (r: bool)
    ensures
        r == (a@ == b@),
{
    proof {
        vstd::utf8::encode_utf8_decode_utf8(a@);
        vstd::utf8::encode_utf8_decode_utf8(b@);
    }
    let ab = a.as_bytes();
    let bb = b.as_bytes();
    if ab.len() != bb.len() {
        proof {
            assert(a@ != b@);
        }
        return false;
    }
    let n = ab.len();
    let mut i: usize = 0;
    while i < n
        invariant
            n == ab@.len(),
            n == bb@.len(),
            ab@ == a.spec_bytes(),
            bb@ == b.spec_bytes(),
            i <= n,
            forall|j: int| 0 <= j < i ==> ab@[j] == bb@[j],
        decreases n - i,
    {
        if ab[i] != bb[i] {
            proof {
                assert(a.spec_bytes() != b.spec_bytes());
                assert(a@ != b@);
            }
            return false;
        }
        i += 1;
    }
    proof {
        assert(ab@ =~= bb@);
        assert(vstd::utf8::decode_utf8(a.spec_bytes()) == vstd::utf8::decode_utf8(
            b.spec_bytes(),
        ));
    }
    true
}

/// The index of the first entity light whose name reads `name`.
pub open spec fn first_light_named(lights: Seq<(String, EntityLight)>, name: Seq<char>) -> int {
    choose|i: int|
        0 <= i < lights.len() && lights[i].0@ == name && (forall|j: int|
            0 <= j < i ==> #[trigger] lights[j].0@ != name)
}

proof fn lemma_first_light_named(lights: Seq<(String, EntityLight)>, name: Seq<char>, i: int)
    requires
        0 <= i < lights.len(),
        lights[i].0@ == name,
        forall|j: int| 0 <= j < i ==> #[trigger] lights[j].0@ != name,
    ensures
        first_light_named(lights, name) == i,
{
    let w = first_light_named(lights, name);
    assert(0 <= w < lights.len() && lights[w].0@ == name && (forall|j: int|
        0 <= j < w ==> #[trigger] lights[j].0@ != name)) by {
        assert(0 <= i < lights.len() && lights[i].0@ == name && (forall|j: int|
            0 <= j < i ==> #[trigger] lights[j].0@ != name));
    }
    if w < i {
        assert(lights[w].0@ != name);
    }
    if i < w {
        assert(lights[i].0@ != name);
    }
}

} // verus!
