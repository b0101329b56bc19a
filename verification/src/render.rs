//! The render-slice extractor: a camera-windowed read of the grid into a
//! bounded row-major buffer of cells, each carrying its three layer IDs and
//! a packed light value combining the baked light grid, every entity light's
//! falloff, and the on-demand sky-light contribution.

use vstd::prelude::*;

use crate::grid_index::{
    flat_index, lemma_flat_index_bounds, lemma_flat_index_decomp, lemma_flat_index_inj,
};
use crate::lighting::max_u8;
use crate::tile_map::{EntityLight, TileMap};

verus! {

/// Horizontal reach, in columns each side, of the sky-light sampling window.
pub const SKY_SAMPLE_RADIUS: usize = 10;

/// The clamped starting coordinate of the visible window: the camera tile
/// minus half the window, held inside `[0, limit]`.
pub open spec fn spec_slice_start(cam: int, visible: int, limit: int) -> int {
    let s = cam - visible / 2;
    if s < 0 {
        0
    } else if s > limit {
        limit
    } else {
        s
    }
}

/// The strength, in thousandths, with which an entity light reaches the
/// pixel `(px, py)`: its strength less the scaled squared distance, zero
/// outside a 100-pixel box around the source.
pub open spec fn spec_entity_strength(light: EntityLight, px: int, py: int) -> int {
    let dx = light.position.0 - px;
    let dy = light.position.1 - py;
    if dx > 100 || dx < -100 || dy > 100 || dy < -100 {
        0
    } else {
        let d = (dx * dx + dy * dy) / 4;
        if light.color.3 > d {
            light.color.3 - d
        } else {
            0
        }
    }
}

/// One channel of an entity light's contribution at `(px, py)`, capped at
/// full brightness.
pub open spec fn spec_entity_channel(light: EntityLight, px: int, py: int, c: int) -> u8 {
    let ch: u8 = if c == 0 {
        light.color.0
    } else if c == 1 {
        light.color.1
    } else {
        light.color.2
    };
    let v = ch * spec_entity_strength(light, px, py) / 1000;
    if v > 255 {
        255u8
    } else {
        v as u8
    }
}

/// `base` raised by the contributions of the first `k` entity lights.
pub open spec fn spec_entity_fold(
    lights: Seq<(String, EntityLight)>,
    k: int,
    base: u8,
    px: int,
    py: int,
    c: int,
) -> u8
    decreases k,
{
    if k <= 0 {
        base
    } else {
        max_u8(
            spec_entity_fold(lights, k - 1, base, px, py, c),
            spec_entity_channel(lights[k - 1].1, px, py, c),
        )
    }
}

/// The sky-light term one sampled column contributes to `(x, y)`: full
/// brightness at or above the column's surface fading out ten tiles below
/// it, lessened by a squared lateral falloff.
pub open spec fn spec_sky_term(sky: Seq<u32>, w: int, x: int, y: int, off: int) -> u8 {
    let sx = if x + off < 0 {
        0int
    } else if x + off > w - 1 {
        w - 1
    } else {
        x + off
    };
    let depth = if y > sky[sx] {
        y - sky[sx]
    } else {
        0int
    };
    let v = if depth >= 10 {
        0int
    } else {
        10 - depth
    };
    let base = v * 255 / 10;
    let fall = off * off * 255 / 100;
    if base > fall {
        (base - fall) as u8
    } else {
        0u8
    }
}

/// The largest sky-light term over the first `k` offsets of the sampling
/// window.
pub open spec fn spec_sky_fold(sky: Seq<u32>, w: int, x: int, y: int, k: int) -> u8
    decreases k,
{
    if k <= 0 {
        0u8
    } else {
        max_u8(
            spec_sky_fold(sky, w, x, y, k - 1),
            spec_sky_term(sky, w, x, y, k - 1 - SKY_SAMPLE_RADIUS as int),
        )
    }
}

/// The sky-light contribution at `(x, y)`: the maximum over the sampled
/// window of columns.
pub open spec fn spec_sky_light(sky: Seq<u32>, w: int, x: int, y: int) -> u8 {
    spec_sky_fold(sky, w, x, y, 2 * SKY_SAMPLE_RADIUS as int)
}

/// One channel of the final light of cell `(x, y)`: the baked grid value,
/// raised by every entity light, raised by the sky contribution.
pub open spec fn spec_cell_light(m: TileMap, x: int, y: int, c: int) -> u8 {
    let px = 8 * x + 4;
    let py = 8 * y + 4;
    max_u8(
        spec_entity_fold(
            m.entity_lights@,
            m.entity_lights@.len() as int,
            m.spec_light(x, y, c),
            px,
            py,
            c,
        ),
        spec_sky_light(m.sky_light@, m.width as int, x, y),
    )
}

/// The three final light channels of a cell packed into one word, eight bits
/// per channel.
pub open spec fn spec_packed_light(m: TileMap, x: int, y: int) -> u64 {
    (spec_cell_light(m, x, y, 0) + 256 * spec_cell_light(m, x, y, 1) + 65536 * spec_cell_light(
        m,
        x,
        y,
        2,
    )) as u64
}

/// The sum the mini-map accumulates for a cell of the slice.
pub open spec fn spec_cell_light_sum(m: TileMap, x: int, y: int) -> int {
    spec_cell_light(m, x, y, 0) + spec_cell_light(m, x, y, 1) + spec_cell_light(m, x, y, 2)
}

/// What one output cell of the slice holds.
pub open spec fn spec_slice_cell_ok(m: TileMap, cell: [u64; 4], x: int, y: int) -> bool {
    &&& cell@[0] == m.spec_tile(x, y, 0) as u64
    &&& cell@[1] == m.spec_tile(x, y, 1) as u64
    &&& cell@[2] == m.spec_tile(x, y, 2) as u64
    &&& cell@[3] == spec_packed_light(m, x, y)
}

/// What the mini-map accumulator holds at a cell after the slice visited (or
/// skipped) it.
pub open spec fn spec_mini_after(m: TileMap, visited: bool, gx: int, gy: int) -> u16 {
    let w = m.width as int;
    let stored = m.mini_map.lighting@[flat_index(w, gx, gy)];
    if visited {
        if spec_cell_light_sum(m, gx, gy) > stored {
            spec_cell_light_sum(m, gx, gy) as u16
        } else {
            stored
        }
    } else {
        stored
    }
}

impl TileMap {
    /// Extracts the visible window of the grid around the camera tile
    /// `(cam_tile_x, cam_tile_y)` as a row-major buffer, together with the
    /// clamped window size actually emitted. The buffer holds exactly
    /// `visible_size.0 * visible_size.1` cells; both dimensions are at most
    /// the requested window and at most the grid extent remaining from the
    /// clamped start, and a window empty on either axis reports (0, 0). As
    /// a side effect every visited cell's final light is folded into the
    /// mini-map accumulator.
    pub fn get_render_slice(
        &mut self,
        cam_tile_x: i64,
        cam_tile_y: i64,
        visible_width: usize,
        visible_height: usize,
    ) -> (r: (Vec<[u64; 4]>, (u32, u32)))
        requires
            old(self).wf(),
        ensures
            final(self).wf(),
            *final(self) == (TileMap { mini_map: final(self).mini_map, ..*old(self) }),
            ({
                let w = old(self).width as int;
                let h = old(self).height as int;
                let sx = spec_slice_start(cam_tile_x as int, visible_width as int, w);
                let sy = spec_slice_start(cam_tile_y as int, visible_height as int, h);
                let ex = if sx + visible_width < w {
                    sx + visible_width
                } else {
                    w
                };
                let ey = if sy + visible_height < h {
                    sy + visible_height
                } else {
                    h
                };
                // An empty window on either axis empties both reported
                // dimensions, so the caller's zero test catches it.
                &&& r.1.0 as int == (if sx == ex || sy == ey {
                    0int
                } else {
                    ex - sx
                })
                &&& r.1.1 as int == (if sx == ex || sy == ey {
                    0int
                } else {
                    ey - sy
                })
                &&& r.1.0 <= visible_width
                &&& r.1.1 <= visible_height
                &&& sx + r.1.0 <= w
                &&& sy + r.1.1 <= h
                &&& r.0@.len() == r.1.0 * r.1.1
                &&& (forall|k: int|
                    0 <= k < r.0@.len() ==> spec_slice_cell_ok(
                        *old(self),
                        #[trigger] r.0@[k],
                        sx + k % (ex - sx),
                        sy + k / (ex - sx),
                    ))
                &&& (forall|gx: int, gy: int|
                    0 <= gx < w && 0 <= gy < h ==> #[trigger] final(self).mini_map.lighting@[flat_index(
                        w,
                        gx,
                        gy,
                    )] == spec_mini_after(
                        *old(self),
                        sx <= gx < ex && sy <= gy < ey,
                        gx,
                        gy,
                    ))
            }),
    {
        let ghost w = self.width as int;
        let ghost h = self.height as int;
        let start_x = slice_start(cam_tile_x, visible_width, self.width);
        let start_y = slice_start(cam_tile_y, visible_height, self.height);
        let end_x = if visible_width < self.width - start_x {
            start_x + visible_width
        } else {
            self.width
        };
        let end_y = if visible_height < self.height - start_y {
            start_y + visible_height
        } else {
            self.height
        };
        let cols = end_x - start_x;
        let rows = end_y - start_y;
        if cols == 0 || rows == 0 {
            return (Vec::new(), (0, 0));
        }
        let mut out: Vec<[u64; 4]> = Vec::new();
        let mut y = start_y;
        while y < end_y
            invariant
                self.wf(),
                *self == (TileMap { mini_map: self.mini_map, ..*old(self) }),
                w == self.width as int,
                h == self.height as int,
                start_x <= end_x <= self.width,
                start_y <= end_y <= self.height,
                cols == end_x - start_x,
                rows == end_y - start_y,
                start_y <= y <= end_y,
                out@.len() == (y - start_y) * cols,
                forall|k: int|
                    0 <= k < out@.len() ==> spec_slice_cell_ok(
                        *old(self),
                        #[trigger] out@[k],
                        start_x + k % (cols as int),
                        start_y + k / (cols as int),
                    ),
                forall|gx: int, gy: int|
                    0 <= gx < w && 0 <= gy < h ==> #[trigger] self.mini_map.lighting@[flat_index(
                        w,
                        gx,
                        gy,
                    )] == spec_mini_after(
                        *old(self),
                        start_x <= gx < end_x && start_y <= gy < y,
                        gx,
                        gy,
                    ),
            decreases end_y - y,
        {
            let mut x = start_x;
            while x < end_x
                invariant
                    self.wf(),
                    *self == (TileMap { mini_map: self.mini_map, ..*old(self) }),
                    w == self.width as int,
                    h == self.height as int,
                    start_x <= end_x <= self.width,
                    start_y <= y < end_y <= self.height,
                    cols == end_x - start_x,
                    start_x <= x <= end_x,
                    out@.len() == (y - start_y) * cols + (x - start_x),
                    forall|k: int|
                        0 <= k < out@.len() ==> spec_slice_cell_ok(
                            *old(self),
                            #[trigger] out@[k],
                            start_x + k % (cols as int),
                            start_y + k / (cols as int),
                        ),
                    forall|gx: int, gy: int|
                        0 <= gx < w && 0 <= gy < h ==> #[trigger] self.mini_map.lighting@[flat_index(
                            w,
                            gx,
                            gy,
                        )] == spec_mini_after(
                            *old(self),
                            (start_x <= gx < end_x && start_y <= gy < y) || (gy == y && start_x
                                <= gx < x),
                            gx,
                            gy,
                        ),
                decreases end_x - x,
            {
                let light = self.final_cell_light(x, y);
                let ghost mini_before = self.mini_map.lighting@;
                self.mini_map.update_light_value(light, x, y);
                proof {
                    lemma_flat_index_bounds(w, h, x as int, y as int);
                    assert forall|gx: int, gy: int|
                        0 <= gx < w && 0 <= gy < h implies #[trigger] self.mini_map.lighting@[flat_index(
                        w,
                        gx,
                        gy,
                    )] == spec_mini_after(
                        *old(self),
                        (start_x <= gx < end_x && start_y <= gy < y) || (gy == y && start_x <= gx
                            < x + 1),
                        gx,
                        gy,
                    ) by {
                        lemma_flat_index_bounds(w, h, gx, gy);
                        if gx != x as int || gy != y as int {
                            lemma_flat_index_inj(w, h, gx, gy, x as int, y as int);
                        }
                    }
                }
                let i0 = self.cell_index_of(x, y, 0);
                let i1 = self.cell_index_of(x, y, 1);
                let i2 = self.cell_index_of(x, y, 2);
                let packed: u64 = light[0] as u64 + 256 * (light[1] as u64) + 65536 * (
                light[2] as u64);
                let cell: [u64; 4] = [
                    self.tiles[i0] as u64,
                    self.tiles[i1] as u64,
                    self.tiles[i2] as u64,
                    packed,
                ];
                out.push(cell);
                proof {
                    let k0 = (y - start_y) * (cols as int) + (x - start_x);
                    lemma_flat_index_decomp(cols as int, x - start_x, y - start_y);
                    assert(k0 % (cols as int) == x - start_x && k0 / (cols as int) == y - start_y);
                    assert(spec_slice_cell_ok(*old(self), out@[k0], x as int, y as int));
                }
                x += 1;
            }
            proof {
                assert((y - start_y) * cols + cols == (y + 1 - start_y) * cols) by (nonlinear_arith);
            }
            y += 1;
        }
        proof {
            assert(out@.len() == (cols as int) * (rows as int)) by (nonlinear_arith)
                requires
                    out@.len() == (rows as int) * (cols as int),
            ;
        }
        (out, (cols as u32, rows as u32))
    }

    /// The final light of cell `(x, y)`: baked light raised by every entity
    /// light and by the sky contribution, channel by channel.
    fn final_cell_light(&self, x: usize, y: usize) -> (r: [u8; 3])
        requires
            self.wf(),
            x < self.width,
            y < self.height,
        ensures
            r@[0] == spec_cell_light(*self, x as int, y as int, 0),
            r@[1] == spec_cell_light(*self, x as int, y as int, 1),
            r@[2] == spec_cell_light(*self, x as int, y as int, 2),
    {
        let px: i64 = 8 * (x as i64) + 4;
        let py: i64 = 8 * (y as i64) + 4;
        let c0 = self.one_channel_light(x, y, 0, px, py);
        let c1 = self.one_channel_light(x, y, 1, px, py);
        let c2 = self.one_channel_light(x, y, 2, px, py);
        [c0, c1, c2]
    }

    /// One channel of the final light of cell `(x, y)`.
    fn one_channel_light(&self, x: usize, y: usize, c: usize, px: i64, py: i64) -> (r: u8)
        requires
            self.wf(),
            x < self.width,
            y < self.height,
            c < 3,
            px == 8 * (x as int) + 4,
            py == 8 * (y as int) + 4,
        ensures
            r == spec_cell_light(*self, x as int, y as int, c as int),
    {
        let base = self.get_light(x, y, c);
        let mut v = base;
        let n = self.entity_lights.len();
        let mut k: usize = 0;
        while k < n
            invariant
                self.wf(),
                x < self.width,
                y < self.height,
                c < 3,
                n == self.entity_lights@.len(),
                k <= n,
                base == self.spec_light(x as int, y as int, c as int),
                px == 8 * (x as int) + 4,
                py == 8 * (y as int) + 4,
                v == spec_entity_fold(
                    self.entity_lights@,
                    k as int,
                    base,
                    px as int,
                    py as int,
                    c as int,
                ),
            decreases n - k,
        {
            let reach = entity_channel(&self.entity_lights[k].1, px, py, c);
            if reach > v {
                v = reach;
            }
            k += 1;
        }
        let sky = self.sky_contribution(x, y);
        if sky > v {
            v = sky;
        }
        v
    }

    /// The sky-light contribution at `(x, y)`, sampled over the window of
    /// nearby columns.
    fn sky_contribution(&self, x: usize, y: usize) -> (r: u8)
        requires
            self.wf(),
            x < self.width,
            y < self.height,
        ensures
            r == spec_sky_light(self.sky_light@, self.width as int, x as int, y as int),
    {
        let mut best: u8 = 0;
        let mut k: usize = 0;
        while k < 2 * SKY_SAMPLE_RADIUS
            invariant
                self.wf(),
                x < self.width,
                y < self.height,
                k <= 2 * SKY_SAMPLE_RADIUS,
                best == spec_sky_fold(
                    self.sky_light@,
                    self.width as int,
                    x as int,
                    y as int,
                    k as int,
                ),
            decreases 2 * SKY_SAMPLE_RADIUS - k,
        {
            let ghost off_spec = k as int - SKY_SAMPLE_RADIUS as int;
            let d_abs: usize = if k < SKY_SAMPLE_RADIUS {
                SKY_SAMPLE_RADIUS - k
            } else {
                k - SKY_SAMPLE_RADIUS
            };
            let sx: usize = if k < SKY_SAMPLE_RADIUS {
                if x > d_abs {
                    x - d_abs
                } else {
                    0
                }
            } else {
                if d_abs < self.width - x {
                    x + d_abs
                } else {
                    self.width - 1
                }
            };
            let sky = self.sky_light[sx];
            let depth: usize = if y > sky as usize {
                y - sky as usize
            } else {
                0
            };
            let v: usize = if depth >= 10 {
                0
            } else {
                10 - depth
            };
            let base: usize = v * 255 / 10;
            proof {
                assert(d_abs * d_abs <= 100) by (nonlinear_arith)
                    requires
                        d_abs <= 10,
                ;
            }
            let fall: usize = d_abs * d_abs * 255 / 100;
            let term: u8 = if base > fall {
                (base - fall) as u8
            } else {
                0
            };
            proof {
                assert(off_spec * off_spec == (d_abs as int) * (d_abs as int)) by (nonlinear_arith)
                    requires
                        off_spec == -(d_abs as int) || off_spec == d_abs as int,
                ;
                assert(term == spec_sky_term(
                    self.sky_light@,
                    self.width as int,
                    x as int,
                    y as int,
                    off_spec,
                ));
            }
            if term > best {
                best = term;
            }
            k += 1;
        }
        best
    }
}

/// One channel of an entity light's contribution at the pixel `(px, py)`.
fn entity_channel(light: &EntityLight, px: i64, py: i64, c: usize) -> (r: u8)
    requires
        c < 3,
    ensures
        r == spec_entity_channel(*light, px as int, py as int, c as int),
{
    let dx128: i128 = light.position.0 as i128 - px as i128;
    let dy128: i128 = light.position.1 as i128 - py as i128;
    let strength: u32;
    if dx128 > 100 || dx128 < -100 || dy128 > 100 || dy128 < -100 {
        strength = 0;
    } else {
        let dx = dx128 as i64;
        let dy = dy128 as i64;
        proof {
            assert(0 <= dx * dx <= 10000 && 0 <= dy * dy <= 10000 && 0 <= dx * dx + dy * dy
                <= 20000) by (nonlinear_arith)
                requires
                    -100 <= dx <= 100,
                    -100 <= dy <= 100,
            ;
        }
        let d = ((dx * dx + dy * dy) / 4) as u32;
        strength = if light.color.3 > d {
            light.color.3 - d
        } else {
            0
        };
    }
    let ch: u8 = if c == 0 {
        light.color.0
    } else if c == 1 {
        light.color.1
    } else {
        light.color.2
    };
    proof {
        assert((ch as int) * (strength as int) <= 255 * 0xFFFF_FFFF) by (nonlinear_arith)
            requires
                0 <= ch <= 255,
                0 <= strength <= 0xFFFF_FFFF,
        ;
    }
    let v: u64 = (ch as u64) * (strength as u64) / 1000;
    if v > 255 {
        255
    } else {
        v as u8
    }
}

/// The clamped starting coordinate of the visible window along one axis.
fn slice_start(cam: i64, visible: usize, limit: usize) -> (r: usize)
    requires
        limit <= u32::MAX,
    ensures
        r == spec_slice_start(cam as int, visible as int, limit as int),
{
    let s: i128 = cam as i128 - (visible as i128) / 2;
    if s < 0 {
        0
    } else if s > limit as i128 {
        limit
    } else {
        s as usize
    }
}

} // verus!
