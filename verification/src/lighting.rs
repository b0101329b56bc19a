//! The light-diffusion solver: a fixed number of relaxation passes over a
//! rectangular window. Each pass raises every cell of the window to the
//! per-channel maximum of itself and its four neighbors less a fixed decay,
//! so one pass carries light exactly one cell further.

use vstd::prelude::*;

use crate::grid_index::{
    cell_index, chan_of, col_of, lemma_cell_index_bounds, lemma_cell_index_decomp,
    lemma_cell_index_recomp, row_of,
};
use crate::tile_map::TileMap;

verus! {

/// Light lost per cell of propagation, out of 255.
pub const LIGHT_DECAY: u8 = 25;

/// How many relaxation passes follow a light edit; bounds the propagation
/// distance of any source.
pub const RELAX_PASSES: usize = 16;

/// A half-open cell window `[x0, x1) x [y0, y1)`, already clamped to a grid.
#[derive(Clone, Copy, PartialEq, Eq, Structural, Debug)]
pub struct LightRegion {
    pub x0: usize,
    pub x1: usize,
    pub y0: usize,
    pub y1: usize,
}

pub open spec fn in_region(reg: LightRegion, x: int, y: int) -> bool {
    reg.x0 <= x < reg.x1 && reg.y0 <= y < reg.y1
}

/// A light value one propagation step away: the stored value less the decay,
/// floored at zero.
pub open spec fn spec_decayed(v: u8) -> u8 {
    if v >= LIGHT_DECAY {
        (v - LIGHT_DECAY) as u8
    } else {
        0u8
    }
}

pub open spec fn max_u8(a: u8, b: u8) -> u8 {
    if a >= b {
        a
    } else {
        b
    }
}

/// What one relaxation pass writes into channel `c` of cell `(x, y)`: the
/// maximum of the cell's own value and each orthogonal neighbor's decayed
/// value, neighbors clamped to the grid edge.
pub open spec fn spec_relaxed_cell(l: Seq<u8>, w: int, h: int, x: int, y: int, c: int) -> u8 {
    let own = l[cell_index(w, x, y, c)];
    let lf = spec_decayed(l[cell_index(w, if x == 0 { 0int } else { x - 1 }, y, c)]);
    let rt = spec_decayed(l[cell_index(w, if x + 1 < w { x + 1 } else { w - 1 }, y, c)]);
    let up = spec_decayed(l[cell_index(w, x, if y == 0 { 0int } else { y - 1 }, c)]);
    let dn = spec_decayed(l[cell_index(w, x, if y + 1 < h { y + 1 } else { h - 1 }, c)]);
    max_u8(own, max_u8(lf, max_u8(rt, max_u8(up, dn))))
}

/// One full relaxation pass: cells inside the window take their relaxed
/// value, cells outside keep theirs.
pub open spec fn spec_relax_pass(l: Seq<u8>, w: int, h: int, reg: LightRegion) -> Seq<u8> {
    Seq::new(
        l.len(),
        |i: int|
            if in_region(reg, col_of(w, i), row_of(w, i)) {
                spec_relaxed_cell(l, w, h, col_of(w, i), row_of(w, i), chan_of(i))
            } else {
                l[i]
            },
    )
}

/// `k` relaxation passes in sequence.
pub open spec fn spec_relax_iter(l: Seq<u8>, w: int, h: int, reg: LightRegion, k: nat) -> Seq<u8>
    decreases k,
{
    if k == 0 {
        l
    } else {
        spec_relax_pass(spec_relax_iter(l, w, h, reg, (k - 1) as nat), w, h, reg)
    }
}

/// What a pass writes at the index of a given cell and channel.
pub proof fn lemma_relax_pass_at(l: Seq<u8>, w: int, h: int, reg: LightRegion, x: int, y: int, c: int)
    requires
        1 <= w,
        1 <= h,
        l.len() == 3 * (w * h),
        0 <= x < w,
        0 <= y < h,
        0 <= c < 3,
    ensures
        spec_relax_pass(l, w, h, reg)[cell_index(w, x, y, c)] == if in_region(reg, x, y) {
            spec_relaxed_cell(l, w, h, x, y, c)
        } else {
            l[cell_index(w, x, y, c)]
        },
{
    lemma_cell_index_bounds(w, h, x, y, c);
    lemma_cell_index_decomp(w, h, x, y, c);
}

/// One relaxation pass never lowers any stored light value.
///
/// This is the single-pass form of the law that relaxation is monotone: for
/// every buffer position, the value after the pass is at least the value
/// before it.
pub proof fn lemma_relax_pass_monotone(l: Seq<u8>, w: int, h: int, reg: LightRegion)
    requires
        1 <= w,
        1 <= h,
        l.len() == 3 * (w * h),
    ensures
        spec_relax_pass(l, w, h, reg).len() == l.len(),
        forall|i: int| 0 <= i < l.len() ==> #[trigger] spec_relax_pass(l, w, h, reg)[i] >= l[i],
{
    assert forall|i: int| 0 <= i < l.len() implies #[trigger] spec_relax_pass(l, w, h, reg)[i]
        >= l[i] by {
        lemma_cell_index_recomp(w, h, i);
    }
}

/// Any number of relaxation passes never lowers any stored light value.
///
/// This is the law of relaxation monotonicity: after any number of passes,
/// no cell's light channel has decreased relative to its value before them.
pub proof fn lemma_relax_iter_monotone(l: Seq<u8>, w: int, h: int, reg: LightRegion, k: nat)
    requires
        1 <= w,
        1 <= h,
        l.len() == 3 * (w * h),
    ensures
        spec_relax_iter(l, w, h, reg, k).len() == l.len(),
        forall|i: int|
            0 <= i < l.len() ==> #[trigger] spec_relax_iter(l, w, h, reg, k)[i] >= l[i],
    decreases k,
{
    if k > 0 {
        lemma_relax_iter_monotone(l, w, h, reg, (k - 1) as nat);
        lemma_relax_pass_monotone(spec_relax_iter(l, w, h, reg, (k - 1) as nat), w, h, reg);
    }
}

/// Relaxation never lifts any value above the brightest value present.
///
/// This is the upper-bound half of the convergence law: light spreads and
/// decays, it is never amplified, so every cell stays bounded by the
/// brightest source anywhere in the buffer.
pub proof fn lemma_relax_iter_bounded(
    l: Seq<u8>,
    w: int,
    h: int,
    reg: LightRegion,
    k: nat,
    bound: u8,
)
    requires
        1 <= w,
        1 <= h,
        l.len() == 3 * (w * h),
        forall|i: int| 0 <= i < l.len() ==> l[i] <= bound,
    ensures
        forall|i: int|
            0 <= i < l.len() ==> #[trigger] spec_relax_iter(l, w, h, reg, k)[i] <= bound,
    decreases k,
{
    if k > 0 {
        let prev = spec_relax_iter(l, w, h, reg, (k - 1) as nat);
        lemma_relax_iter_bounded(l, w, h, reg, (k - 1) as nat, bound);
        lemma_relax_iter_monotone(l, w, h, reg, (k - 1) as nat);
        assert forall|i: int| 0 <= i < l.len() implies #[trigger] spec_relax_pass(
            prev,
            w,
            h,
            reg,
        )[i] <= bound by {
            lemma_cell_index_recomp(w, h, i);
            let x = col_of(w, i);
            let y = row_of(w, i);
            let c = chan_of(i);
            if in_region(reg, x, y) {
                lemma_cell_index_bounds(w, h, if x == 0 { 0int } else { x - 1 }, y, c);
                lemma_cell_index_bounds(w, h, if x + 1 < w { x + 1 } else { w - 1 }, y, c);
                lemma_cell_index_bounds(w, h, x, if y == 0 { 0int } else { y - 1 }, c);
                lemma_cell_index_bounds(w, h, x, if y + 1 < h { y + 1 } else { h - 1 }, c);
            }
        }
    }
}

/// Once a pass changes nothing, every further pass changes nothing.
///
/// This is the idempotence half of the convergence law: a converged light
/// buffer is a fixed point, and repeating the relaxation leaves it as it is.
pub proof fn lemma_relax_fixpoint(l: Seq<u8>, w: int, h: int, reg: LightRegion, k: nat)
    requires
        spec_relax_pass(l, w, h, reg) == l,
    ensures
        spec_relax_iter(l, w, h, reg, k) == l,
    decreases k,
{
    if k > 0 {
        lemma_relax_fixpoint(l, w, h, reg, (k - 1) as nat);
    }
}

/// Running relaxation passes in two stages is the same as running them in
/// one.
pub proof fn lemma_relax_iter_compose(l: Seq<u8>, w: int, h: int, reg: LightRegion, a: nat, b: nat)
    ensures
        spec_relax_iter(l, w, h, reg, a + b) == spec_relax_iter(
            spec_relax_iter(l, w, h, reg, a),
            w,
            h,
            reg,
            b,
        ),
    decreases b,
{
    if b > 0 {
        lemma_relax_iter_compose(l, w, h, reg, a, (b - 1) as nat);
    }
}

/// A value that still changes at pass `k` has decayed through `k` cells, so
/// it is at most the brightest possible source less `k` decays.
proof fn lemma_relax_change_bound(l: Seq<u8>, w: int, h: int, reg: LightRegion, k: nat)
    requires
        1 <= k,
        1 <= w,
        1 <= h,
        l.len() == 3 * (w * h),
    ensures
        forall|i: int|
            0 <= i < l.len() && #[trigger] spec_relax_iter(l, w, h, reg, k)[i] != spec_relax_iter(
                l,
                w,
                h,
                reg,
                (k - 1) as nat,
            )[i] ==> spec_relax_iter(l, w, h, reg, k)[i] <= 255 - 25 * k,
    decreases k,
{
    let prev = spec_relax_iter(l, w, h, reg, (k - 1) as nat);
    lemma_relax_iter_monotone(l, w, h, reg, (k - 1) as nat);
    if k >= 2 {
        lemma_relax_change_bound(l, w, h, reg, (k - 1) as nat);
    }
    assert forall|i: int|
        0 <= i < l.len() && #[trigger] spec_relax_iter(l, w, h, reg, k)[i] != prev[i] implies
        spec_relax_iter(l, w, h, reg, k)[i] <= 255 - 25 * k by {
        lemma_cell_index_recomp(w, h, i);
        let x = col_of(w, i);
        let y = row_of(w, i);
        let c = chan_of(i);
        let v = spec_relax_iter(l, w, h, reg, k)[i];
        assert(v == spec_relax_pass(prev, w, h, reg)[i]);
        assert(in_region(reg, x, y));
        let lx = if x == 0 {
            0int
        } else {
            x - 1
        };
        let rx = if x + 1 < w {
            x + 1
        } else {
            w - 1
        };
        let uy = if y == 0 {
            0int
        } else {
            y - 1
        };
        let dy = if y + 1 < h {
            y + 1
        } else {
            h - 1
        };
        lemma_cell_index_bounds(w, h, lx, y, c);
        lemma_cell_index_bounds(w, h, rx, y, c);
        lemma_cell_index_bounds(w, h, x, uy, c);
        lemma_cell_index_bounds(w, h, x, dy, c);
        assert(v == spec_relaxed_cell(prev, w, h, x, y, c));
        // The changed value came through one of the four neighbors.
        let jl = cell_index(w, lx, y, c);
        let jr = cell_index(w, rx, y, c);
        let ju = cell_index(w, x, uy, c);
        let jd = cell_index(w, x, dy, c);
        let j = if v == spec_decayed(prev[jl]) {
            jl
        } else if v == spec_decayed(prev[jr]) {
            jr
        } else if v == spec_decayed(prev[ju]) {
            ju
        } else {
            jd
        };
        assert(v == spec_decayed(prev[j]) && v > prev[i]);
        assert(prev[j] >= 26);
        if k == 1 {
            assert(v <= 255 - 25);
        } else {
            let prev2 = spec_relax_iter(l, w, h, reg, (k - 2) as nat);
            lemma_relax_iter_monotone(l, w, h, reg, (k - 2) as nat);
            lemma_relax_pass_at(prev2, w, h, reg, x, y, c);
            // The cell already saw this neighbor's older value one pass ago.
            assert(prev[i] == spec_relaxed_cell(prev2, w, h, x, y, c));
            assert(prev[i] >= spec_decayed(prev2[j]));
            assert(prev[j] != prev2[j]);
            assert(prev[j] <= 255 - 25 * (k - 1));
            assert(v <= 255 - 25 * k);
        }
    }
}

/// Relaxation converges within ten passes: every later prefix of passes
/// gives the same buffer.
proof fn lemma_relax_iter_settles(l: Seq<u8>, w: int, h: int, reg: LightRegion, k: nat)
    requires
        10 <= k,
        1 <= w,
        1 <= h,
        l.len() == 3 * (w * h),
    ensures
        spec_relax_iter(l, w, h, reg, k) == spec_relax_iter(l, w, h, reg, 10),
    decreases k,
{
    if k > 10 {
        lemma_relax_iter_settles(l, w, h, reg, (k - 1) as nat);
        lemma_relax_change_bound(l, w, h, reg, k);
        lemma_relax_iter_monotone(l, w, h, reg, (k - 1) as nat);
        lemma_relax_iter_monotone(l, w, h, reg, k);
        assert forall|i: int| 0 <= i < l.len() implies #[trigger] spec_relax_iter(
            l,
            w,
            h,
            reg,
            k,
        )[i] == spec_relax_iter(l, w, h, reg, (k - 1) as nat)[i] by {
            if spec_relax_iter(l, w, h, reg, k)[i] != spec_relax_iter(l, w, h, reg, (k - 1) as nat)[i] {
                assert(spec_relax_iter(l, w, h, reg, k)[i] <= 255 - 25 * k);
                assert(255 - 25 * k < 0);
            }
        }
        assert(spec_relax_iter(l, w, h, reg, k) =~= spec_relax_iter(l, w, h, reg, (k - 1) as nat));
    }
}

/// The fixed number of passes reaches the fixed point: a further pass
/// changes no value.
///
/// This is the convergence law of the relaxation: together with
/// monotonicity, running the pass any number of extra times beyond the
/// library's fixed count leaves every light value exactly as it is.
pub proof fn lemma_relax_converged_after_passes(l: Seq<u8>, w: int, h: int, reg: LightRegion)
    requires
        1 <= w,
        1 <= h,
        l.len() == 3 * (w * h),
    ensures
        spec_relax_pass(spec_relax_iter(l, w, h, reg, RELAX_PASSES as nat), w, h, reg)
            == spec_relax_iter(l, w, h, reg, RELAX_PASSES as nat),
{
    lemma_relax_iter_settles(l, w, h, reg, RELAX_PASSES as nat);
    lemma_relax_iter_settles(l, w, h, reg, (RELAX_PASSES + 1) as nat);
    assert(spec_relax_iter(l, w, h, reg, (RELAX_PASSES + 1) as nat) == spec_relax_pass(
        spec_relax_iter(l, w, h, reg, RELAX_PASSES as nat),
        w,
        h,
        reg,
    ));
}

pub open spec fn spec_abs(a: int) -> int {
    if a >= 0 {
        a
    } else {
        -a
    }
}

/// The step distance between two cells: propagation moves one orthogonal
/// cell per pass.
pub open spec fn spec_manhattan(x1: int, y1: int, x2: int, y2: int) -> int {
    spec_abs(x1 - x2) + spec_abs(y1 - y2)
}

/// A source of brightness `v` seen from `d` propagation steps away.
pub open spec fn spec_source_level(v: u8, d: int) -> u8 {
    if v > 25 * d {
        (v - 25 * d) as u8
    } else {
        0u8
    }
}

proof fn lemma_decayed_source_level(v: u8, d: int)
    requires
        0 <= d,
    ensures
        spec_decayed(spec_source_level(v, d)) == spec_source_level(v, d + 1),
{
}

/// The per-distance decay law of a single light source: in an otherwise
/// dark channel, `k` relaxation passes over the whole grid leave every cell
/// within `k` steps of the source at the source's brightness less the decay
/// constant per step (floored at darkness), and every farther cell dark. In
/// particular the brightness falls by exactly the decay constant from each
/// cell to the next along a row, until it reaches zero.
#[verifier::rlimit(100)]
pub proof fn lemma_relax_single_source(
    l: Seq<u8>,
    w: int,
    h: int,
    reg: LightRegion,
    sx: int,
    sy: int,
    c: int,
    k: nat,
)
    requires
        1 <= w,
        1 <= h,
        l.len() == 3 * (w * h),
        reg.x0 == 0,
        reg.x1 == w,
        reg.y0 == 0,
        reg.y1 == h,
        0 <= sx < w,
        0 <= sy < h,
        0 <= c < 3,
        forall|x: int, y: int|
            0 <= x < w && 0 <= y < h && (x != sx || y != sy) ==> #[trigger] l[cell_index(
                w,
                x,
                y,
                c,
            )] == 0u8,
    ensures
        forall|x: int, y: int|
            0 <= x < w && 0 <= y < h ==> #[trigger] spec_relax_iter(l, w, h, reg, k)[cell_index(
                w,
                x,
                y,
                c,
            )] == (if spec_manhattan(x, y, sx, sy) <= k {
                spec_source_level(l[cell_index(w, sx, sy, c)], spec_manhattan(x, y, sx, sy))
            } else {
                0u8
            }),
    decreases k,
{
    let v = l[cell_index(w, sx, sy, c)];
    if k == 0 {
        assert forall|x: int, y: int| 0 <= x < w && 0 <= y < h implies #[trigger] spec_relax_iter(
            l,
            w,
            h,
            reg,
            k,
        )[cell_index(w, x, y, c)] == (if spec_manhattan(x, y, sx, sy) <= k {
            spec_source_level(v, spec_manhattan(x, y, sx, sy))
        } else {
            0u8
        }) by {
            lemma_cell_index_bounds(w, h, x, y, c);
            if x == sx && y == sy {
                assert(spec_source_level(v, 0) == v);
            } else {
                assert(l[cell_index(w, x, y, c)] == 0u8);
            }
        }
    } else {
        lemma_relax_single_source(l, w, h, reg, sx, sy, c, (k - 1) as nat);
        let prev = spec_relax_iter(l, w, h, reg, (k - 1) as nat);
        lemma_relax_iter_monotone(l, w, h, reg, (k - 1) as nat);
        assert forall|x: int, y: int| 0 <= x < w && 0 <= y < h implies #[trigger] spec_relax_iter(
            l,
            w,
            h,
            reg,
            k,
        )[cell_index(w, x, y, c)] == (if spec_manhattan(x, y, sx, sy) <= k {
            spec_source_level(v, spec_manhattan(x, y, sx, sy))
        } else {
            0u8
        }) by {
            lemma_cell_index_bounds(w, h, x, y, c);
            lemma_relax_pass_at(prev, w, h, reg, x, y, c);
            let lx = if x == 0 {
                0int
            } else {
                x - 1
            };
            let rx = if x + 1 < w {
                x + 1
            } else {
                w - 1
            };
            let uy = if y == 0 {
                0int
            } else {
                y - 1
            };
            let dy = if y + 1 < h {
                y + 1
            } else {
                h - 1
            };
            lemma_cell_index_bounds(w, h, lx, y, c);
            lemma_cell_index_bounds(w, h, rx, y, c);
            lemma_cell_index_bounds(w, h, x, uy, c);
            lemma_cell_index_bounds(w, h, x, dy, c);
            // The previous level of the cell and of each clamped neighbor.
            assert(prev[cell_index(w, x, y, c)] == (if spec_manhattan(x, y, sx, sy) <= k - 1 {
                spec_source_level(v, spec_manhattan(x, y, sx, sy))
            } else {
                0u8
            }));
            assert(prev[cell_index(w, lx, y, c)] == (if spec_manhattan(lx, y, sx, sy) <= k - 1 {
                spec_source_level(v, spec_manhattan(lx, y, sx, sy))
            } else {
                0u8
            }));
            assert(prev[cell_index(w, rx, y, c)] == (if spec_manhattan(rx, y, sx, sy) <= k - 1 {
                spec_source_level(v, spec_manhattan(rx, y, sx, sy))
            } else {
                0u8
            }));
            assert(prev[cell_index(w, x, uy, c)] == (if spec_manhattan(x, uy, sx, sy) <= k - 1 {
                spec_source_level(v, spec_manhattan(x, uy, sx, sy))
            } else {
                0u8
            }));
            assert(prev[cell_index(w, x, dy, c)] == (if spec_manhattan(x, dy, sx, sy) <= k - 1 {
                spec_source_level(v, spec_manhattan(x, dy, sx, sy))
            } else {
                0u8
            }));
            lemma_decayed_source_level(v, spec_manhattan(lx, y, sx, sy));
            lemma_decayed_source_level(v, spec_manhattan(rx, y, sx, sy));
            lemma_decayed_source_level(v, spec_manhattan(x, uy, sx, sy));
            lemma_decayed_source_level(v, spec_manhattan(x, dy, sx, sy));
            // A cell away from the source has a clamped neighbor one step
            // closer to it.
            let d = spec_manhattan(x, y, sx, sy);
            if 1 <= d && d <= k {
                if sx < x {
                    assert(lx == x - 1 && spec_manhattan(lx, y, sx, sy) == d - 1);
                } else if sx > x {
                    assert(rx == x + 1 && spec_manhattan(rx, y, sx, sy) == d - 1);
                } else if sy < y {
                    assert(uy == y - 1 && spec_manhattan(x, uy, sx, sy) == d - 1);
                } else {
                    assert(dy == y + 1 && spec_manhattan(x, dy, sx, sy) == d - 1);
                }
            }
        }
    }
}

/// The decayed value of `v` as executable code.
fn decayed(v: u8) -> (r: u8)
    ensures
        r == spec_decayed(v),
{
    if v >= LIGHT_DECAY {
        v - LIGHT_DECAY
    } else {
        0
    }
}

fn max_u8_exec(a: u8, b: u8) -> (r: u8)
    ensures
        r == max_u8(a, b),
{
    if a >= b {
        a
    } else {
        b
    }
}

impl TileMap {
    /// Runs `passes` relaxation passes over the window `reg`, which must lie
    /// inside the grid. Only the light grid changes, and it becomes exactly
    /// the iterated relaxation of its old contents.
    pub fn relax_light_region(&mut self, reg: LightRegion, passes: usize)
        requires
            old(self).wf(),
            reg.x1 <= old(self).width,
            reg.y1 <= old(self).height,
        ensures
            final(self).wf(),
            *final(self) == (TileMap { lighting: final(self).lighting, ..*old(self) }),
            final(self).lighting@ == spec_relax_iter(
                old(self).lighting@,
                old(self).width as int,
                old(self).height as int,
                reg,
                passes as nat,
            ),
    {
        let ghost w = self.width as int;
        let ghost h = self.height as int;
        let mut pass: usize = 0;
        while pass < passes
            invariant
                self.wf(),
                *self == (TileMap { lighting: self.lighting, ..*old(self) }),
                pass <= passes,
                w == self.width as int,
                h == self.height as int,
                reg.x1 <= self.width,
                reg.y1 <= self.height,
                self.lighting@ == spec_relax_iter(old(self).lighting@, w, h, reg, pass as nat),
            decreases passes - pass,
        {
            self.relax_light_pass(reg);
            pass += 1;
        }
    }

    /// One relaxation pass over the window `reg`.
    fn relax_light_pass(&mut self, reg: LightRegion)
        requires
            old(self).wf(),
            reg.x1 <= old(self).width,
            reg.y1 <= old(self).height,
        ensures
            final(self).wf(),
            *final(self) == (TileMap { lighting: final(self).lighting, ..*old(self) }),
            final(self).lighting@ == spec_relax_pass(
                old(self).lighting@,
                old(self).width as int,
                old(self).height as int,
                reg,
            ),
    {
        let ghost w = self.width as int;
        let ghost h = self.height as int;
        let ghost target = spec_relax_pass(old(self).lighting@, w, h, reg);
        let len = self.lighting.len();
        let mut next: Vec<u8> = Vec::new();
        let mut i: usize = 0;
        let mut x: usize = 0;
        let mut y: usize = 0;
        let mut c: usize = 0;
        while i < len
            invariant
                self.wf(),
                *self == *old(self),
                w == self.width as int,
                h == self.height as int,
                reg.x1 <= self.width,
                reg.y1 <= self.height,
                target == spec_relax_pass(self.lighting@, w, h, reg),
                target.len() == len,
                len == self.lighting@.len(),
                i <= len,
                c < 3,
                x < self.width,
                y <= self.height,
                i == cell_index(w, x as int, y as int, c as int),
                y < self.height || i == len,
                next@.len() == i,
                forall|j: int| 0 <= j < i ==> next@[j] == target[j],
            decreases len - i,
        {
            proof {
                lemma_cell_index_bounds(w, h, x as int, y as int, c as int);
                lemma_relax_pass_at(self.lighting@, w, h, reg, x as int, y as int, c as int);
            }
            let value: u8;
            if reg.x0 <= x && x < reg.x1 && reg.y0 <= y && y < reg.y1 {
                let own = self.get_light(x, y, c);
                let lf = decayed(self.get_light(if x == 0 { 0 } else { x - 1 }, y, c));
                let rt = decayed(
                    self.get_light(
                        if x + 1 < self.width { x + 1 } else { self.width - 1 },
                        y,
                        c,
                    ),
                );
                let up = decayed(self.get_light(x, if y == 0 { 0 } else { y - 1 }, c));
                let dn = decayed(
                    self.get_light(
                        x,
                        if y + 1 < self.height { y + 1 } else { self.height - 1 },
                        c,
                    ),
                );
                value = max_u8_exec(own, max_u8_exec(lf, max_u8_exec(rt, max_u8_exec(up, dn))));
            } else {
                value = self.get_light(x, y, c);
            }
            next.push(value);
            i += 1;
            c += 1;
            if c == 3 {
                c = 0;
                x += 1;
                if x == self.width {
                    x = 0;
                    y += 1;
                    proof {
                        assert((y as int) * w == (y - 1) * w + w) by (nonlinear_arith);
                    }
                }
            }
            proof {
                if y < self.height {
                    lemma_cell_index_bounds(w, h, x as int, y as int, c as int);
                } else {
                    assert(h * w == w * h) by (nonlinear_arith);
                }
            }
        }
        self.lighting = next;
        proof {
            assert(self.lighting@ =~= target);
        }
    }
}

} // verus!
