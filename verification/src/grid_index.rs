//! Row-major index arithmetic for the flat buffers that back every grid in
//! the crate, with the bounds and injectivity facts the grid proofs rely on.

use vstd::prelude::*;

verus! {

/// Index of cell `(x, y)` in a row-major `w`-wide single-channel buffer.
pub open spec fn flat_index(w: int, x: int, y: int) -> int {
    y * w + x
}

/// Index of channel (or layer) `c` of cell `(x, y)` in a row-major `w`-wide
/// three-channel buffer.
pub open spec fn cell_index(w: int, x: int, y: int, c: int) -> int {
    (y * w + x) * 3 + c
}

pub proof fn lemma_flat_index_bounds(w: int, h: int, x: int, y: int)
    requires
        0 <= x < w,
        0 <= y < h,
    ensures
        0 <= flat_index(w, x, y) < w * h,
{
    assert(0 <= y * w + x < w * h) by (nonlinear_arith)
        requires
            0 <= x < w,
            0 <= y < h,
    ;
}

pub proof fn lemma_flat_index_inj(w: int, h: int, x1: int, y1: int, x2: int, y2: int)
    requires
        0 <= x1 < w,
        0 <= y1 < h,
        0 <= x2 < w,
        0 <= y2 < h,
        x1 != x2 || y1 != y2,
    ensures
        flat_index(w, x1, y1) != flat_index(w, x2, y2),
{
    assert(y1 * w + x1 != y2 * w + x2) by (nonlinear_arith)
        requires
            0 <= x1 < w,
            0 <= y1 < h,
            0 <= x2 < w,
            0 <= y2 < h,
            x1 != x2 || y1 != y2,
    ;
}

pub proof fn lemma_cell_index_bounds(w: int, h: int, x: int, y: int, c: int)
    requires
        0 <= x < w,
        0 <= y < h,
        0 <= c < 3,
    ensures
        0 <= flat_index(w, x, y) < w * h,
        0 <= cell_index(w, x, y, c) < 3 * (w * h),
        cell_index(w, x, y, c) == 3 * flat_index(w, x, y) + c,
{
    lemma_flat_index_bounds(w, h, x, y);
    assert((y * w + x) * 3 + c < 3 * (w * h) && (y * w + x) * 3 + c == 3 * (y * w + x) + c)
        by (nonlinear_arith)
        requires
            0 <= y * w + x < w * h,
            0 <= c < 3,
    ;
}

pub proof fn lemma_cell_index_inj(
    w: int,
    h: int,
    x1: int,
    y1: int,
    c1: int,
    x2: int,
    y2: int,
    c2: int,
)
    requires
        0 <= x1 < w,
        0 <= y1 < h,
        0 <= c1 < 3,
        0 <= x2 < w,
        0 <= y2 < h,
        0 <= c2 < 3,
        x1 != x2 || y1 != y2 || c1 != c2,
    ensures
        cell_index(w, x1, y1, c1) != cell_index(w, x2, y2, c2),
{
    if x1 != x2 || y1 != y2 {
        lemma_flat_index_inj(w, h, x1, y1, x2, y2);
        assert((y1 * w + x1) * 3 + c1 != (y2 * w + x2) * 3 + c2) by (nonlinear_arith)
            requires
                y1 * w + x1 != y2 * w + x2,
                0 <= c1 < 3,
                0 <= c2 < 3,
        ;
    }
}

/// Composing a flat index and splitting it again gives the cell back.
pub proof fn lemma_flat_index_decomp(w: int, x: int, y: int)
    requires
        0 <= x < w,
        0 <= y,
    ensures
        flat_index(w, x, y) % w == x,
        flat_index(w, x, y) / w == y,
{
    assert((y * w + x) % w == x && (y * w + x) / w == y) by (nonlinear_arith)
        requires
            0 <= x < w,
            0 <= y,
    ;
}

/// The channel a three-channel buffer position belongs to.
pub open spec fn chan_of(i: int) -> int {
    i % 3
}

/// The column a three-channel buffer position belongs to.
pub open spec fn col_of(w: int, i: int) -> int {
    (i / 3) % w
}

/// The row a three-channel buffer position belongs to.
pub open spec fn row_of(w: int, i: int) -> int {
    (i / 3) / w
}

/// Composing a cell index and decomposing it again gives the cell back.
pub proof fn lemma_cell_index_decomp(w: int, h: int, x: int, y: int, c: int)
    requires
        0 <= x < w,
        0 <= y < h,
        0 <= c < 3,
    ensures
        col_of(w, cell_index(w, x, y, c)) == x,
        row_of(w, cell_index(w, x, y, c)) == y,
        chan_of(cell_index(w, x, y, c)) == c,
{
    let i = cell_index(w, x, y, c);
    lemma_flat_index_bounds(w, h, x, y);
    assert(i / 3 == y * w + x && i % 3 == c) by (nonlinear_arith)
        requires
            i == (y * w + x) * 3 + c,
            0 <= c < 3,
            0 <= y * w + x,
    ;
    assert((y * w + x) % w == x && (y * w + x) / w == y) by (nonlinear_arith)
        requires
            0 <= x < w,
            0 <= y,
    ;
}

/// Decomposing a position inside a three-channel buffer and recomposing it
/// gives the position back, with the cell in bounds.
pub proof fn lemma_cell_index_recomp(w: int, h: int, i: int)
    requires
        1 <= w,
        1 <= h,
        0 <= i < 3 * (w * h),
    ensures
        0 <= col_of(w, i) < w,
        0 <= row_of(w, i) < h,
        0 <= chan_of(i) < 3,
        cell_index(w, col_of(w, i), row_of(w, i), chan_of(i)) == i,
{
    let q = i / 3;
    let c = i % 3;
    assert(0 <= q < w * h && 0 <= c < 3 && i == q * 3 + c) by (nonlinear_arith)
        requires
            0 <= i < 3 * (w * h),
            q == i / 3,
            c == i % 3,
    ;
    let x = q % w;
    let y = q / w;
    assert(0 <= x < w && 0 <= y < h && q == y * w + x) by (nonlinear_arith)
        requires
            1 <= w,
            1 <= h,
            0 <= q < w * h,
            x == q % w,
            y == q / w,
    ;
}

} // verus!
