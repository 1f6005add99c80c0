//! Sprite grids: how `rows * cols` cells divide an image, and which pixels
//! lie on the ring from which a cell's backdrop is sampled.

use crate::raster::mul_u32;
use vstd::arithmetic::div_mod::{lemma_div_is_ordered, lemma_div_multiples_vanish, lemma_div_pos_is_pos};
use vstd::prelude::*;

verus! {

/// The first position of cell `k` of `n` along an axis of `len` pixels.
pub open spec fn span_first(k: int, n: int, len: int) -> int {
    (k * len) / n
}

/// The last position of cell `k` of `n` along an axis of `len` pixels. A
/// cell whose share of the axis ends at zero is given position zero.
pub open spec fn span_last(k: int, n: int, len: int) -> int {
    let end = ((k + 1) * len) / n;
    if end > 0 {
        end - 1
    } else {
        0
    }
}

/// The span one pixel inside `first..=last`; the span itself where it is
/// only one or two pixels long, so that the result never crosses its centre.
pub open spec fn inner(first: int, last: int) -> (int, int) {
    if last > first + 1 {
        (first + 1, last - 1)
    } else {
        (first, last)
    }
}

/// Whether `(x, y)` lies on the sampling ring of cell `(row, col)` of a
/// `rows` by `cols` grid over a `width` by `height` image.
pub open spec fn on_cell_ring(
    width: int,
    height: int,
    rows: int,
    cols: int,
    row: int,
    col: int,
    x: int,
    y: int,
) -> bool {
    let y_first = span_first(row, rows, height);
    let y_last = span_last(row, rows, height);
    let x_first = span_first(col, cols, width);
    let x_last = span_last(col, cols, width);
    let (top, bottom) = inner(y_first, y_last);
    let (left, right) = inner(x_first, x_last);
    &&& y_first <= y_last
    &&& x_first <= x_last
    &&& left <= x <= right
    &&& top <= y <= bottom
    &&& (x == left || x == right || y == top || y == bottom)
}

/// Whether `(x, y)` lies on the sampling ring of some cell of the grid.
pub open spec fn on_grid_ring(width: int, height: int, rows: int, cols: int, x: int, y: int) -> bool {
    exists|row: int, col: int|
        0 <= row < rows && 0 <= col < cols && #[trigger] on_cell_ring(
            width,
            height,
            rows,
            cols,
            row,
            col,
            x,
            y,
        )
}

/// Whether `(x, y)` lies on the outer border of a `width` by `height` image.
pub open spec fn on_border(width: int, height: int, x: int, y: int) -> bool {
    &&& 0 <= x < width
    &&& 0 <= y < height
    &&& (x == 0 || x == width - 1 || y == 0 || y == height - 1)
}

/// The cells of a non-empty axis lie inside it, and each starts where the
/// share of the one before it ends.
pub proof fn lemma_span_bounds(k: int, n: int, len: int)
    requires
        0 <= k < n,
        0 < len,
    ensures
        0 <= span_first(k, n, len) <= ((k + 1) * len) / n <= len,
        0 <= span_last(k, n, len) < len,
        span_first(k + 1, n, len) == ((k + 1) * len) / n,
{
    assert(0 <= k * len <= (k + 1) * len <= n * len) by (nonlinear_arith)
        requires
            0 <= k < n,
            0 < len,
    ;
    lemma_div_pos_is_pos(k * len, n);
    lemma_div_is_ordered(k * len, (k + 1) * len, n);
    lemma_div_is_ordered((k + 1) * len, n * len, n);
    lemma_div_multiples_vanish(len, n);
}

/// The cells tile a non-empty axis: the first begins at its start, the last
/// ends at its end, and each cell whose share does not end at zero is
/// followed at once by the next.
pub proof fn lemma_cells_tile(k: int, n: int, len: int)
    requires
        0 <= k < n,
        0 < len,
    ensures
        span_first(0, n, len) == 0,
        span_last(n - 1, n, len) == len - 1,
        ((k + 1) * len) / n > 0 ==> span_first(k + 1, n, len) == span_last(k, n, len) + 1,
{
    lemma_span_bounds(k, n, len);
    lemma_span_bounds(n - 1, n, len);
    assert(0 * len == 0) by (nonlinear_arith);
    assert(0int / n == 0) by (nonlinear_arith)
        requires
            n > 0,
    ;
    assert((n - 1 + 1) * len == len * n) by (nonlinear_arith);
    lemma_div_multiples_vanish(len, n);
}

/// The inner span lies inside the span it was taken from and is not empty
/// where that span is not.
pub proof fn lemma_inner_bounds(first: int, last: int)
    requires
        first <= last,
    ensures
        first <= inner(first, last).0 <= inner(first, last).1 <= last,
{
}

/// Every position of a sampling ring is a position of the image.
pub proof fn lemma_ring_inside(
    width: int,
    height: int,
    rows: int,
    cols: int,
    row: int,
    col: int,
    x: int,
    y: int,
)
    requires
        0 < width,
        0 < height,
        0 <= row < rows,
        0 <= col < cols,
        on_cell_ring(width, height, rows, cols, row, col, x, y),
    ensures
        0 <= x < width,
        0 <= y < height,
{
    lemma_span_bounds(row, rows, height);
    lemma_span_bounds(col, cols, width);
}

/// Narrows a span by one pixel at each end, unless it is too short for that.
pub fn inner_span(start: u32, end: u32) -> (span: (u32, u32))
    ensures
        span.0 == inner(start as int, end as int).0,
        span.1 == inner(start as int, end as int).1,
{
    if end > start && end - start > 1 {
        (start + 1, end - 1)
    } else {
        (start, end)
    }
}

/// The first and last position of cell `k` of `n` along an axis of `len`
/// pixels, or `None` where the cell is empty.
pub fn cell_span(k: u32, n: u32, len: u32) -> (span: Option<(u32, u32)>)
    requires
        k < n,
    ensures
        match span {
            Some((first, last)) => {
                &&& first == span_first(k as int, n as int, len as int)
                &&& last == span_last(k as int, n as int, len as int)
                &&& first <= last
            },
            None => span_first(k as int, n as int, len as int) > span_last(
                k as int,
                n as int,
                len as int,
            ),
        },
{
    if len == 0 {
        proof {
            assert(k * 0 == 0 && (k + 1) * 0 == 0) by (nonlinear_arith);
            assert(0int / (n as int) == 0) by (nonlinear_arith)
                requires
                    n > 0,
            ;
        }
        return Some((0, 0));
    }
    proof {
        lemma_span_bounds(k as int, n as int, len as int);
    }
    let first: u64 = mul_u32(k, len) / (n as u64);
    let end: u64 = mul_u32(k + 1, len) / (n as u64);
    let last: u64 = if end > 0 {
        end - 1
    } else {
        0
    };
    if first > last {
        None
    } else {
        Some((first as u32, last as u32))
    }
}

} // verus!
