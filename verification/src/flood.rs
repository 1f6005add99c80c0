//! The flood fill of the segmenter: seeds from the ring of every cell of a
//! grid or from the outer border of the image, and a breadth-first walk from
//! them over 4-connected neighbours.

use crate::chroma::{lemma_black_matches_nothing, matches_chromakey, matches_mode, ChromaMatchMode};
use crate::grid::{
    cell_span, inner, inner_span, lemma_ring_inside, lemma_span_bounds, on_cell_ring, span_first,
    span_last,
};
use crate::marks::Marks;
use crate::raster::{cleared, Image, Pixel, Raster};
use crate::segment::{
    border_seed, expand_color_at, flooded, grid_seed, is_seed, reached, reached_within,
    seed_color_at, seeds_from_grid,
};
use std::collections::VecDeque;
use vstd::prelude::*;

verus! {

/// Whether position `(x, y)` stands in the queue at index `from` or later.
spec fn queued(queue: Seq<(u32, u32)>, from: int, x: int, y: int) -> bool {
    exists|k: int| from <= k < queue.len() && (#[trigger] queue[k]).0 == x && queue[k].1 == y
}

/// How the visited set and the queue change while positions are enqueued:
/// the set only gains positions, the queue only gains entries at its back,
/// and the two gain the same positions. Each new entry of the queue was
/// unmarked before and is marked now, no two new entries are equal, and each
/// newly marked position is a new entry.
spec fn grows(
    v0: Marks,
    q0: Seq<(u32, u32)>,
    v1: Marks,
    q1: Seq<(u32, u32)>,
) -> bool {
    &&& v1.width() == v0.width()
    &&& v1.height() == v0.height()
    &&& q0.len() <= q1.len()
    &&& forall|k: int| 0 <= k < q0.len() ==> #[trigger] q1[k] == q0[k]
    &&& forall|k: int|
        q0.len() <= k < q1.len() ==> v1.has((#[trigger] q1[k]).0 as int, q1[k].1 as int)
            && !v0.has(q1[k].0 as int, q1[k].1 as int)
    &&& forall|i: int, j: int|
        q0.len() <= i < j < q1.len() ==> #[trigger] q1[i] != #[trigger] q1[j]
    &&& forall|x: int, y: int| v0.has(x, y) ==> #[trigger] v1.has(x, y)
    &&& forall|x: int, y: int|
        #[trigger] v1.has(x, y) && !v0.has(x, y) ==> queued(q1, q0.len() as int, x, y)
    &&& v1.unmarked() + q1.len() == v0.unmarked() + q0.len()
}

proof fn lemma_grows_reflexive(v: Marks, q: Seq<(u32, u32)>)
    ensures
        grows(v, q, v, q),
{
}

proof fn lemma_grows_transitive(
    v0: Marks,
    q0: Seq<(u32, u32)>,
    v1: Marks,
    q1: Seq<(u32, u32)>,
    v2: Marks,
    q2: Seq<(u32, u32)>,
)
    requires
        grows(v0, q0, v1, q1),
        grows(v1, q1, v2, q2),
    ensures
        grows(v0, q0, v2, q2),
{
    assert forall|k: int| q0.len() <= k < q2.len() implies v2.has(
        (#[trigger] q2[k]).0 as int,
        q2[k].1 as int,
    ) && !v0.has(q2[k].0 as int, q2[k].1 as int) by {
        if k < q1.len() {
            assert(q2[k] == q1[k]);
            assert(v1.has(q1[k].0 as int, q1[k].1 as int));
        }
    }
    assert forall|i: int, j: int| q0.len() <= i < j < q2.len() implies #[trigger] q2[i]
        != #[trigger] q2[j] by {
        if i < q1.len() {
            assert(q2[i] == q1[i]);
            assert(v1.has(q1[i].0 as int, q1[i].1 as int));
            if j < q1.len() {
                assert(q2[j] == q1[j]);
            } else {
                assert(!v1.has(q2[j].0 as int, q2[j].1 as int));
            }
        }
    }
    assert forall|x: int, y: int| #[trigger] v2.has(x, y) && !v0.has(x, y) implies queued(
        q2,
        q0.len() as int,
        x,
        y,
    ) by {
        if v1.has(x, y) {
            let k = choose|k: int|
                q0.len() <= k < q1.len() && (#[trigger] q1[k]).0 == x && q1[k].1 == y;
            assert(q2[k] == q1[k]);
        } else {
            let k = choose|k: int|
                q1.len() <= k < q2.len() && (#[trigger] q2[k]).0 == x && q2[k].1 == y;
        }
    }
}

/// Marks `(x, y)` and puts it in the queue if it was not marked yet and its
/// colour passes the test of `mode`.
fn enqueue_if_chromakey(
    x: u32,
    y: u32,
    image: &Image,
    visited: &mut Marks,
    queue: &mut VecDeque<(u32, u32)>,
    mode: ChromaMatchMode,
) -> (added: bool)
    requires
        image@.contains(x as int, y as int),
        old(visited).width() == image@.width,
        old(visited).height() == image@.height,
    ensures
        added == (!old(visited).has(x as int, y as int) && {
            let p = image@.at(x as int, y as int);
            matches_mode(p.r, p.g, p.b, mode)
        }),
        forall|x2: int, y2: int|
            #[trigger] final(visited).has(x2, y2) == (old(visited).has(x2, y2) || (added && x2 == x
                && y2 == y)),
        final(queue)@ == if added {
            old(queue)@.push((x, y))
        } else {
            old(queue)@
        },
        grows(*old(visited), old(queue)@, *final(visited), final(queue)@),
{
    if visited.contains(x, y) {
        return false;
    }
    let pixel = image.get_pixel(x, y);
    if matches_chromakey(pixel.r, pixel.g, pixel.b, mode) {
        visited.insert(x, y);
        queue.push_back((x, y));
        proof {
            let q1 = queue@;
            assert(q1[q1.len() - 1] == (x, y));
            assert forall|x2: int, y2: int| #[trigger]
                visited.has(x2, y2) && !old(visited).has(x2, y2) implies queued(
                q1,
                old(queue)@.len() as int,
                x2,
                y2,
            ) by {
                assert(q1[q1.len() - 1].0 == x2);
            }
        }
        return true;
    }
    false
}

/// Seeds the fill from the outer border of the image.
fn enqueue_chromakey_borders(
    image: &Image,
    visited: &mut Marks,
    queue: &mut VecDeque<(u32, u32)>,
)
    requires
        image@.width > 0,
        image@.height > 0,
        old(visited).width() == image@.width,
        old(visited).height() == image@.height,
    ensures
        grows(*old(visited), old(queue)@, *final(visited), final(queue)@),
        forall|x: int, y: int|
            #[trigger] final(visited).has(x, y) == (old(visited).has(x, y) || border_seed(
                image@,
                x,
                y,
            )),
        forall|k: int|
            old(queue)@.len() <= k < final(queue)@.len() ==> border_seed(
                image@,
                (#[trigger] final(queue)@[k]).0 as int,
                final(queue)@[k].1 as int,
            ),
{
    let width = image.width();
    let height = image.height();
    let ghost v0 = *visited;
    let ghost q0 = queue@;
    proof {
        lemma_grows_reflexive(v0, q0);
    }
    let mut x: u32 = 0;
    while x < width
        invariant
            x <= width,
            width == image@.width,
            height == image@.height,
            height > 0,
            v0.width() == image@.width,
            v0.height() == image@.height,
            grows(v0, q0, *visited, queue@),
            forall|px: int, py: int|
                #[trigger] visited.has(px, py) == (v0.has(px, py) || (border_seed(image@, px, py)
                    && (py == 0 || py == height - 1) && px < x)),
        decreases width - x,
    {
        let ghost v1 = *visited;
        let ghost q1 = queue@;
        let _ = enqueue_if_chromakey(x, 0, image, visited, queue, ChromaMatchMode::Seed);
        proof {
            lemma_grows_transitive(v0, q0, v1, q1, *visited, queue@);
        }
        if height > 1 {
            let ghost v2 = *visited;
            let ghost q2 = queue@;
            let _ = enqueue_if_chromakey(
                x,
                height - 1,
                image,
                visited,
                queue,
                ChromaMatchMode::Seed,
            );
            proof {
                lemma_grows_transitive(v0, q0, v2, q2, *visited, queue@);
            }
        }
        x = x + 1;
    }
    let mut y: u32 = 0;
    while y < height
        invariant
            y <= height,
            width == image@.width,
            height == image@.height,
            width > 0,
            v0.width() == image@.width,
            v0.height() == image@.height,
            grows(v0, q0, *visited, queue@),
            forall|px: int, py: int|
                #[trigger] visited.has(px, py) == (v0.has(px, py) || (border_seed(image@, px, py)
                    && (py == 0 || py == height - 1 || ((px == 0 || px == width - 1) && py
                    < y)))),
        decreases height - y,
    {
        let ghost v1 = *visited;
        let ghost q1 = queue@;
        let _ = enqueue_if_chromakey(0, y, image, visited, queue, ChromaMatchMode::Seed);
        proof {
            lemma_grows_transitive(v0, q0, v1, q1, *visited, queue@);
        }
        if width > 1 {
            let ghost v2 = *visited;
            let ghost q2 = queue@;
            let _ = enqueue_if_chromakey(
                width - 1,
                y,
                image,
                visited,
                queue,
                ChromaMatchMode::Seed,
            );
            proof {
                lemma_grows_transitive(v0, q0, v2, q2, *visited, queue@);
            }
        }
        y = y + 1;
    }
}

/// Whether `(x, y)` lies on the edge of the rectangle `left..=right` by
/// `top..=bottom`.
spec fn on_rectangle_edge(
    left: int,
    right: int,
    top: int,
    bottom: int,
    x: int,
    y: int,
) -> bool {
    &&& left <= x <= right
    &&& top <= y <= bottom
    &&& (x == left || x == right || y == top || y == bottom)
}

/// Seeds the fill from the edge of one rectangle. Returns whether a
/// position was enqueued.
fn enqueue_rectangle_edge(
    left: u32,
    right: u32,
    top: u32,
    bottom: u32,
    image: &Image,
    visited: &mut Marks,
    queue: &mut VecDeque<(u32, u32)>,
) -> (seeded: bool)
    requires
        left <= right < image@.width,
        top <= bottom < image@.height,
        old(visited).width() == image@.width,
        old(visited).height() == image@.height,
    ensures
        grows(*old(visited), old(queue)@, *final(visited), final(queue)@),
        seeded == (final(queue)@.len() > old(queue)@.len()),
        forall|x: int, y: int|
            #[trigger] final(visited).has(x, y) == (old(visited).has(x, y) || (on_rectangle_edge(
                left as int,
                right as int,
                top as int,
                bottom as int,
                x,
                y,
            ) && seed_color_at(image@, x, y))),
{
    let ghost v0 = *visited;
    let ghost q0 = queue@;
    proof {
        lemma_grows_reflexive(v0, q0);
    }
    let width = image.width();
    let height = image.height();
    let mut seeded = false;
    let mut x: u32 = left;
    while x <= right
        invariant
            left <= x <= right + 1,
            left <= right < image@.width,
            top <= bottom < image@.height,
            v0.width() == image@.width,
            v0.height() == image@.height,
            image@.width == width,
            image@.height == height,
            grows(v0, q0, *visited, queue@),
            seeded == (queue@.len() > q0.len()),
            forall|px: int, py: int|
                #[trigger] visited.has(px, py) == (v0.has(px, py) || (on_rectangle_edge(
                    left as int,
                    right as int,
                    top as int,
                    bottom as int,
                    px,
                    py,
                ) && seed_color_at(image@, px, py) && (py == top || py == bottom) && px < x)),
        decreases right + 1 - x,
    {
        let ghost v1 = *visited;
        let ghost q1 = queue@;
        let first = enqueue_if_chromakey(x, top, image, visited, queue, ChromaMatchMode::Seed);
        proof {
            lemma_grows_transitive(v0, q0, v1, q1, *visited, queue@);
        }
        let ghost v2 = *visited;
        let ghost q2 = queue@;
        let second = enqueue_if_chromakey(x, bottom, image, visited, queue, ChromaMatchMode::Seed);
        proof {
            lemma_grows_transitive(v0, q0, v2, q2, *visited, queue@);
        }
        seeded = seeded || first || second;
        x = x + 1;
    }
    let mut y: u32 = top;
    while y <= bottom
        invariant
            top <= y <= bottom + 1,
            left <= right < image@.width,
            top <= bottom < image@.height,
            v0.width() == image@.width,
            v0.height() == image@.height,
            image@.width == width,
            image@.height == height,
            grows(v0, q0, *visited, queue@),
            seeded == (queue@.len() > q0.len()),
            forall|px: int, py: int|
                #[trigger] visited.has(px, py) == (v0.has(px, py) || (on_rectangle_edge(
                    left as int,
                    right as int,
                    top as int,
                    bottom as int,
                    px,
                    py,
                ) && seed_color_at(image@, px, py) && (py == top || py == bottom || ((px == left
                    || px == right) && py < y)))),
        decreases bottom + 1 - y,
    {
        let ghost v1 = *visited;
        let ghost q1 = queue@;
        let first = enqueue_if_chromakey(left, y, image, visited, queue, ChromaMatchMode::Seed);
        proof {
            lemma_grows_transitive(v0, q0, v1, q1, *visited, queue@);
        }
        let ghost v2 = *visited;
        let ghost q2 = queue@;
        let second = enqueue_if_chromakey(right, y, image, visited, queue, ChromaMatchMode::Seed);
        proof {
            lemma_grows_transitive(v0, q0, v2, q2, *visited, queue@);
        }
        seeded = seeded || first || second;
        y = y + 1;
    }
    seeded
}

/// Whether `(x, y)` is a seed on the ring of a cell that comes before cell
/// `(row_limit, col_limit)`, the cells taken row by row.
spec fn seeded_before(
    r: Raster,
    rows: int,
    cols: int,
    row_limit: int,
    col_limit: int,
    x: int,
    y: int,
) -> bool {
    exists|row: int, col: int|
        0 <= row < rows && 0 <= col < cols && (row < row_limit || (row == row_limit && col
            < col_limit)) && #[trigger] on_cell_ring(
            r.width as int,
            r.height as int,
            rows,
            cols,
            row,
            col,
            x,
            y,
        ) && seed_color_at(r, x, y)
}

proof fn lemma_seeded_before_all(r: Raster, rows: int, cols: int, x: int, y: int)
    requires
        r.width > 0,
        r.height > 0,
        0 < rows,
        0 < cols,
    ensures
        seeded_before(r, rows, cols, rows, 0, x, y) == grid_seed(r, rows, cols, x, y),
{
    if seeded_before(r, rows, cols, rows, 0, x, y) {
        let (row, col) = choose|row: int, col: int|
            0 <= row < rows && 0 <= col < cols && (row < rows || (row == rows && col < 0))
                && #[trigger] on_cell_ring(
                r.width as int,
                r.height as int,
                rows,
                cols,
                row,
                col,
                x,
                y,
            ) && seed_color_at(r, x, y);
        lemma_ring_inside(r.width as int, r.height as int, rows, cols, row, col, x, y);
    }
}

/// Seeds the fill from the ring of every cell of a `rows` by `cols` grid.
/// Returns whether a position was enqueued.
fn enqueue_chromakey_cell_borders(
    rows: u32,
    cols: u32,
    image: &Image,
    visited: &mut Marks,
    queue: &mut VecDeque<(u32, u32)>,
) -> (seeded: bool)
    requires
        rows > 0,
        cols > 0,
        image@.width > 0,
        image@.height > 0,
        old(visited).width() == image@.width,
        old(visited).height() == image@.height,
    ensures
        grows(*old(visited), old(queue)@, *final(visited), final(queue)@),
        seeded == (final(queue)@.len() > old(queue)@.len()),
        forall|x: int, y: int|
            #[trigger] final(visited).has(x, y) == (old(visited).has(x, y) || grid_seed(
                image@,
                rows as int,
                cols as int,
                x,
                y,
            )),
        forall|k: int|
            old(queue)@.len() <= k < final(queue)@.len() ==> grid_seed(
                image@,
                rows as int,
                cols as int,
                (#[trigger] final(queue)@[k]).0 as int,
                final(queue)@[k].1 as int,
            ),
{
    let width = image.width();
    let height = image.height();
    let ghost r = image@;
    let ghost v0 = *visited;
    let ghost q0 = queue@;
    proof {
        lemma_grows_reflexive(v0, q0);
    }
    let mut seeded = false;
    let mut row: u32 = 0;
    while row < rows
        invariant
            row <= rows,
            cols > 0,
            r == image@,
            width == r.width,
            height == r.height,
            width > 0,
            height > 0,
            v0.width() == r.width,
            v0.height() == r.height,
            grows(v0, q0, *visited, queue@),
            seeded == (queue@.len() > q0.len()),
            forall|px: int, py: int|
                #[trigger] visited.has(px, py) == (v0.has(px, py) || seeded_before(
                    r,
                    rows as int,
                    cols as int,
                    row as int,
                    0,
                    px,
                    py,
                )),
        decreases rows - row,
    {
        match cell_span(row, rows, height) {
            None => {
                proof {
                    assert forall|px: int, py: int|
                        seeded_before(r, rows as int, cols as int, row as int + 1, 0, px, py)
                            == seeded_before(r, rows as int, cols as int, row as int, 0, px, py) by {}
                }
            },
            Some((y_first, y_last)) => {
                proof {
                    lemma_span_bounds(row as int, rows as int, height as int);
                }
                let (top, bottom) = inner_span(y_first, y_last);
                let mut col: u32 = 0;
                while col < cols
                    invariant
                        col <= cols,
                        row < rows,
                        r == image@,
                        width == r.width,
                        height == r.height,
                        width > 0,
                        height > 0,
                        v0.width() == r.width,
                        v0.height() == r.height,
                        y_first == span_first(row as int, rows as int, height as int),
                        y_last == span_last(row as int, rows as int, height as int),
                        y_first <= y_last < height,
                        top == inner(y_first as int, y_last as int).0,
                        bottom == inner(y_first as int, y_last as int).1,
                        grows(v0, q0, *visited, queue@),
                        seeded == (queue@.len() > q0.len()),
                        forall|px: int, py: int|
                            #[trigger] visited.has(px, py) == (v0.has(px, py) || seeded_before(
                                r,
                                rows as int,
                                cols as int,
                                row as int,
                                col as int,
                                px,
                                py,
                            )),
                    decreases cols - col,
                {
                    match cell_span(col, cols, width) {
                        None => {
                            proof {
                                assert forall|px: int, py: int|
                                    seeded_before(
                                        r,
                                        rows as int,
                                        cols as int,
                                        row as int,
                                        col as int + 1,
                                        px,
                                        py,
                                    ) == seeded_before(
                                        r,
                                        rows as int,
                                        cols as int,
                                        row as int,
                                        col as int,
                                        px,
                                        py,
                                    ) by {}
                            }
                        },
                        Some((x_first, x_last)) => {
                            proof {
                                lemma_span_bounds(col as int, cols as int, width as int);
                            }
                            let (left, right) = inner_span(x_first, x_last);
                            let ghost v1 = *visited;
                            let ghost q1 = queue@;
                            let found = enqueue_rectangle_edge(
                                left,
                                right,
                                top,
                                bottom,
                                image,
                                visited,
                                queue,
                            );
                            seeded = seeded || found;
                            proof {
                                lemma_grows_transitive(v0, q0, v1, q1, *visited, queue@);
                                assert forall|px: int, py: int|
                                    on_cell_ring(
                                        r.width as int,
                                        r.height as int,
                                        rows as int,
                                        cols as int,
                                        row as int,
                                        col as int,
                                        px,
                                        py,
                                    ) == on_rectangle_edge(
                                        left as int,
                                        right as int,
                                        top as int,
                                        bottom as int,
                                        px,
                                        py,
                                    ) by {}
                                assert forall|px: int, py: int|
                                    seeded_before(
                                        r,
                                        rows as int,
                                        cols as int,
                                        row as int,
                                        col as int + 1,
                                        px,
                                        py,
                                    ) == (seeded_before(
                                        r,
                                        rows as int,
                                        cols as int,
                                        row as int,
                                        col as int,
                                        px,
                                        py,
                                    ) || (on_rectangle_edge(
                                        left as int,
                                        right as int,
                                        top as int,
                                        bottom as int,
                                        px,
                                        py,
                                    ) && seed_color_at(r, px, py))) by {}
                            }
                        },
                    }
                    col = col + 1;
                }
                proof {
                    assert forall|px: int, py: int|
                        seeded_before(r, rows as int, cols as int, row as int + 1, 0, px, py)
                            == seeded_before(
                            r,
                            rows as int,
                            cols as int,
                            row as int,
                            cols as int,
                            px,
                            py,
                        ) by {}
                }
            },
        }
        row = row + 1;
    }
    proof {
        assert forall|x: int, y: int|
            #[trigger] visited.has(x, y) == (v0.has(x, y) || grid_seed(
                r,
                rows as int,
                cols as int,
                x,
                y,
            )) by {
            lemma_seeded_before_all(r, rows as int, cols as int, x, y);
        }
    }
    seeded
}

/// Whether `(px, py)` is one of the four neighbours of `(x, y)`.
spec fn adjacent(x: int, y: int, px: int, py: int) -> bool {
    ||| (px == x - 1 && py == y)
    ||| (px == x + 1 && py == y)
    ||| (px == x && py == y - 1)
    ||| (px == x && py == y + 1)
}

/// Enqueues the neighbours of `(x, y)` into which the fill spreads.
fn enqueue_neighbors(
    x: u32,
    y: u32,
    image: &Image,
    visited: &mut Marks,
    queue: &mut VecDeque<(u32, u32)>,
)
    requires
        image@.contains(x as int, y as int),
        old(visited).width() == image@.width,
        old(visited).height() == image@.height,
    ensures
        grows(*old(visited), old(queue)@, *final(visited), final(queue)@),
        forall|px: int, py: int|
            #[trigger] final(visited).has(px, py) == (old(visited).has(px, py) || (adjacent(
                x as int,
                y as int,
                px,
                py,
            ) && image@.contains(px, py) && expand_color_at(image@, px, py))),
{
    let width = image.width();
    let height = image.height();
    let ghost v0 = *visited;
    let ghost q0 = queue@;
    if x > 0 {
        let _ = enqueue_if_chromakey(x - 1, y, image, visited, queue, ChromaMatchMode::Expand);
    }
    let ghost v1 = *visited;
    let ghost q1 = queue@;
    if x + 1 < width {
        let _ = enqueue_if_chromakey(x + 1, y, image, visited, queue, ChromaMatchMode::Expand);
    }
    let ghost v2 = *visited;
    let ghost q2 = queue@;
    proof {
        lemma_grows_reflexive(v0, q0);
        lemma_grows_reflexive(v1, q1);
        lemma_grows_transitive(v0, q0, v1, q1, v2, q2);
    }
    if y > 0 {
        let _ = enqueue_if_chromakey(x, y - 1, image, visited, queue, ChromaMatchMode::Expand);
    }
    let ghost v3 = *visited;
    let ghost q3 = queue@;
    proof {
        lemma_grows_reflexive(v2, q2);
        lemma_grows_transitive(v0, q0, v2, q2, v3, q3);
    }
    if y + 1 < height {
        let _ = enqueue_if_chromakey(x, y + 1, image, visited, queue, ChromaMatchMode::Expand);
    }
    proof {
        lemma_grows_reflexive(v3, q3);
        lemma_grows_transitive(v0, q0, v3, q3, *visited, queue@);
    }
}

/// Whether the fill has spread from `(x, y)`: each neighbour into which it
/// spreads is marked.
spec fn spread_from(r: Raster, visited: Marks, x: int, y: int) -> bool {
    forall|px: int, py: int|
        adjacent(x, y, px, py) && r.contains(px, py) && expand_color_at(r, px, py)
            ==> #[trigger] visited.has(px, py)
}

proof fn lemma_reached_step(r: Raster, grid: Option<(u32, u32)>, x: int, y: int, px: int, py: int)
    requires
        reached(r, grid, x, y),
        adjacent(x, y, px, py),
        r.contains(px, py),
        expand_color_at(r, px, py),
    ensures
        reached(r, grid, px, py),
{
    let steps = choose|steps: nat| reached_within(r, grid, x, y, steps);
    assert(reached_within(r, grid, px, py, steps + 1));
}

proof fn lemma_seed_is_reached(r: Raster, grid: Option<(u32, u32)>, x: int, y: int)
    requires
        r.contains(x, y),
        is_seed(r, grid, x, y),
    ensures
        reached(r, grid, x, y),
{
    assert(reached_within(r, grid, x, y, 0));
}

proof fn lemma_spread_set_holds_reached(
    r: Raster,
    grid: Option<(u32, u32)>,
    visited: Marks,
    x: int,
    y: int,
    steps: nat,
)
    requires
        forall|px: int, py: int| r.contains(px, py) && is_seed(r, grid, px, py) ==> visited.has(px, py),
        forall|px: int, py: int| #[trigger] visited.has(px, py) ==> spread_from(r, visited, px, py),
        reached_within(r, grid, x, y, steps),
    ensures
        visited.has(x, y),
    decreases steps,
{
    if !is_seed(r, grid, x, y) {
        let fewer = (steps - 1) as nat;
        if reached_within(r, grid, x - 1, y, fewer) {
            lemma_spread_set_holds_reached(r, grid, visited, x - 1, y, fewer);
            assert(spread_from(r, visited, x - 1, y));
            assert(adjacent(x - 1, y, x, y));
        } else if reached_within(r, grid, x + 1, y, fewer) {
            lemma_spread_set_holds_reached(r, grid, visited, x + 1, y, fewer);
            assert(spread_from(r, visited, x + 1, y));
            assert(adjacent(x + 1, y, x, y));
        } else if reached_within(r, grid, x, y - 1, fewer) {
            lemma_spread_set_holds_reached(r, grid, visited, x, y - 1, fewer);
            assert(spread_from(r, visited, x, y - 1));
            assert(adjacent(x, y - 1, x, y));
        } else {
            lemma_spread_set_holds_reached(r, grid, visited, x, y + 1, fewer);
            assert(spread_from(r, visited, x, y + 1));
            assert(adjacent(x, y + 1, x, y));
        }
    }
}

/// Runs the flood fill from the seeds in the queue until the queue is empty.
fn spread_fill(
    image: &mut Image,
    visited: &mut Marks,
    queue: &mut VecDeque<(u32, u32)>,
    Ghost(grid): Ghost<Option<(u32, u32)>>,
)
    requires
        old(visited).width() == old(image)@.width,
        old(visited).height() == old(image)@.height,
        forall|x: int, y: int|
            #[trigger] old(visited).has(x, y) == (old(image)@.contains(x, y) && is_seed(
                old(image)@,
                grid,
                x,
                y,
            )),
        forall|k: int|
            0 <= k < old(queue)@.len() ==> old(visited).has(
                (#[trigger] old(queue)@[k]).0 as int,
                old(queue)@[k].1 as int,
            ),
        forall|x: int, y: int| #[trigger] old(visited).has(x, y) ==> queued(old(queue)@, 0, x, y),
    ensures
        final(image)@ == flooded(old(image)@, grid),
{
    let ghost r0 = image@;
    let ghost mut done: Set<(int, int)> = Set::empty();
    let width = image.width();
    let height = image.height();
    proof {
        assert forall|x: int, y: int| #[trigger] visited.has(x, y) implies reached(
            r0,
            grid,
            x,
            y,
        ) by {
            lemma_seed_is_reached(r0, grid, x, y);
        }
    }
    while queue.len() > 0
        invariant
            r0.wf(),
            image@.wf(),
            image@.width == r0.width,
            image@.height == r0.height,
            visited.width() == r0.width,
            visited.height() == r0.height,
            forall|x: int, y: int| #[trigger] visited.has(x, y) ==> reached(r0, grid, x, y),
            forall|x: int, y: int|
                r0.contains(x, y) && is_seed(r0, grid, x, y) ==> #[trigger] visited.has(x, y),
            forall|k: int|
                0 <= k < queue@.len() ==> visited.has(
                    (#[trigger] queue@[k]).0 as int,
                    queue@[k].1 as int,
                ),
            forall|x: int, y: int|
                #[trigger] visited.has(x, y) ==> done.contains((x, y)) || queued(queue@, 0, x, y),
            forall|x: int, y: int|
                #[trigger] done.contains((x, y)) ==> r0.contains(x, y) && visited.has(x, y)
                    && image@.at(x, y) == cleared() && spread_from(r0, *visited, x, y),
            forall|x: int, y: int|
                r0.contains(x, y) && !done.contains((x, y)) ==> #[trigger] image@.at(x, y)
                    == r0.at(x, y),
        decreases 2 * visited.unmarked() + queue@.len(),
    {
        let ghost q_before = queue@;
        let ghost v_before = *visited;
        let ghost cur = image@;
        let front = queue.pop_front();
        let (x, y) = front.unwrap();
        let ghost q_popped = queue@;
        proof {
            assert(q_before[0] == (x, y));
            assert(visited.has(x as int, y as int));
            assert(reached(r0, grid, x as int, y as int));
        }
        assert(visited.has(x as int, y as int) ==> x < visited.width() && y < visited.height()) by {
            visited.lemma_has_inside(x as int, y as int);
        }
        image.put_pixel(x, y, Pixel::transparent());
        let ghost now = image@;
        proof {
            assert forall|px: int, py: int| r0.contains(px, py) implies #[trigger] now.at(px, py)
                == if px == x && py == y {
                cleared()
            } else {
                cur.at(px, py)
            } by {
                cur.lemma_with_pixel_at(x as int, y as int, cleared(), px, py);
            }
            cur.lemma_with_pixel_at(x as int, y as int, cleared(), x as int, y as int);
        }
        enqueue_neighbors(x, y, image, visited, queue);
        proof {
            lemma_black_matches_nothing();
            let ghost old_done = done;
            done = done.insert((x as int, y as int));
            assert forall|px: int, py: int| #[trigger] visited.has(px, py) implies reached(
                r0,
                grid,
                px,
                py,
            ) by {
                if !v_before.has(px, py) {
                    assert(adjacent(x as int, y as int, px, py));
                    assert(expand_color_at(now, px, py));
                    assert(now.at(px, py) == cur.at(px, py));
                    if old_done.contains((px, py)) {
                        assert(cur.at(px, py) == cleared());
                    }
                    assert(cur.at(px, py) == r0.at(px, py));
                    lemma_reached_step(r0, grid, x as int, y as int, px, py);
                }
            }
            assert forall|px: int, py: int| #[trigger] visited.has(px, py) implies (done.contains(
                (px, py),
            ) || queued(queue@, 0, px, py)) by {
                if v_before.has(px, py) {
                    if !old_done.contains((px, py)) && !(px == x && py == y) {
                        let k = choose|k: int|
                            0 <= k < q_before.len() && (#[trigger] q_before[k]).0 == px
                                && q_before[k].1 == py;
                        assert(k > 0);
                        assert(q_popped[k - 1] == q_before[k]);
                        assert(queue@[k - 1] == q_popped[k - 1]);
                    }
                }
            }
            assert forall|px: int, py: int| #[trigger] done.contains((px, py)) implies (r0.contains(
                px,
                py,
            ) && visited.has(px, py) && image@.at(px, py) == cleared() && spread_from(
                r0,
                *visited,
                px,
                py,
            )) by {
                if px == x && py == y {
                    assert forall|nx: int, ny: int|
                        adjacent(px, py, nx, ny) && r0.contains(nx, ny) && expand_color_at(
                            r0,
                            nx,
                            ny,
                        ) implies #[trigger] visited.has(nx, ny) by {
                        if !old_done.contains((nx, ny)) {
                            assert(now.at(nx, ny) == cur.at(nx, ny));
                            assert(cur.at(nx, ny) == r0.at(nx, ny));
                        }
                    }
                } else {
                    assert(spread_from(r0, v_before, px, py));
                }
            }
            assert forall|k: int| 0 <= k < queue@.len() implies visited.has(
                (#[trigger] queue@[k]).0 as int,
                queue@[k].1 as int,
            ) by {
                if k < q_popped.len() {
                    assert(queue@[k] == q_popped[k]);
                    assert(q_popped[k] == q_before[k + 1]);
                    assert(v_before.has(q_before[k + 1].0 as int, q_before[k + 1].1 as int));
                }
            }
        }
    }
    proof {
        let f = |x: int, y: int|
            if reached(r0, grid, x, y) {
                cleared()
            } else {
                r0.at(x, y)
            };
        assert forall|x: int, y: int| image@.contains(x, y) implies image@.at(x, y) == flooded(
            r0,
            grid,
        ).at(x, y) by {
            Raster::lemma_build_at(r0.width, r0.height, f, x, y);
            if reached(r0, grid, x, y) {
                let steps = choose|steps: nat| reached_within(r0, grid, x, y, steps);
                lemma_spread_set_holds_reached(r0, grid, *visited, x, y, steps);
                assert(done.contains((x, y)));
            } else {
                assert(!visited.has(x, y));
                assert(!done.contains((x, y)));
            }
        }
        Raster::lemma_build_wf(r0.width, r0.height, f);
        image@.lemma_equal_by_positions(flooded(r0, grid));
    }
}

/// The flood fill: clears every pixel that the fill reaches from its seeds.
/// Seeds are taken from the cell rings of `sprite_grid` where it is given
/// with positive numbers and those rings hold a seed, else from the outer
/// border of the image.
pub fn flood_fill(image: &mut Image, sprite_grid: Option<(u32, u32)>)
    ensures
        final(image)@ == flooded(old(image)@, sprite_grid),
        old(image)@.wf(),
{
    let ghost r0 = image@;
    let width = image.width();
    let height = image.height();
    if width == 0 || height == 0 {
        proof {
            let fill = |x: int, y: int|
                if reached(r0, sprite_grid, x, y) {
                    cleared()
                } else {
                    r0.at(x, y)
                };
            Raster::lemma_build_wf(r0.width, r0.height, fill);
            assert(r0.width * r0.height == 0) by (nonlinear_arith)
                requires
                    r0.width == 0 || r0.height == 0,
            ;
            assert(r0.pixels =~= flooded(r0, sprite_grid).pixels);
        }
        return ;
    }
    let mut visited = Marks::for_image(image);
    let mut queue: VecDeque<(u32, u32)> = VecDeque::new();
    let ghost v0 = visited;
    let ghost q0 = queue@;
    let seeded = match sprite_grid {
        Some((rows, cols)) => if rows > 0 && cols > 0 {
            enqueue_chromakey_cell_borders(rows, cols, image, &mut visited, &mut queue)
        } else {
            false
        },
        None => false,
    };
    let ghost v1 = visited;
    let ghost q1 = queue@;
    proof {
        lemma_grows_reflexive(v0, q0);
        assert(grows(v0, q0, v1, q1));
        if seeded {
            assert(v1.has(q1[0].0 as int, q1[0].1 as int));
        }
        if seeds_from_grid(r0, sprite_grid) {
            let (rows, cols) = sprite_grid->0;
            let (x, y) = choose|x: int, y: int| #[trigger]
                grid_seed(r0, rows as int, cols as int, x, y);
            assert(v1.has(x, y));
            assert(queued(q1, 0, x, y));
        }
        assert(seeded == seeds_from_grid(r0, sprite_grid));
    }
    if !seeded {
        enqueue_chromakey_borders(image, &mut visited, &mut queue);
        proof {
            lemma_grows_transitive(v0, q0, v1, q1, visited, queue@);
        }
    }
    proof {
        assert forall|x: int, y: int| #[trigger]
            visited.has(x, y) == (r0.contains(x, y) && is_seed(r0, sprite_grid, x, y)) by {
            if !seeded {
                assert(!v1.has(x, y)) by {
                    if v1.has(x, y) {
                        assert(queued(q1, 0, x, y));
                    }
                }
            }
        }
    }
    spread_fill(image, &mut visited, &mut queue, Ghost(sprite_grid));
}

} // verus!
