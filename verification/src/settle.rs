//! When a second segmentation changes nothing: the images on which the
//! segmenter has nothing left to do, and the proof that it leaves them alone.

use crate::chroma::lemma_black_matches_nothing;
use crate::raster::{cleared, lemma_offset_in_range, Raster};
use crate::segment::{
    border_seed, flooded, fringe_pass, fringe_passes, fringe_target, grid_seed, is_seed,
    lemma_build_only_clears, lemma_fringe_only_clears, lemma_fringe_settled,
    lemma_segmented_only_clears, reached, reached_within, seeds_from_grid, segmented, strong_pass,
    strong_target, FRINGE_PASSES,
};
use vstd::prelude::*;

verus! {

/// Whether the segmenter has nothing left to do on `r`: no pixel of the
/// outer border may seed the fill, and no pixel is a target of a fringe pass.
pub open spec fn settled(r: Raster) -> bool {
    &&& forall|x: int, y: int| !#[trigger] border_seed(r, x, y)
    &&& forall|x: int, y: int| r.contains(x, y) ==> !#[trigger] fringe_target(r, x, y)
}

proof fn lemma_only_clears_at(a: Raster, b: Raster, x: int, y: int)
    requires
        a.only_clears(b),
        b.wf(),
        b.contains(x, y),
    ensures
        a.at(x, y) == b.at(x, y) || a.at(x, y) == cleared(),
{
    lemma_offset_in_range(b.width, b.height, x, y);
    let i = b.offset(x, y);
    assert(a.pixels[i] == b.pixels[i] || a.pixels[i] == cleared());
}

/// What holds of every pixel of a segmented image: it is cleared or the
/// pixel of the input; it is cleared where the input had a seed; and the
/// global pass would not clear it.
proof fn lemma_segmented_pixel(r: Raster, grid: Option<(u32, u32)>, x: int, y: int)
    requires
        r.wf(),
        r.contains(x, y),
    ensures
        segmented(r, grid).at(x, y) == r.at(x, y) || segmented(r, grid).at(x, y) == cleared(),
        is_seed(r, grid, x, y) ==> segmented(r, grid).at(x, y) == cleared(),
        !strong_target(segmented(r, grid).at(x, y)),
{
    let fill = |x: int, y: int|
        if reached(r, grid, x, y) {
            cleared()
        } else {
            r.at(x, y)
        };
    lemma_build_only_clears(r, fill);
    Raster::lemma_build_at(r.width, r.height, fill, x, y);
    let a = flooded(r, grid);
    let strong = |x: int, y: int|
        if strong_target(a.at(x, y)) {
            cleared()
        } else {
            a.at(x, y)
        };
    lemma_build_only_clears(a, strong);
    Raster::lemma_build_at(a.width, a.height, strong, x, y);
    let b = strong_pass(a);
    lemma_fringe_only_clears(b, FRINGE_PASSES as nat);
    let o = segmented(r, grid);
    lemma_only_clears_at(o, b, x, y);
    if is_seed(r, grid, x, y) {
        assert(reached_within(r, grid, x, y, 0));
    }
}

proof fn lemma_no_seed_no_reach(r: Raster, grid: Option<(u32, u32)>, x: int, y: int, steps: nat)
    requires
        forall|px: int, py: int| r.contains(px, py) ==> !is_seed(r, grid, px, py),
    ensures
        !reached_within(r, grid, x, y, steps),
    decreases steps,
{
    if steps > 0 {
        let fewer = (steps - 1) as nat;
        lemma_no_seed_no_reach(r, grid, x - 1, y, fewer);
        lemma_no_seed_no_reach(r, grid, x + 1, y, fewer);
        lemma_no_seed_no_reach(r, grid, x, y - 1, fewer);
        lemma_no_seed_no_reach(r, grid, x, y + 1, fewer);
    }
}

/// The cell rings of a result of the segmenter hold no seed any more, so a
/// second run with the same grid takes its seeds from the outer border.
proof fn lemma_rings_hold_no_seed(r: Raster, grid: Option<(u32, u32)>)
    requires
        r.wf(),
    ensures
        !seeds_from_grid(segmented(r, grid), grid),
{
    let o = segmented(r, grid);
    lemma_segmented_only_clears(r, grid);
    lemma_black_matches_nothing();
    if seeds_from_grid(o, grid) {
        let (rows, cols) = grid->0;
        let (sx, sy) = choose|sx: int, sy: int| #[trigger]
            grid_seed(o, rows as int, cols as int, sx, sy);
        lemma_segmented_pixel(r, grid, sx, sy);
        assert(o.at(sx, sy) == r.at(sx, sy));
        assert(grid_seed(r, rows as int, cols as int, sx, sy));
        assert(seeds_from_grid(r, grid));
        assert(is_seed(r, grid, sx, sy));
    }
}

/// A pixel that one stage has cleared stays cleared to the end.
proof fn lemma_cleared_stays(r: Raster, grid: Option<(u32, u32)>, x: int, y: int)
    requires
        r.wf(),
        r.contains(x, y),
    ensures
        flooded(r, grid).at(x, y) == cleared() ==> segmented(r, grid).at(x, y) == cleared(),
        strong_pass(flooded(r, grid)).at(x, y) == cleared() ==> segmented(r, grid).at(x, y)
            == cleared(),
        fringe_pass(strong_pass(flooded(r, grid))).at(x, y) == cleared() ==> segmented(r, grid).at(
            x,
            y,
        ) == cleared(),
{
    let fill = |x: int, y: int|
        if reached(r, grid, x, y) {
            cleared()
        } else {
            r.at(x, y)
        };
    lemma_build_only_clears(r, fill);
    let a = flooded(r, grid);
    let strong = |x: int, y: int|
        if strong_target(a.at(x, y)) {
            cleared()
        } else {
            a.at(x, y)
        };
    lemma_build_only_clears(a, strong);
    Raster::lemma_build_at(a.width, a.height, strong, x, y);
    let b = strong_pass(a);
    let fringe = |x: int, y: int|
        if fringe_target(b, x, y) {
            cleared()
        } else {
            b.at(x, y)
        };
    lemma_build_only_clears(b, fringe);
    let c = fringe_pass(b);
    lemma_fringe_only_clears(c, 1);
    lemma_only_clears_at(c, b, x, y);
    assert(segmented(r, grid) == fringe_passes(c, 1)) by {
        assert(fringe_passes(b, 2) == fringe_passes(fringe_pass(b), 1));
    }
    lemma_only_clears_at(segmented(r, grid), c, x, y);
}

/// A result of the segmenter without a seed on its outer border passes the
/// flood fill and the global pass of a second run unchanged.
proof fn lemma_seedless_result_passes(r: Raster, grid: Option<(u32, u32)>)
    requires
        r.wf(),
        forall|x: int, y: int| !#[trigger] border_seed(segmented(r, grid), x, y),
    ensures
        flooded(segmented(r, grid), grid) == segmented(r, grid),
        strong_pass(segmented(r, grid)) == segmented(r, grid),
{
    let o = segmented(r, grid);
    lemma_segmented_only_clears(r, grid);
    lemma_rings_hold_no_seed(r, grid);
    assert forall|x: int, y: int| o.contains(x, y) implies !is_seed(o, grid, x, y) by {
        assert(!border_seed(o, x, y));
    }
    let fill = |x: int, y: int|
        if reached(o, grid, x, y) {
            cleared()
        } else {
            o.at(x, y)
        };
    assert forall|x: int, y: int| o.contains(x, y) implies o.at(x, y) == flooded(o, grid).at(
        x,
        y,
    ) by {
        Raster::lemma_build_at(o.width, o.height, fill, x, y);
        if reached(o, grid, x, y) {
            let steps = choose|steps: nat| reached_within(o, grid, x, y, steps);
            lemma_no_seed_no_reach(o, grid, x, y, steps);
        }
    }
    lemma_build_only_clears(o, fill);
    o.lemma_equal_by_positions(flooded(o, grid));
    let strong = |x: int, y: int|
        if strong_target(o.at(x, y)) {
            cleared()
        } else {
            o.at(x, y)
        };
    assert forall|x: int, y: int| o.contains(x, y) implies o.at(x, y) == strong_pass(o).at(
        x,
        y,
    ) by {
        Raster::lemma_build_at(o.width, o.height, strong, x, y);
        lemma_segmented_pixel(r, grid, x, y);
    }
    lemma_build_only_clears(o, strong);
    o.lemma_equal_by_positions(strong_pass(o));
}

/// Segmenting a settled result of the segmenter again, with the same grid,
/// gives back that result.
///
/// A result need not be settled. After seeds were taken from the cell
/// rings, a pixel of the outer border that no stage reached may still seed
/// a second run, which falls back to the border once the rings hold no seed
/// any more. And where both fringe passes cleared pixels, a second run goes
/// on where the first one stopped.
pub proof fn lemma_segmentation_idempotent(r: Raster, grid: Option<(u32, u32)>)
    requires
        r.wf(),
        settled(segmented(r, grid)),
    ensures
        segmented(segmented(r, grid), grid) == segmented(r, grid),
{
    let o = segmented(r, grid);
    lemma_segmented_only_clears(r, grid);
    lemma_seedless_result_passes(r, grid);
    lemma_fringe_settled(o, FRINGE_PASSES as nat);
}

/// Segmenting a result of the segmenter that is not settled changes it:
/// the results that a second run leaves alone are exactly the settled ones.
pub proof fn lemma_unsettled_result_changes(r: Raster, grid: Option<(u32, u32)>)
    requires
        r.wf(),
        !settled(segmented(r, grid)),
    ensures
        segmented(segmented(r, grid), grid) != segmented(r, grid),
{
    let o = segmented(r, grid);
    lemma_segmented_only_clears(r, grid);
    lemma_rings_hold_no_seed(r, grid);
    lemma_black_matches_nothing();
    if exists|x: int, y: int| #[trigger] border_seed(o, x, y) {
        let (x, y) = choose|x: int, y: int| #[trigger] border_seed(o, x, y);
        assert(is_seed(o, grid, x, y));
        assert(reached_within(o, grid, x, y, 0));
        let fill = |x: int, y: int|
            if reached(o, grid, x, y) {
                cleared()
            } else {
                o.at(x, y)
            };
        Raster::lemma_build_at(o.width, o.height, fill, x, y);
        lemma_cleared_stays(o, grid, x, y);
        assert(segmented(o, grid).at(x, y) != o.at(x, y));
    } else {
        let (x, y) = choose|x: int, y: int| o.contains(x, y) && #[trigger] fringe_target(o, x, y);
        lemma_seedless_result_passes(r, grid);
        let fringe = |x: int, y: int|
            if fringe_target(o, x, y) {
                cleared()
            } else {
                o.at(x, y)
            };
        Raster::lemma_build_at(o.width, o.height, fringe, x, y);
        lemma_cleared_stays(o, grid, x, y);
        assert(segmented(o, grid).at(x, y) != o.at(x, y));
    }
}

} // verus!
