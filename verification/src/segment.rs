//! The chromakey segmenter: seeds on a border ring, a flood fill over
//! 4-connected neighbours, a global pass for unambiguous backdrop, and a
//! fringe cleanup along the matte boundary.

use crate::chroma::{
    is_expand_color, is_fringe_color, is_seed_color, is_strong_color, matches_chromakey_fringe,
    matches_chromakey_global_strong,
};
use crate::flood::flood_fill;
use crate::grid::{on_border, on_grid_ring};
use crate::raster::{cleared, Image, Pixel, Raster};
use vstd::prelude::*;

verus! {

/// How many fringe passes the segmenter makes at most.
pub const FRINGE_PASSES: usize = 2;

/// Whether the pixel at `(x, y)` may seed the fill.
pub open spec fn seed_color_at(r: Raster, x: int, y: int) -> bool {
    let p = r.at(x, y);
    is_seed_color(p.r, p.g, p.b)
}

/// Whether the fill spreads into the pixel at `(x, y)`.
pub open spec fn expand_color_at(r: Raster, x: int, y: int) -> bool {
    let p = r.at(x, y);
    is_expand_color(p.r, p.g, p.b)
}

/// Whether `(x, y)` is a seed taken from the cell rings of a grid.
pub open spec fn grid_seed(r: Raster, rows: int, cols: int, x: int, y: int) -> bool {
    &&& r.contains(x, y)
    &&& on_grid_ring(r.width as int, r.height as int, rows, cols, x, y)
    &&& seed_color_at(r, x, y)
}

/// Whether `(x, y)` is a seed taken from the outer border of the image.
pub open spec fn border_seed(r: Raster, x: int, y: int) -> bool {
    &&& on_border(r.width as int, r.height as int, x, y)
    &&& seed_color_at(r, x, y)
}

/// Whether the cell rings of a grid hold any seed at all.
pub open spec fn grid_seeds_exist(r: Raster, rows: int, cols: int) -> bool {
    exists|x: int, y: int| #[trigger] grid_seed(r, rows, cols, x, y)
}

/// Whether the grid hint is used: it is given, both of its numbers are
/// positive, and its cell rings hold a seed.
pub open spec fn seeds_from_grid(r: Raster, grid: Option<(u32, u32)>) -> bool {
    match grid {
        Some((rows, cols)) => rows > 0 && cols > 0 && grid_seeds_exist(r, rows as int, cols as int),
        None => false,
    }
}

/// Whether the fill starts at `(x, y)`: a seed of the cell rings where the
/// grid hint is used, a seed of the outer border where it is not.
pub open spec fn is_seed(r: Raster, grid: Option<(u32, u32)>, x: int, y: int) -> bool {
    match grid {
        Some((rows, cols)) => if seeds_from_grid(r, grid) {
            grid_seed(r, rows as int, cols as int, x, y)
        } else {
            border_seed(r, x, y)
        },
        None => border_seed(r, x, y),
    }
}

/// Whether the fill reaches `(x, y)` in at most `steps` steps from a seed,
/// each step going to a 4-connected neighbour into which the fill spreads.
pub open spec fn reached_within(
    r: Raster,
    grid: Option<(u32, u32)>,
    x: int,
    y: int,
    steps: nat,
) -> bool
    decreases steps,
{
    &&& r.contains(x, y)
    &&& is_seed(r, grid, x, y) || (steps > 0 && expand_color_at(r, x, y) && {
        let fewer = (steps - 1) as nat;
        ||| reached_within(r, grid, x - 1, y, fewer)
        ||| reached_within(r, grid, x + 1, y, fewer)
        ||| reached_within(r, grid, x, y - 1, fewer)
        ||| reached_within(r, grid, x, y + 1, fewer)
    })
}

/// Whether the fill reaches `(x, y)`.
pub open spec fn reached(r: Raster, grid: Option<(u32, u32)>, x: int, y: int) -> bool {
    exists|steps: nat| reached_within(r, grid, x, y, steps)
}

/// The image after the flood fill: every reached pixel cleared.
pub open spec fn flooded(r: Raster, grid: Option<(u32, u32)>) -> Raster {
    Raster::build(
        r.width,
        r.height,
        |x: int, y: int|
            if reached(r, grid, x, y) {
                cleared()
            } else {
                r.at(x, y)
            },
    )
}

/// Whether the global pass clears a pixel: it is not fully transparent and
/// its colour is unambiguous backdrop.
pub open spec fn strong_target(p: Pixel) -> bool {
    p.a != 0 && is_strong_color(p.r, p.g, p.b)
}

/// The image after the global pass.
pub open spec fn strong_pass(r: Raster) -> Raster {
    Raster::build(
        r.width,
        r.height,
        |x: int, y: int|
            if strong_target(r.at(x, y)) {
                cleared()
            } else {
                r.at(x, y)
            },
    )
}

/// Whether `(x, y)` is a position of the image whose pixel is fully transparent.
pub open spec fn clear_at(r: Raster, x: int, y: int) -> bool {
    r.contains(x, y) && r.at(x, y).a == 0
}

/// Whether one of the eight neighbours of `(x, y)` is fully transparent.
pub open spec fn has_clear_neighbor(r: Raster, x: int, y: int) -> bool {
    ||| clear_at(r, x - 1, y - 1)
    ||| clear_at(r, x, y - 1)
    ||| clear_at(r, x + 1, y - 1)
    ||| clear_at(r, x - 1, y)
    ||| clear_at(r, x + 1, y)
    ||| clear_at(r, x - 1, y + 1)
    ||| clear_at(r, x, y + 1)
    ||| clear_at(r, x + 1, y + 1)
}

/// Whether a fringe pass clears the pixel at `(x, y)`: it is not fully
/// transparent, its colour is faint backdrop bleed, and a neighbour is
/// fully transparent.
pub open spec fn fringe_target(r: Raster, x: int, y: int) -> bool {
    let p = r.at(x, y);
    p.a != 0 && is_fringe_color(p.r, p.g, p.b) && has_clear_neighbor(r, x, y)
}

/// The image after one fringe pass. All targets are found first and then
/// cleared together.
pub open spec fn fringe_pass(r: Raster) -> Raster {
    Raster::build(
        r.width,
        r.height,
        |x: int, y: int|
            if fringe_target(r, x, y) {
                cleared()
            } else {
                r.at(x, y)
            },
    )
}

/// The image after `passes` fringe passes.
pub open spec fn fringe_passes(r: Raster, passes: nat) -> Raster
    decreases passes,
{
    if passes == 0 {
        r
    } else {
        fringe_passes(fringe_pass(r), (passes - 1) as nat)
    }
}

/// The image after segmentation.
pub open spec fn segmented(r: Raster, grid: Option<(u32, u32)>) -> Raster {
    fringe_passes(strong_pass(flooded(r, grid)), FRINGE_PASSES as nat)
}

/// Whether `(px, py)` comes before `(x, y)` when an image is read row by row.
spec fn scanned(px: int, py: int, x: int, y: int) -> bool {
    py < y || (py == y && px < x)
}

/// The global pass: clears every pixel that is not fully transparent and
/// whose colour is unambiguous backdrop, wherever it lies.
pub fn clear_strong_chromakey_anywhere(image: &mut Image)
    ensures
        final(image)@ == strong_pass(old(image)@),
{
    let ghost r0 = image@;
    let width = image.width();
    let height = image.height();
    let mut y: u32 = 0;
    while y < height
        invariant
            y <= height,
            r0.wf(),
            image@.wf(),
            width == r0.width,
            height == r0.height,
            image@.width == r0.width,
            image@.height == r0.height,
            forall|px: int, py: int|
                r0.contains(px, py) ==> #[trigger] image@.at(px, py) == if scanned(
                    px,
                    py,
                    0,
                    y as int,
                ) && strong_target(r0.at(px, py)) {
                    cleared()
                } else {
                    r0.at(px, py)
                },
        decreases height - y,
    {
        let mut x: u32 = 0;
        while x < width
            invariant
                x <= width,
                y < height,
                r0.wf(),
                image@.wf(),
                width == r0.width,
                height == r0.height,
                image@.width == r0.width,
                image@.height == r0.height,
                forall|px: int, py: int|
                    r0.contains(px, py) ==> #[trigger] image@.at(px, py) == if scanned(
                        px,
                        py,
                        x as int,
                        y as int,
                    ) && strong_target(r0.at(px, py)) {
                        cleared()
                    } else {
                        r0.at(px, py)
                    },
            decreases width - x,
        {
            let pixel = image.get_pixel(x, y);
            if pixel.a != 0 && matches_chromakey_global_strong(pixel.r, pixel.g, pixel.b) {
                let ghost cur = image@;
                image.put_pixel(x, y, Pixel::transparent());
                proof {
                    assert forall|px: int, py: int| r0.contains(px, py) implies #[trigger] image@.at(
                        px,
                        py,
                    ) == if px == x && py == y {
                        cleared()
                    } else {
                        cur.at(px, py)
                    } by {
                        cur.lemma_with_pixel_at(x as int, y as int, cleared(), px, py);
                    }
                    cur.lemma_with_pixel_at(x as int, y as int, cleared(), x as int, y as int);
                }
            }
            x = x + 1;
        }
        y = y + 1;
    }
    proof {
        let f = |x: int, y: int|
            if strong_target(r0.at(x, y)) {
                cleared()
            } else {
                r0.at(x, y)
            };
        assert forall|x: int, y: int| image@.contains(x, y) implies image@.at(x, y) == strong_pass(
            r0,
        ).at(x, y) by {
            Raster::lemma_build_at(r0.width, r0.height, f, x, y);
        }
        Raster::lemma_build_wf(r0.width, r0.height, f);
        image@.lemma_equal_by_positions(strong_pass(r0));
    }
}

fn transparent_at(image: &Image, x: i64, y: i64) -> (found: bool)
    ensures
        found == clear_at(image@, x as int, y as int),
{
    if x < 0 || y < 0 || x >= image.width() as i64 || y >= image.height() as i64 {
        false
    } else {
        image.get_pixel(x as u32, y as u32).a == 0
    }
}

/// Whether one of the eight neighbours of `(x, y)` is fully transparent.
pub fn has_transparent_neighbor(image: &Image, x: u32, y: u32) -> (found: bool)
    ensures
        found == has_clear_neighbor(image@, x as int, y as int),
{
    let cx = x as i64;
    let cy = y as i64;
    transparent_at(image, cx - 1, cy - 1) || transparent_at(image, cx, cy - 1) || transparent_at(
        image,
        cx + 1,
        cy - 1,
    ) || transparent_at(image, cx - 1, cy) || transparent_at(image, cx + 1, cy) || transparent_at(
        image,
        cx - 1,
        cy + 1,
    ) || transparent_at(image, cx, cy + 1) || transparent_at(image, cx + 1, cy + 1)
}

/// Whether `(x, y)` is among the first `count` entries of `list`.
spec fn listed(list: Seq<(u32, u32)>, count: int, x: int, y: int) -> bool {
    exists|k: int| 0 <= k < count && k < list.len() && (#[trigger] list[k]).0 == x && list[k].1 == y
}

/// One fringe pass. Returns whether it cleared a pixel.
fn clear_fringe_once(image: &mut Image) -> (changed: bool)
    ensures
        old(image)@.wf(),
        final(image)@ == fringe_pass(old(image)@),
        changed == exists|x: int, y: int|
            old(image)@.contains(x, y) && #[trigger] fringe_target(old(image)@, x, y),
{
    let ghost r0 = image@;
    let width = image.width();
    let height = image.height();
    let mut to_clear: Vec<(u32, u32)> = Vec::new();
    let mut y: u32 = 0;
    while y < height
        invariant
            y <= height,
            r0 == image@,
            r0.wf(),
            width == r0.width,
            height == r0.height,
            forall|k: int|
                0 <= k < to_clear@.len() ==> r0.contains(
                    (#[trigger] to_clear@[k]).0 as int,
                    to_clear@[k].1 as int,
                ) && fringe_target(r0, to_clear@[k].0 as int, to_clear@[k].1 as int),
            forall|px: int, py: int|
                r0.contains(px, py) && scanned(px, py, 0, y as int) && #[trigger] fringe_target(
                    r0,
                    px,
                    py,
                ) ==> listed(to_clear@, to_clear@.len() as int, px, py),
        decreases height - y,
    {
        let mut x: u32 = 0;
        while x < width
            invariant
                x <= width,
                y < height,
                r0 == image@,
                r0.wf(),
                width == r0.width,
                height == r0.height,
                forall|k: int|
                    0 <= k < to_clear@.len() ==> r0.contains(
                        (#[trigger] to_clear@[k]).0 as int,
                        to_clear@[k].1 as int,
                    ) && fringe_target(r0, to_clear@[k].0 as int, to_clear@[k].1 as int),
                forall|px: int, py: int|
                    r0.contains(px, py) && scanned(px, py, x as int, y as int)
                        && #[trigger] fringe_target(r0, px, py) ==> listed(
                        to_clear@,
                        to_clear@.len() as int,
                        px,
                        py,
                    ),
            decreases width - x,
        {
            let pixel = image.get_pixel(x, y);
            if pixel.a != 0 && matches_chromakey_fringe(pixel.r, pixel.g, pixel.b)
                && has_transparent_neighbor(image, x, y) {
                let ghost before = to_clear@;
                to_clear.push((x, y));
                proof {
                    assert(to_clear@[before.len() as int] == (x, y));
                    assert forall|px: int, py: int|
                        r0.contains(px, py) && scanned(px, py, x as int + 1, y as int)
                            && #[trigger] fringe_target(r0, px, py) implies listed(
                        to_clear@,
                        to_clear@.len() as int,
                        px,
                        py,
                    ) by {
                        if px == x && py == y {
                            assert(to_clear@[before.len() as int].0 == px);
                        } else {
                            let k = choose|k: int|
                                0 <= k < before.len() && k < before.len() && (
                                #[trigger] before[k]).0 == px && before[k].1 == py;
                            assert(to_clear@[k] == before[k]);
                        }
                    }
                }
            }
            x = x + 1;
        }
        y = y + 1;
    }
    let changed = to_clear.len() > 0;
    let mut next: usize = 0;
    while next < to_clear.len()
        invariant
            next <= to_clear@.len(),
            r0.wf(),
            image@.wf(),
            image@.width == r0.width,
            image@.height == r0.height,
            forall|k: int|
                0 <= k < to_clear@.len() ==> r0.contains(
                    (#[trigger] to_clear@[k]).0 as int,
                    to_clear@[k].1 as int,
                ),
            forall|px: int, py: int|
                r0.contains(px, py) ==> #[trigger] image@.at(px, py) == if listed(
                    to_clear@,
                    next as int,
                    px,
                    py,
                ) {
                    cleared()
                } else {
                    r0.at(px, py)
                },
        decreases to_clear@.len() - next,
    {
        let (x, y) = to_clear[next];
        let ghost cur = image@;
        proof {
            assert(r0.contains(to_clear@[next as int].0 as int, to_clear@[next as int].1 as int));
        }
        image.put_pixel(x, y, Pixel::transparent());
        proof {
            cur.lemma_with_pixel_at(x as int, y as int, cleared(), x as int, y as int);
            assert forall|px: int, py: int| r0.contains(px, py) implies #[trigger] image@.at(px, py)
                == if listed(to_clear@, next as int + 1, px, py) {
                cleared()
            } else {
                r0.at(px, py)
            } by {
                cur.lemma_with_pixel_at(x as int, y as int, cleared(), px, py);
                if px == x && py == y {
                    assert(to_clear@[next as int].0 == px);
                } else if listed(to_clear@, next as int + 1, px, py) {
                    let k = choose|k: int|
                        0 <= k < next as int + 1 && k < to_clear@.len() && (
                        #[trigger] to_clear@[k]).0 == px && to_clear@[k].1 == py;
                    assert(k < next);
                }
            }
        }
        next = next + 1;
    }
    proof {
        let f = |x: int, y: int|
            if fringe_target(r0, x, y) {
                cleared()
            } else {
                r0.at(x, y)
            };
        assert forall|x: int, y: int| image@.contains(x, y) implies image@.at(x, y) == fringe_pass(
            r0,
        ).at(x, y) by {
            Raster::lemma_build_at(r0.width, r0.height, f, x, y);
            if listed(to_clear@, to_clear@.len() as int, x, y) {
                let k = choose|k: int|
                    0 <= k < to_clear@.len() && k < to_clear@.len() && (#[trigger] to_clear@[k]).0
                        == x && to_clear@[k].1 == y;
                assert(fringe_target(r0, to_clear@[k].0 as int, to_clear@[k].1 as int));
            }
        }
        Raster::lemma_build_wf(r0.width, r0.height, f);
        image@.lemma_equal_by_positions(fringe_pass(r0));
        if changed {
            assert(fringe_target(r0, to_clear@[0].0 as int, to_clear@[0].1 as int));
        }
    }
    changed
}

/// A fringe pass over an image without targets changes nothing, however
/// often it is made.
pub proof fn lemma_fringe_settled(r: Raster, passes: nat)
    requires
        r.wf(),
        forall|x: int, y: int| r.contains(x, y) ==> !#[trigger] fringe_target(r, x, y),
    ensures
        fringe_passes(r, passes) == r,
    decreases passes,
{
    if passes > 0 {
        let f = |x: int, y: int|
            if fringe_target(r, x, y) {
                cleared()
            } else {
                r.at(x, y)
            };
        assert forall|x: int, y: int| r.contains(x, y) implies r.at(x, y) == fringe_pass(r).at(
            x,
            y,
        ) by {
            Raster::lemma_build_at(r.width, r.height, f, x, y);
        }
        Raster::lemma_build_wf(r.width, r.height, f);
        r.lemma_equal_by_positions(fringe_pass(r));
        lemma_fringe_settled(r, (passes - 1) as nat);
    }
}

/// The fringe cleanup: up to `passes` fringe passes, ending early after a
/// pass that cleared nothing.
pub fn clear_chromakey_fringe(image: &mut Image, passes: usize)
    ensures
        final(image)@ == fringe_passes(old(image)@, passes as nat),
{
    let ghost r0 = image@;
    let mut pass: usize = 0;
    while pass < passes
        invariant
            pass <= passes,
            r0 == old(image)@,
            fringe_passes(image@, (passes - pass) as nat) == fringe_passes(r0, passes as nat),
        decreases passes - pass,
    {
        let ghost cur = image@;
        let changed = clear_fringe_once(image);
        if !changed {
            proof {
                lemma_fringe_settled(cur, 1);
                assert(fringe_passes(cur, 1) == fringe_passes(fringe_pass(cur), 0));
                assert(fringe_passes(fringe_pass(cur), 0) == fringe_pass(cur));
                lemma_fringe_settled(cur, (passes - pass) as nat);
            }
            return ;
        }
        pass = pass + 1;
    }
}

/// An image built from `r` position by position, each pixel either kept or
/// cleared, only clears pixels of `r`.
pub proof fn lemma_build_only_clears(r: Raster, f: spec_fn(int, int) -> Pixel)
    requires
        r.wf(),
        forall|x: int, y: int|
            r.contains(x, y) ==> #[trigger] f(x, y) == r.at(x, y) || f(x, y) == cleared(),
    ensures
        Raster::build(r.width, r.height, f).only_clears(r),
        Raster::build(r.width, r.height, f).wf(),
{
    let built = Raster::build(r.width, r.height, f);
    assert forall|i: int| 0 <= i < built.pixels.len() implies #[trigger] built.pixels[i]
        == r.pixels[i] || built.pixels[i] == cleared() by {
        crate::raster::lemma_offset_split(r.width, r.height, i);
        let x = i % (r.width as int);
        let y = i / (r.width as int);
        assert(r.contains(x, y));
        assert(f(x, y) == r.at(x, y) || f(x, y) == cleared());
    }
}

/// Clearing some pixels and then some more only clears pixels.
pub proof fn lemma_only_clears_transitive(a: Raster, b: Raster, c: Raster)
    requires
        a.only_clears(b),
        b.only_clears(c),
    ensures
        a.only_clears(c),
{
    assert forall|i: int| 0 <= i < a.pixels.len() implies #[trigger] a.pixels[i] == c.pixels[i]
        || a.pixels[i] == cleared() by {
        assert(b.pixels[i] == c.pixels[i] || b.pixels[i] == cleared());
    }
}

/// Fringe passes only clear pixels.
pub proof fn lemma_fringe_only_clears(r: Raster, passes: nat)
    requires
        r.wf(),
    ensures
        fringe_passes(r, passes).only_clears(r),
        fringe_passes(r, passes).wf(),
    decreases passes,
{
    if passes > 0 {
        let f = |x: int, y: int|
            if fringe_target(r, x, y) {
                cleared()
            } else {
                r.at(x, y)
            };
        lemma_build_only_clears(r, f);
        lemma_fringe_only_clears(fringe_pass(r), (passes - 1) as nat);
        lemma_only_clears_transitive(fringe_passes(r, passes), fringe_pass(r), r);
    }
}

/// Segmentation only clears pixels: each pixel of the result is the pixel
/// of the input, colour and alpha alike, or black and fully transparent. So
/// no pixel that stays opaque changes colour, and no transparent pixel
/// becomes visible again.
pub proof fn lemma_segmented_only_clears(r: Raster, grid: Option<(u32, u32)>)
    requires
        r.wf(),
    ensures
        segmented(r, grid).only_clears(r),
        segmented(r, grid).wf(),
        forall|i: int|
            0 <= i < r.pixels.len() && r.pixels[i].a == 0 ==> (#[trigger] segmented(
                r,
                grid,
            ).pixels[i]).a == 0,
{
    let fill = |x: int, y: int|
        if reached(r, grid, x, y) {
            cleared()
        } else {
            r.at(x, y)
        };
    lemma_build_only_clears(r, fill);
    let a = flooded(r, grid);
    let strong = |x: int, y: int|
        if strong_target(a.at(x, y)) {
            cleared()
        } else {
            a.at(x, y)
        };
    lemma_build_only_clears(a, strong);
    let b = strong_pass(a);
    lemma_fringe_only_clears(b, FRINGE_PASSES as nat);
    let c = segmented(r, grid);
    lemma_only_clears_transitive(c, b, a);
    lemma_only_clears_transitive(c, a, r);
    assert forall|i: int| 0 <= i < r.pixels.len() && r.pixels[i].a == 0 implies (#[trigger] c.pixels[i]).a
        == 0 by {
        assert(c.pixels[i] == r.pixels[i] || c.pixels[i] == cleared());
    }
}

/// An image without pixels is its own segmentation.
pub proof fn lemma_segmented_of_empty(r: Raster, grid: Option<(u32, u32)>)
    requires
        r.wf(),
        r.width == 0 || r.height == 0,
    ensures
        segmented(r, grid) == r,
{
    assert(r.width * r.height == 0) by (nonlinear_arith)
        requires
            r.width == 0 || r.height == 0,
    ;
    lemma_segmented_only_clears(r, grid);
    assert(segmented(r, grid).pixels =~= r.pixels);
}

/// Converts chromakey-green backdrop to transparency. Seeds are taken from
/// the cell rings of `sprite_grid` where it is given with positive numbers
/// and those rings hold a seed, else from the outer border of the image.
pub fn apply_chromakey_transparency(image: &mut Image, sprite_grid: Option<(u32, u32)>)
    ensures
        final(image)@ == segmented(old(image)@, sprite_grid),
        final(image)@.only_clears(old(image)@),
{
    flood_fill(image, sprite_grid);
    proof {
        lemma_segmented_only_clears(old(image)@, sprite_grid);
    }
    clear_strong_chromakey_anywhere(image);
    clear_chromakey_fringe(image, FRINGE_PASSES);
}

} // verus!
