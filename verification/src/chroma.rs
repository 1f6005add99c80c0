//! The colour-match policy: how close a pixel's colour is to pure chromakey
//! green, at four levels of strictness.

use vstd::prelude::*;

verus! {

/// Lowest green value at which a border pixel may seed the fill.
pub const SEED_GREEN_FLOOR: u8 = 80;

/// Least lead of green over red and blue at which a border pixel may seed the fill.
pub const SEED_LEAD_MIN: u8 = 18;

/// Largest squared distance from pure green at which a border pixel may seed the fill.
pub const SEED_DISTANCE_MAX: u32 = 30_000;

/// Lowest green value at which the fill expands into a neighbour.
pub const EXPAND_GREEN_FLOOR: u8 = 40;

/// Least lead of green over red and blue at which the fill expands into a neighbour.
pub const EXPAND_LEAD_MIN: u8 = 6;

/// Largest squared distance from pure green at which the fill expands into a neighbour.
pub const EXPAND_DISTANCE_MAX: u32 = 45_000;

/// Lowest green value of an unambiguous backdrop pixel.
pub const STRONG_GREEN_FLOOR: u8 = 95;

/// Least lead of green over red and blue of an unambiguous backdrop pixel.
pub const STRONG_LEAD_MIN: u8 = 20;

/// Largest squared distance from pure green of an unambiguous backdrop pixel.
pub const STRONG_DISTANCE_MAX: u32 = 36_000;

/// Lowest green value of a fringe pixel.
pub const FRINGE_GREEN_FLOOR: u8 = 35;

/// Least lead of green over red and blue of a fringe pixel.
pub const FRINGE_LEAD_MIN: u8 = 2;

/// Largest squared distance from pure green of a fringe pixel.
pub const FRINGE_DISTANCE_MAX: u32 = 55_000;

/// The two strictness levels of the flood fill.
#[derive(Copy, Clone, Debug, PartialEq, Eq, Structural)]
pub enum ChromaMatchMode {
    /// The strict test that border pixels must pass to start the fill.
    Seed,
    /// The looser test under which the fill spreads to neighbours.
    Expand,
}

/// By how much green exceeds the larger of red and blue; zero where it does not.
pub open spec fn green_lead(r: u8, g: u8, b: u8) -> int {
    let max_rb: int = if r >= b { r as int } else { b as int };
    if g >= max_rb { g - max_rb } else { 0 }
}

/// Squared distance of `(r, g, b)` from pure green `(0, 255, 0)`.
pub open spec fn green_distance_sq(r: u8, g: u8, b: u8) -> int {
    r * r + (255 - g) * (255 - g) + b * b
}

/// The shared test: green at or above `floor`, leading red and blue by at
/// least `lead`, and within `ceiling` of pure green.
pub open spec fn passes_rule(r: u8, g: u8, b: u8, floor: u8, lead: u8, ceiling: u32) -> bool {
    &&& g >= floor
    &&& green_lead(r, g, b) >= lead
    &&& green_distance_sq(r, g, b) <= ceiling
}

/// Whether a colour may seed the fill.
pub open spec fn is_seed_color(r: u8, g: u8, b: u8) -> bool {
    passes_rule(r, g, b, SEED_GREEN_FLOOR, SEED_LEAD_MIN, SEED_DISTANCE_MAX)
}

/// Whether the fill spreads into a colour.
pub open spec fn is_expand_color(r: u8, g: u8, b: u8) -> bool {
    passes_rule(r, g, b, EXPAND_GREEN_FLOOR, EXPAND_LEAD_MIN, EXPAND_DISTANCE_MAX)
}

/// Whether a colour is unambiguous backdrop wherever it lies.
pub open spec fn is_strong_color(r: u8, g: u8, b: u8) -> bool {
    passes_rule(r, g, b, STRONG_GREEN_FLOOR, STRONG_LEAD_MIN, STRONG_DISTANCE_MAX)
}

/// Whether a colour is faint backdrop bleed.
pub open spec fn is_fringe_color(r: u8, g: u8, b: u8) -> bool {
    passes_rule(r, g, b, FRINGE_GREEN_FLOOR, FRINGE_LEAD_MIN, FRINGE_DISTANCE_MAX)
}

/// Whether a colour passes the test of the given fill mode.
pub open spec fn matches_mode(r: u8, g: u8, b: u8, mode: ChromaMatchMode) -> bool {
    match mode {
        ChromaMatchMode::Seed => is_seed_color(r, g, b),
        ChromaMatchMode::Expand => is_expand_color(r, g, b),
    }
}

/// Squared distance of a colour from pure green.
pub fn chroma_green_distance_sq(r: u8, g: u8, b: u8) -> (d: u32)
    ensures
        d == green_distance_sq(r, g, b),
        d <= 195_075,
{
    let dr: u32 = r as u32;
    let dg: u32 = 255u32 - g as u32;
    let db: u32 = b as u32;
    assert(dr * dr <= 65_025) by (nonlinear_arith)
        requires
            dr <= 255,
    ;
    assert(dg * dg <= 65_025) by (nonlinear_arith)
        requires
            dg <= 255,
    ;
    assert(db * db <= 65_025) by (nonlinear_arith)
        requires
            db <= 255,
    ;
    dr * dr + dg * dg + db * db
}

fn lead_of_green(r: u8, g: u8, b: u8) -> (lead: u8)
    ensures
        lead == green_lead(r, g, b),
{
    let max_rb: u8 = if r >= b { r } else { b };
    if g >= max_rb {
        g - max_rb
    } else {
        0
    }
}

fn passes(r: u8, g: u8, b: u8, floor: u8, lead: u8, ceiling: u32) -> (m: bool)
    ensures
        m == passes_rule(r, g, b, floor, lead, ceiling),
{
    if g < floor || lead_of_green(r, g, b) < lead {
        return false;
    }
    chroma_green_distance_sq(r, g, b) <= ceiling
}

/// Tests a colour against the seed or the expand rule.
pub fn matches_chromakey(r: u8, g: u8, b: u8, mode: ChromaMatchMode) -> (m: bool)
    ensures
        m == matches_mode(r, g, b, mode),
{
    match mode {
        ChromaMatchMode::Seed => passes(r, g, b, SEED_GREEN_FLOOR, SEED_LEAD_MIN, SEED_DISTANCE_MAX),
        ChromaMatchMode::Expand => passes(
            r,
            g,
            b,
            EXPAND_GREEN_FLOOR,
            EXPAND_LEAD_MIN,
            EXPAND_DISTANCE_MAX,
        ),
    }
}

/// Tests a colour against the rule of the global pass.
pub fn matches_chromakey_global_strong(r: u8, g: u8, b: u8) -> (m: bool)
    ensures
        m == is_strong_color(r, g, b),
{
    passes(r, g, b, STRONG_GREEN_FLOOR, STRONG_LEAD_MIN, STRONG_DISTANCE_MAX)
}

/// Tests a colour against the rule of the fringe cleanup.
pub fn matches_chromakey_fringe(r: u8, g: u8, b: u8) -> (m: bool)
    ensures
        m == is_fringe_color(r, g, b),
{
    passes(r, g, b, FRINGE_GREEN_FLOOR, FRINGE_LEAD_MIN, FRINGE_DISTANCE_MAX)
}

/// How the rules nest: a colour that may seed the fill, or that is
/// unambiguous backdrop, also lets the fill spread; and a colour into which
/// the fill spreads also counts as fringe.
pub proof fn lemma_rules_nest(r: u8, g: u8, b: u8)
    ensures
        is_seed_color(r, g, b) ==> is_expand_color(r, g, b),
        is_strong_color(r, g, b) ==> is_expand_color(r, g, b),
        is_expand_color(r, g, b) ==> is_fringe_color(r, g, b),
{
}

/// Black, the colour of a cleared pixel, passes none of the rules.
pub proof fn lemma_black_matches_nothing()
    ensures
        !is_seed_color(0, 0, 0),
        !is_expand_color(0, 0, 0),
        !is_strong_color(0, 0, 0),
        !is_fringe_color(0, 0, 0),
{
}

} // verus!
