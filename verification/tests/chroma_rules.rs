use sprite_pipeline::chroma::{
    chroma_green_distance_sq, matches_chromakey, matches_chromakey_fringe,
    matches_chromakey_global_strong, ChromaMatchMode, EXPAND_DISTANCE_MAX, EXPAND_GREEN_FLOOR,
    EXPAND_LEAD_MIN, FRINGE_DISTANCE_MAX, FRINGE_GREEN_FLOOR, FRINGE_LEAD_MIN, SEED_DISTANCE_MAX,
    SEED_GREEN_FLOOR, SEED_LEAD_MIN, STRONG_DISTANCE_MAX, STRONG_GREEN_FLOOR, STRONG_LEAD_MIN,
};

#[test]
fn thresholds_have_their_tuned_values() {
    assert_eq!((SEED_GREEN_FLOOR, SEED_LEAD_MIN, SEED_DISTANCE_MAX), (80, 18, 30_000));
    assert_eq!((EXPAND_GREEN_FLOOR, EXPAND_LEAD_MIN, EXPAND_DISTANCE_MAX), (40, 6, 45_000));
    assert_eq!((STRONG_GREEN_FLOOR, STRONG_LEAD_MIN, STRONG_DISTANCE_MAX), (95, 20, 36_000));
    assert_eq!((FRINGE_GREEN_FLOOR, FRINGE_LEAD_MIN, FRINGE_DISTANCE_MAX), (35, 2, 55_000));
}

#[test]
fn distance_from_pure_green() {
    assert_eq!(chroma_green_distance_sq(0, 255, 0), 0);
    assert_eq!(chroma_green_distance_sq(0, 0, 0), 65_025);
    assert_eq!(chroma_green_distance_sq(255, 0, 255), 195_075);
    assert_eq!(chroma_green_distance_sq(10, 200, 20), 100 + 3_025 + 400);
    assert_eq!(chroma_green_distance_sq(255, 255, 255), 130_050);
}

#[test]
fn pure_green_matches_every_rule() {
    assert!(matches_chromakey(0, 255, 0, ChromaMatchMode::Seed));
    assert!(matches_chromakey(0, 255, 0, ChromaMatchMode::Expand));
    assert!(matches_chromakey_global_strong(0, 255, 0));
    assert!(matches_chromakey_fringe(0, 255, 0));
}

#[test]
fn black_white_and_red_match_no_rule() {
    for (r, g, b) in [(0u8, 0u8, 0u8), (255, 255, 255), (255, 0, 0), (0, 0, 255)] {
        assert!(!matches_chromakey(r, g, b, ChromaMatchMode::Seed));
        assert!(!matches_chromakey(r, g, b, ChromaMatchMode::Expand));
        assert!(!matches_chromakey_global_strong(r, g, b));
        assert!(!matches_chromakey_fringe(r, g, b));
    }
}

#[test]
fn seed_rule_at_its_edges() {
    // green floor 80 with the distance ceiling: (255 - 82)^2 = 29_929 <= 30_000
    assert!(matches_chromakey(0, 82, 0, ChromaMatchMode::Seed));
    // (255 - 81)^2 = 30_276 > 30_000
    assert!(!matches_chromakey(0, 81, 0, ChromaMatchMode::Seed));
    // lead of exactly 18 passes, 17 does not: 118^2 + (255 - 136)^2 = 28_085
    assert!(matches_chromakey(118, 136, 0, ChromaMatchMode::Seed));
    assert!(!matches_chromakey(118, 135, 0, ChromaMatchMode::Seed));
    // the lead is taken over the larger of red and blue
    assert!(matches_chromakey(0, 118, 100, ChromaMatchMode::Seed));
    assert!(!matches_chromakey(0, 117, 100, ChromaMatchMode::Seed));
    assert!(!matches_chromakey(100, 117, 0, ChromaMatchMode::Seed));
    // green below the floor
    assert!(!matches_chromakey(0, 79, 0, ChromaMatchMode::Seed));
}

#[test]
fn expand_rule_is_looser_than_seed_rule() {
    // (255 - 43)^2 = 44_944 <= 45_000, (255 - 42)^2 = 45_369 > 45_000
    assert!(matches_chromakey(0, 43, 0, ChromaMatchMode::Expand));
    assert!(!matches_chromakey(0, 42, 0, ChromaMatchMode::Expand));
    assert!(!matches_chromakey(0, 43, 0, ChromaMatchMode::Seed));
    assert!(matches_chromakey(100, 106, 100, ChromaMatchMode::Expand));
    assert!(!matches_chromakey(100, 105, 100, ChromaMatchMode::Expand));
    assert!(!matches_chromakey(0, 39, 0, ChromaMatchMode::Expand));
}

#[test]
fn strong_rule_at_its_edges() {
    // (255 - 95)^2 = 25_600 <= 36_000
    assert!(matches_chromakey_global_strong(0, 95, 0));
    assert!(!matches_chromakey_global_strong(0, 94, 0));
    assert!(matches_chromakey_global_strong(100, 120, 0));
    assert!(!matches_chromakey_global_strong(100, 119, 0));
    // 120^2 + (255 - 150)^2 + 120^2 = 39_825 > 36_000
    assert!(!matches_chromakey_global_strong(120, 150, 120));
}

#[test]
fn fringe_rule_at_its_edges() {
    // (255 - 35)^2 = 48_400 <= 55_000
    assert!(matches_chromakey_fringe(0, 35, 0));
    assert!(!matches_chromakey_fringe(0, 34, 0));
    assert!(matches_chromakey_fringe(100, 102, 100));
    assert!(!matches_chromakey_fringe(100, 101, 100));
    // 150^2 + (255 - 152)^2 + 150^2 = 55_609 > 55_000
    assert!(!matches_chromakey_fringe(150, 152, 150));
    // 149^2 + (255 - 152)^2 + 149^2 = 55_011 > 55_000
    assert!(!matches_chromakey_fringe(149, 152, 149));
    // 148^2 + (255 - 152)^2 + 148^2 = 54_417 <= 55_000
    assert!(matches_chromakey_fringe(148, 152, 148));
}

#[test]
fn seed_colours_also_expand() {
    let mut seen = 0u32;
    for r in (0u16..256).step_by(5) {
        for g in (0u16..256).step_by(3) {
            for b in (0u16..256).step_by(7) {
                let (r, g, b) = (r as u8, g as u8, b as u8);
                if matches_chromakey(r, g, b, ChromaMatchMode::Seed) {
                    assert!(matches_chromakey(r, g, b, ChromaMatchMode::Expand));
                    seen += 1;
                }
            }
        }
    }
    assert!(seen > 0);
}
