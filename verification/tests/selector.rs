use base64::engine::general_purpose::STANDARD;
use base64::Engine;
use image::codecs::png::PngEncoder;
use image::{ExtendedColorType, ImageEncoder};
use sprite_pipeline::models::Resolution;
use sprite_pipeline::select::{
    choose_best_images_for_resolution, resolution_long_edge, select_candidate, Candidate,
};

fn candidate(index: usize, width: u32, height: u32) -> Candidate {
    Candidate { index, width, height }
}

fn png_data_url(width: u32, height: u32) -> String {
    let pixels = vec![200u8; width as usize * height as usize * 4];
    let mut png = Vec::new();
    PngEncoder::new(&mut png)
        .write_image(&pixels, width, height, ExtendedColorType::Rgba8)
        .unwrap();
    format!("data:image/png;base64,{}", STANDARD.encode(png))
}

#[test]
fn resolutions_stand_for_their_long_edges() {
    assert_eq!(resolution_long_edge(Resolution::OneK), 1024);
    assert_eq!(resolution_long_edge(Resolution::TwoK), 2048);
    assert_eq!(resolution_long_edge(Resolution::FourK), 4096);
}

#[test]
fn exact_match_is_chosen() {
    let candidates = vec![candidate(0, 900, 600), candidate(1, 1024, 768), candidate(2, 1200, 800)];
    assert_eq!(select_candidate(&candidates, 1024), Some(1));
    let tall = vec![candidate(0, 900, 600), candidate(1, 512, 1024), candidate(2, 1200, 800)];
    assert_eq!(select_candidate(&tall, 1024), Some(1));
}

#[test]
fn nearest_match_is_chosen() {
    let candidates = vec![candidate(0, 900, 900), candidate(1, 1100, 1100)];
    assert_eq!(select_candidate(&candidates, 1024), Some(1));
    let reversed = vec![candidate(0, 1100, 1100), candidate(1, 900, 900)];
    assert_eq!(select_candidate(&reversed, 1024), Some(0));
}

#[test]
fn equally_near_candidates_are_ranked_by_area_then_by_position() {
    // both 24 from the target
    let by_area = vec![candidate(0, 1000, 500), candidate(1, 1048, 1048)];
    assert_eq!(select_candidate(&by_area, 1024), Some(1));
    let by_area_reversed = vec![candidate(0, 1048, 1048), candidate(1, 1000, 500)];
    assert_eq!(select_candidate(&by_area_reversed, 1024), Some(0));
    // 1000 x 524 and 1048 x 500 both hold 524_000 pixels
    let by_position = vec![candidate(0, 1000, 524), candidate(1, 1048, 500)];
    assert_eq!(select_candidate(&by_position, 1024), Some(0));
    let same = vec![candidate(3, 1000, 1000), candidate(5, 1000, 1000), candidate(9, 1000, 1000)];
    assert_eq!(select_candidate(&same, 1024), Some(0));
}

#[test]
fn first_exact_match_wins_whatever_its_area() {
    let candidates = vec![candidate(0, 2000, 2000), candidate(1, 1024, 512), candidate(2, 1024, 1024)];
    assert_eq!(select_candidate(&candidates, 1024), Some(1));
}

#[test]
fn no_candidate_no_choice_and_one_candidate_is_chosen() {
    assert_eq!(select_candidate(&Vec::new(), 1024), None);
    assert_eq!(select_candidate(&vec![candidate(4, 1, 1)], 4096), Some(0));
}

#[test]
fn areas_of_the_largest_images_do_not_overflow() {
    let candidates = vec![candidate(0, u32::MAX, 1), candidate(1, u32::MAX, u32::MAX)];
    assert_eq!(select_candidate(&candidates, 1024), Some(1));
}

#[test]
fn short_lists_pass_through() {
    assert_eq!(choose_best_images_for_resolution(&[], Resolution::OneK), Vec::<String>::new());
    let one = vec!["not a data url".to_string()];
    assert_eq!(choose_best_images_for_resolution(&one, Resolution::OneK), one);
}

#[test]
fn exact_match_is_chosen_among_data_urls() {
    let urls = vec![png_data_url(900, 2), png_data_url(1024, 2), png_data_url(1200, 2)];
    let chosen = choose_best_images_for_resolution(&urls, Resolution::OneK);
    assert_eq!(chosen, vec![urls[1].clone()]);
}

#[test]
fn nearest_match_is_chosen_among_data_urls() {
    let urls = vec![png_data_url(2, 900), png_data_url(2, 1100)];
    let chosen = choose_best_images_for_resolution(&urls, Resolution::OneK);
    assert_eq!(chosen, vec![urls[1].clone()]);
    let chosen = choose_best_images_for_resolution(&urls, Resolution::FourK);
    assert_eq!(chosen, vec![urls[1].clone()]);
}

#[test]
fn ties_among_data_urls_go_to_the_larger_then_to_the_earlier() {
    let urls = vec![png_data_url(1000, 1), png_data_url(1048, 3), png_data_url(1000, 3)];
    let chosen = choose_best_images_for_resolution(&urls, Resolution::OneK);
    assert_eq!(chosen, vec![urls[1].clone()]);
    let urls = vec![png_data_url(1000, 3), png_data_url(3, 1000), png_data_url(1000, 2)];
    let chosen = choose_best_images_for_resolution(&urls, Resolution::OneK);
    assert_eq!(chosen.len(), 1);
    assert_eq!(chosen[0], urls[0]);
}

#[test]
fn strings_without_an_image_are_passed_over() {
    let broken = "data:image/png;base64,AAAA".to_string();
    let urls = vec!["nonsense".to_string(), broken, png_data_url(300, 200), png_data_url(20, 10)];
    let chosen = choose_best_images_for_resolution(&urls, Resolution::OneK);
    assert_eq!(chosen, vec![urls[2].clone()]);
}

#[test]
fn first_string_is_kept_where_none_holds_an_image() {
    let urls = vec!["first".to_string(), "data:image/png;base64,AAAA".to_string()];
    let chosen = choose_best_images_for_resolution(&urls, Resolution::TwoK);
    assert_eq!(chosen, vec!["first".to_string()]);
}
