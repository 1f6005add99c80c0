use sprite_pipeline::error::AppError;
use sprite_pipeline::models::{
    ChildInputs, ChildMode, ChildOutputs, CompletionMetadata, EditRequest, GenerateRequest,
    Resolution,
};
use sprite_pipeline::prompt::{
    build_edit_prompt, build_normal_prompt, build_sprite_prompt, field_is_filled,
};
use sprite_pipeline::request::{
    child_outputs, copy_of, default_project_name, edit_base_image_path, edit_grid, edit_inputs,
    edit_mode, edit_resolution, generation_grid, generation_inputs, is_sprite_sheet_edit,
    non_empty, non_empty_opt, plan_generation, validate_generate_request,
};

fn text(value: &str) -> Option<String> {
    Some(value.to_string())
}

fn sprite_request() -> GenerateRequest {
    GenerateRequest {
        project_id: None,
        name: None,
        sprite_mode: true,
        rows: Some(2),
        cols: Some(3),
        object_description: text("a fox"),
        style: text("pixel art"),
        camera_angle: text("side view"),
        prompt_text: None,
        resolution: Resolution::TwoK,
        image_prior_data_url: None,
    }
}

fn plain_request(prompt: Option<&str>) -> GenerateRequest {
    GenerateRequest {
        project_id: None,
        name: None,
        sprite_mode: false,
        rows: None,
        cols: None,
        object_description: None,
        style: None,
        camera_angle: None,
        prompt_text: prompt.map(str::to_string),
        resolution: Resolution::OneK,
        image_prior_data_url: None,
    }
}

fn edit_request() -> EditRequest {
    EditRequest {
        project_id: "p1".to_string(),
        base_child_id: "c1".to_string(),
        name: None,
        edit_prompt: "make it blue".to_string(),
        resolution: None,
        base_image_data_url: None,
        base_image_path: None,
    }
}

fn message(error: AppError) -> String {
    match error {
        AppError::Message(text) => text,
        other => panic!("unexpected error {other:?}"),
    }
}

const SPRITE_PROMPT: &str = "Sprite Sheet Spec\nFrames: 6 frames total\nLayout: 3 columns x 2 rows\nOrder: left-to-right, top-to-bottom\nCamera: side view; fixed camera and scale across frames\nSubject: a fox\nStyle: pixel art\nAlignment rules: same baseline, consistent proportions, consistent lighting, even padding\nBackground: generate using a pure chromakey green background (#00FF00)\nConstraints: no text, no borders, no watermark. Generate one image file only.";

#[test]
fn fields_are_filled_where_they_hold_more_than_whitespace() {
    assert!(field_is_filled(&text("x")));
    assert!(field_is_filled(&text("  x  ")));
    assert!(!field_is_filled(&text("")));
    assert!(!field_is_filled(&text(" \t\n")));
    assert!(!field_is_filled(&None));
    assert_eq!(copy_of(&text("abc")), text("abc"));
    assert_eq!(copy_of(&None), None);
}

#[test]
fn non_empty_keeps_or_trims() {
    assert_eq!(non_empty_opt(Some("  x ")), Some("  x "));
    assert_eq!(non_empty_opt(Some("   ")), None);
    assert_eq!(non_empty_opt(Some("")), None);
    assert_eq!(non_empty_opt(None), None);
    assert_eq!(non_empty("  x y "), Some("x y"));
    assert_eq!(non_empty("\n\t"), None);
    assert_eq!(non_empty(""), None);
}

#[test]
fn sprite_prompt_is_written_out() {
    assert_eq!(build_sprite_prompt(&sprite_request()).unwrap(), SPRITE_PROMPT);
    let mut with_reference = sprite_request();
    with_reference.image_prior_data_url = text("data:image/png;base64,AAAA");
    assert_eq!(
        build_sprite_prompt(&with_reference).unwrap(),
        format!("{SPRITE_PROMPT}\nFollow the attached reference grid exactly.")
    );
    let mut large = sprite_request();
    large.rows = Some(u32::MAX);
    large.cols = Some(u32::MAX);
    assert!(build_sprite_prompt(&large)
        .unwrap()
        .contains("Frames: 18446744065119617025 frames total\nLayout: 4294967295 columns x 4294967295 rows"));
    let mut untrimmed = sprite_request();
    untrimmed.style = text("  bold  ");
    assert!(build_sprite_prompt(&untrimmed).unwrap().contains("\nStyle:   bold  \n"));
}

#[test]
fn sprite_prompt_names_what_is_missing() {
    let cases: [(fn(&mut GenerateRequest), &str); 7] = [
        (|r| r.rows = None, "rows is required in sprite mode"),
        (|r| r.cols = None, "cols is required in sprite mode"),
        (|r| r.object_description = None, "objectDescription is required in sprite mode"),
        (|r| r.object_description = Some("  ".to_string()), "objectDescription is required in sprite mode"),
        (|r| r.style = Some(String::new()), "style is required in sprite mode"),
        (|r| r.camera_angle = None, "cameraAngle is required in sprite mode"),
        (
            |r| {
                r.rows = None;
                r.style = None;
            },
            "rows is required in sprite mode",
        ),
    ];
    for (change, expected) in cases {
        let mut request = sprite_request();
        change(&mut request);
        assert_eq!(message(build_sprite_prompt(&request).unwrap_err()), expected);
    }
}

#[test]
fn normal_prompt_is_the_text_as_it_stands() {
    assert_eq!(build_normal_prompt(&plain_request(Some("  a castle "))).unwrap(), "  a castle ");
    for missing in [None, Some(""), Some("  \n")] {
        assert_eq!(
            message(build_normal_prompt(&plain_request(missing)).unwrap_err()),
            "promptText is required when spriteMode=false"
        );
    }
}

#[test]
fn edit_prompt_is_trimmed_and_extended() {
    assert_eq!(
        build_edit_prompt("  make it blue \n").unwrap(),
        "make it blue\n\nApply the requested changes while preserving the subject identity and overall style."
    );
    assert_eq!(message(build_edit_prompt("   ").unwrap_err()), "editPrompt is required");
    assert_eq!(message(build_edit_prompt("").unwrap_err()), "editPrompt is required");
}

#[test]
fn requests_to_generate_are_checked() {
    assert_eq!(validate_generate_request(&sprite_request()), Ok(()));
    assert_eq!(validate_generate_request(&plain_request(Some("a castle"))), Ok(()));
    let cases: [(fn(&mut GenerateRequest), &str); 8] = [
        (|r| r.rows = None, "rows is required in sprite mode"),
        (|r| r.cols = None, "cols is required in sprite mode"),
        (|r| r.rows = Some(0), "rows and cols must be > 0"),
        (|r| r.cols = Some(0), "rows and cols must be > 0"),
        (|r| r.object_description = None, "objectDescription is required in sprite mode"),
        (|r| r.style = Some(" ".to_string()), "style is required in sprite mode"),
        (|r| r.camera_angle = None, "cameraAngle is required in sprite mode"),
        (
            |r| {
                r.cols = Some(0);
                r.camera_angle = None;
            },
            "rows and cols must be > 0",
        ),
    ];
    for (change, expected) in cases {
        let mut request = sprite_request();
        change(&mut request);
        assert_eq!(message(validate_generate_request(&request).unwrap_err()), expected);
    }
    assert_eq!(
        message(validate_generate_request(&plain_request(None)).unwrap_err()),
        "promptText is required when spriteMode=false"
    );
    // a sprite request needs no prompt text, a plain one no grid
    let mut plain = plain_request(Some("x"));
    plain.rows = Some(0);
    assert_eq!(validate_generate_request(&plain), Ok(()));
}

#[test]
fn projects_without_a_name_are_named_after_the_request() {
    assert_eq!(default_project_name(&sprite_request(), "03-09-2025"), "sprite-2x3-03-09-2025");
    let mut bare = sprite_request();
    bare.rows = None;
    bare.cols = None;
    assert_eq!(default_project_name(&bare, "12-31-1999"), "sprite-1x1-12-31-1999");
    assert_eq!(default_project_name(&plain_request(Some("x")), "03-09-2025"), "art-03-09-2025");
}

#[test]
fn generations_are_planned() {
    let (mode, prompt) = plan_generation(&sprite_request()).unwrap();
    assert_eq!(mode, ChildMode::Sprite);
    assert_eq!(prompt, SPRITE_PROMPT);
    let (mode, prompt) = plan_generation(&plain_request(Some("a castle"))).unwrap();
    assert_eq!(mode, ChildMode::Normal);
    assert_eq!(prompt, "a castle");
    let mut broken = sprite_request();
    broken.style = None;
    assert_eq!(message(plan_generation(&broken).unwrap_err()), "style is required in sprite mode");
    assert_eq!(
        message(plan_generation(&plain_request(None)).unwrap_err()),
        "promptText is required when spriteMode=false"
    );
    assert_eq!(generation_grid(&sprite_request()), Some((2, 3)));
    let mut bare = sprite_request();
    bare.rows = None;
    assert_eq!(generation_grid(&bare), Some((1, 3)));
    let mut plain = plain_request(Some("x"));
    plain.rows = Some(4);
    plain.cols = Some(4);
    assert_eq!(generation_grid(&plain), None);
}

#[test]
fn generation_inputs_record_the_request() {
    let mut request = sprite_request();
    request.image_prior_data_url = text("data:image/png;base64,AAAA");
    let inputs = generation_inputs(&request);
    assert_eq!(inputs.rows, Some(2));
    assert_eq!(inputs.cols, Some(3));
    assert_eq!(inputs.object_description, text("a fox"));
    assert_eq!(inputs.style, text("pixel art"));
    assert_eq!(inputs.camera_angle, text("side view"));
    assert_eq!(inputs.prompt_text, None);
    assert_eq!(inputs.edit_prompt, None);
    assert_eq!(inputs.base_child_id, None);
    assert_eq!(inputs.resolution, Some(Resolution::TwoK));
    assert_eq!(inputs.image_prior_data_url, text("data:image/png;base64,AAAA"));
    assert_eq!(inputs.base_image_path, None);
}

#[test]
fn first_image_is_the_primary_one() {
    let completion = CompletionMetadata { finish_reason: text("stop"), ..Default::default() };
    let outputs = child_outputs(
        text("done"),
        vec!["a.png".to_string(), "b.png".to_string()],
        Some(completion),
    );
    assert_eq!(outputs.text, text("done"));
    assert_eq!(outputs.image_paths, vec!["a.png".to_string(), "b.png".to_string()]);
    assert_eq!(outputs.primary_image_path, text("a.png"));
    assert_eq!(outputs.completion.unwrap().finish_reason, text("stop"));
    let outputs = child_outputs(None, Vec::new(), None);
    assert_eq!(outputs.primary_image_path, None);
    assert!(outputs.image_paths.is_empty());
}

#[test]
fn edits_start_from_the_named_or_the_primary_image() {
    let with_primary = ChildOutputs { primary_image_path: text("base.png"), ..Default::default() };
    let without = ChildOutputs::default();
    let mut named = edit_request();
    named.base_image_path = text("named.png");
    assert_eq!(edit_base_image_path(&named, &with_primary).unwrap(), "named.png");
    assert_eq!(edit_base_image_path(&named, &without).unwrap(), "named.png");
    assert_eq!(edit_base_image_path(&edit_request(), &with_primary).unwrap(), "base.png");
    assert_eq!(
        message(edit_base_image_path(&edit_request(), &without).unwrap_err()),
        "No base image path found for edit request"
    );
}

#[test]
fn sprite_sheet_edits_are_told_apart() {
    assert!(is_sprite_sheet_edit(ChildMode::Sprite, None, None));
    assert!(is_sprite_sheet_edit(ChildMode::Sprite, Some(1), Some(1)));
    assert!(is_sprite_sheet_edit(ChildMode::Edit, Some(2), Some(2)));
    assert!(is_sprite_sheet_edit(ChildMode::Normal, Some(2), Some(9)));
    assert!(!is_sprite_sheet_edit(ChildMode::Edit, Some(1), Some(2)));
    assert!(!is_sprite_sheet_edit(ChildMode::Edit, Some(2), Some(1)));
    assert!(!is_sprite_sheet_edit(ChildMode::Normal, Some(2), None));
    assert!(!is_sprite_sheet_edit(ChildMode::Normal, None, None));
    assert_eq!(edit_mode(true), ChildMode::Sprite);
    assert_eq!(edit_mode(false), ChildMode::Edit);
    assert_eq!(edit_grid(true, Some(2), Some(3)), Some((2, 3)));
    assert_eq!(edit_grid(true, Some(1), Some(1)), Some((1, 1)));
    assert_eq!(edit_grid(true, Some(0), Some(3)), None);
    assert_eq!(edit_grid(true, Some(3), Some(0)), None);
    assert_eq!(edit_grid(true, None, Some(3)), None);
    assert_eq!(edit_grid(false, Some(2), Some(3)), None);
    assert_eq!(edit_resolution(&edit_request()), Resolution::OneK);
    let mut named = edit_request();
    named.resolution = Some(Resolution::FourK);
    assert_eq!(edit_resolution(&named), Resolution::FourK);
}

#[test]
fn edit_inputs_keep_what_a_sprite_sheet_was_made_from() {
    let base = ChildInputs {
        rows: Some(2),
        cols: Some(4),
        object_description: text("a fox"),
        style: text("pixel art"),
        camera_angle: text("side"),
        prompt_text: text("old"),
        edit_prompt: text("earlier edit"),
        base_child_id: text("c0"),
        resolution: Some(Resolution::TwoK),
        image_prior_data_url: text("data:..."),
        base_image_path: text("old.png"),
    };
    let kept = edit_inputs(&edit_request(), &base, true, Resolution::FourK, "base.png".to_string());
    assert_eq!(kept.rows, Some(2));
    assert_eq!(kept.cols, Some(4));
    assert_eq!(kept.object_description, text("a fox"));
    assert_eq!(kept.style, text("pixel art"));
    assert_eq!(kept.camera_angle, text("side"));
    assert_eq!(kept.prompt_text, text("old"));
    assert_eq!(kept.edit_prompt, text("make it blue"));
    assert_eq!(kept.base_child_id, text("c1"));
    assert_eq!(kept.resolution, Some(Resolution::FourK));
    assert_eq!(kept.image_prior_data_url, None);
    assert_eq!(kept.base_image_path, text("base.png"));
    let dropped = edit_inputs(&edit_request(), &base, false, Resolution::OneK, "b.png".to_string());
    assert_eq!(dropped.rows, None);
    assert_eq!(dropped.cols, None);
    assert_eq!(dropped.object_description, None);
    assert_eq!(dropped.style, None);
    assert_eq!(dropped.camera_angle, None);
    assert_eq!(dropped.prompt_text, None);
    assert_eq!(dropped.edit_prompt, text("make it blue"));
    assert_eq!(dropped.base_child_id, text("c1"));
    assert_eq!(dropped.resolution, Some(Resolution::OneK));
    assert_eq!(dropped.base_image_path, text("b.png"));
}

#[test]
fn resolutions_are_named_as_the_provider_spells_them() {
    assert_eq!(Resolution::OneK.as_openrouter_value(), "1K");
    assert_eq!(Resolution::TwoK.as_openrouter_value(), "2K");
    assert_eq!(Resolution::FourK.as_openrouter_value(), "4K");
}
