//! The prompts that are sent to the generation provider.

use crate::error::{is_message, AppError, AppResult};
use crate::models::GenerateRequest;
use crate::numerals::{decimal, push_decimal};
use crate::raster::mul_u32;
use crate::text::{is_blank, trim, trimmed};
use vstd::prelude::*;
use vstd::string::StringExecFns;

verus! {

/// Whether a field of a request is filled in: it is there and holds more
/// than whitespace.
pub open spec fn is_filled(field: Option<String>) -> bool {
    field matches Some(text) && !is_blank(text@)
}

/// The text of a field that is filled in.
pub open spec fn text_of(field: Option<String>) -> Seq<char> {
    field->0@
}

/// Whether a field of a request is filled in.
pub fn field_is_filled(field: &Option<String>) -> (filled: bool)
    ensures
        filled == is_filled(*field),
{
    match field {
        Some(text) => !trim(text.as_str()).is_empty(),
        None => false,
    }
}

/// Why a request cannot be turned into a sprite prompt: the text of the
/// first check that it fails, or `None` where it passes them all.
pub open spec fn sprite_prompt_fault(request: GenerateRequest) -> Option<Seq<char>> {
    if request.rows is None {
        Some("rows is required in sprite mode"@)
    } else if request.cols is None {
        Some("cols is required in sprite mode"@)
    } else if !is_filled(request.object_description) {
        Some("objectDescription is required in sprite mode"@)
    } else if !is_filled(request.style) {
        Some("style is required in sprite mode"@)
    } else if !is_filled(request.camera_angle) {
        Some("cameraAngle is required in sprite mode"@)
    } else {
        None
    }
}

/// The sprite prompt for a grid of `rows` by `cols` frames.
pub open spec fn sprite_prompt_text(
    rows: u32,
    cols: u32,
    camera_angle: Seq<char>,
    object_description: Seq<char>,
    style: Seq<char>,
    with_reference: bool,
) -> Seq<char> {
    "Sprite Sheet Spec\nFrames: "@ + decimal((rows * cols) as nat) + " frames total\nLayout: "@
        + decimal(cols as nat) + " columns x "@ + decimal(rows as nat)
        + " rows\nOrder: left-to-right, top-to-bottom\nCamera: "@ + camera_angle
        + "; fixed camera and scale across frames\nSubject: "@ + object_description + "\nStyle: "@
        + style
        + "\nAlignment rules: same baseline, consistent proportions, consistent lighting, even padding\nBackground: generate using a pure chromakey green background (#00FF00)\nConstraints: no text, no borders, no watermark. Generate one image file only."@
        + if with_reference {
        "\nFollow the attached reference grid exactly."@
    } else {
        Seq::<char>::empty()
    }
}

/// The prompt for a sprite sheet. The request must give rows, columns, and
/// a description, a style and a camera angle that hold more than whitespace.
pub fn build_sprite_prompt(request: &GenerateRequest) -> (prompt: AppResult<String>)
    ensures
        match prompt {
            Ok(text) => sprite_prompt_fault(*request) is None && text@ == sprite_prompt_text(
                request.rows->0,
                request.cols->0,
                text_of(request.camera_angle),
                text_of(request.object_description),
                text_of(request.style),
                request.image_prior_data_url is Some,
            ),
            Err(error) => sprite_prompt_fault(*request) matches Some(text) && is_message(
                error,
                text,
            ),
        },
{
    let rows = match request.rows {
        Some(rows) => rows,
        None => {
            return Err(AppError::msg("rows is required in sprite mode"));
        },
    };
    let cols = match request.cols {
        Some(cols) => cols,
        None => {
            return Err(AppError::msg("cols is required in sprite mode"));
        },
    };
    if !field_is_filled(&request.object_description) {
        return Err(AppError::msg("objectDescription is required in sprite mode"));
    }
    if !field_is_filled(&request.style) {
        return Err(AppError::msg("style is required in sprite mode"));
    }
    if !field_is_filled(&request.camera_angle) {
        return Err(AppError::msg("cameraAngle is required in sprite mode"));
    }
    let object_description = match &request.object_description {
        Some(text) => text.as_str(),
        None => "",
    };
    let style = match &request.style {
        Some(text) => text.as_str(),
        None => "",
    };
    let camera_angle = match &request.camera_angle {
        Some(text) => text.as_str(),
        None => "",
    };
    let total_frames = mul_u32(rows, cols);
    let mut prompt = String::from_str("Sprite Sheet Spec\nFrames: ");
    push_decimal(&mut prompt, total_frames);
    prompt.append(" frames total\nLayout: ");
    push_decimal(&mut prompt, cols as u64);
    prompt.append(" columns x ");
    push_decimal(&mut prompt, rows as u64);
    prompt.append(" rows\nOrder: left-to-right, top-to-bottom\nCamera: ");
    prompt.append(camera_angle);
    prompt.append("; fixed camera and scale across frames\nSubject: ");
    prompt.append(object_description);
    prompt.append("\nStyle: ");
    prompt.append(style);
    prompt.append(
        "\nAlignment rules: same baseline, consistent proportions, consistent lighting, even padding\nBackground: generate using a pure chromakey green background (#00FF00)\nConstraints: no text, no borders, no watermark. Generate one image file only.",
    );
    if request.image_prior_data_url.is_some() {
        prompt.append("\nFollow the attached reference grid exactly.");
    } else {
        proof {
            assert(prompt@ + Seq::<char>::empty() =~= prompt@);
        }
    }
    Ok(prompt)
}

/// The prompt for a single image: the text of the request as it stands.
/// The text must hold more than whitespace.
pub fn build_normal_prompt(request: &GenerateRequest) -> (prompt: AppResult<String>)
    ensures
        match prompt {
            Ok(text) => is_filled(request.prompt_text) && text@ == text_of(request.prompt_text),
            Err(error) => !is_filled(request.prompt_text) && is_message(
                error,
                "promptText is required when spriteMode=false"@,
            ),
        },
{
    if !field_is_filled(&request.prompt_text) {
        return Err(AppError::msg("promptText is required when spriteMode=false"));
    }
    match &request.prompt_text {
        Some(text) => Ok(text.clone()),
        None => Err(AppError::msg("promptText is required when spriteMode=false")),
    }
}

/// The prompt for an edit, made of the trimmed instruction.
pub open spec fn edit_prompt_text(edit_prompt: Seq<char>) -> Seq<char> {
    trimmed(edit_prompt)
        + "\n\nApply the requested changes while preserving the subject identity and overall style."@
}

/// The prompt for an edit. The instruction must hold more than whitespace.
pub fn build_edit_prompt(edit_prompt: &str) -> (prompt: AppResult<String>)
    ensures
        match prompt {
            Ok(text) => !is_blank(edit_prompt@) && text@ == edit_prompt_text(edit_prompt@),
            Err(error) => is_blank(edit_prompt@) && is_message(error, "editPrompt is required"@),
        },
{
    let instruction = trim(edit_prompt);
    if instruction.is_empty() {
        return Err(AppError::msg("editPrompt is required"));
    }
    let mut prompt = String::from_str(instruction);
    prompt.append(
        "\n\nApply the requested changes while preserving the subject identity and overall style.",
    );
    Ok(prompt)
}

} // verus!
