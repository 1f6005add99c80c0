//! What is decided about a request before and after the generation
//! provider is called.

use crate::error::{is_message, AppError, AppResult};
use crate::models::{
    ChildInputs, ChildMode, ChildOutputs, CompletionMetadata, EditRequest, GenerateRequest,
    Resolution,
};
use crate::numerals::{decimal, push_decimal};
use crate::prompt::{
    build_normal_prompt, build_sprite_prompt, field_is_filled, is_filled, sprite_prompt_fault,
    sprite_prompt_text, text_of,
};
use crate::text::{is_blank, trim, trimmed};
use vstd::prelude::*;
use vstd::string::StringExecFns;

verus! {

/// A copy of an optional text.
pub fn copy_of(field: &Option<String>) -> (copy: Option<String>)
    ensures
        copy == *field,
{
    match field {
        Some(text) => Some(text.clone()),
        None => None,
    }
}

/// The text as it stands where it holds more than whitespace.
pub fn non_empty_opt<'a>(value: Option<&'a str>) -> (kept: Option<&'a str>)
    ensures
        match value {
            Some(text) => if is_blank(text@) {
                kept is None
            } else {
                kept == Some(text)
            },
            None => kept is None,
        },
{
    match value {
        Some(text) => if trim(text).is_empty() {
            None
        } else {
            Some(text)
        },
        None => None,
    }
}

/// The trimmed text where it holds more than whitespace.
pub fn non_empty(value: &str) -> (kept: Option<&str>)
    ensures
        match kept {
            Some(text) => !is_blank(value@) && text@ == trimmed(value@),
            None => is_blank(value@),
        },
{
    let text = trim(value);
    if text.is_empty() {
        None
    } else {
        Some(text)
    }
}

/// Why a request to generate is refused: the text of the first check that
/// it fails, or `None` where it passes them all.
pub open spec fn generate_request_fault(request: GenerateRequest) -> Option<Seq<char>> {
    if request.sprite_mode {
        if request.rows is None {
            Some("rows is required in sprite mode"@)
        } else if request.cols is None {
            Some("cols is required in sprite mode"@)
        } else if request.rows->0 == 0 || request.cols->0 == 0 {
            Some("rows and cols must be > 0"@)
        } else if !is_filled(request.object_description) {
            Some("objectDescription is required in sprite mode"@)
        } else if !is_filled(request.style) {
            Some("style is required in sprite mode"@)
        } else if !is_filled(request.camera_angle) {
            Some("cameraAngle is required in sprite mode"@)
        } else {
            None
        }
    } else if !is_filled(request.prompt_text) {
        Some("promptText is required when spriteMode=false"@)
    } else {
        None
    }
}

/// Checks a request to generate. In sprite mode it must give positive rows
/// and columns, a description, a style and a camera angle; else a prompt.
pub fn validate_generate_request(request: &GenerateRequest) -> (checked: AppResult<()>)
    ensures
        match checked {
            Ok(_) => generate_request_fault(*request) is None,
            Err(error) => generate_request_fault(*request) matches Some(text) && is_message(
                error,
                text,
            ),
        },
{
    if request.sprite_mode {
        let rows = match request.rows {
            Some(rows) => rows,
            None => {
                return Err(AppError::msg("rows is required in sprite mode"));
            },
        };
        let cols = match request.cols {
            Some(cols) => cols,
            None => {
                return Err(AppError::msg("cols is required in sprite mode"));
            },
        };
        if rows == 0 || cols == 0 {
            return Err(AppError::msg("rows and cols must be > 0"));
        }
        if !field_is_filled(&request.object_description) {
            return Err(AppError::msg("objectDescription is required in sprite mode"));
        }
        if !field_is_filled(&request.style) {
            return Err(AppError::msg("style is required in sprite mode"));
        }
        if !field_is_filled(&request.camera_angle) {
            return Err(AppError::msg("cameraAngle is required in sprite mode"));
        }
    } else if !field_is_filled(&request.prompt_text) {
        return Err(AppError::msg("promptText is required when spriteMode=false"));
    }
    Ok(())
}

/// The number that a request gives, or one where it gives none.
pub open spec fn or_one(count: Option<u32>) -> u32 {
    match count {
        Some(n) => n,
        None => 1,
    }
}

/// The name of a project that a request starts without naming it.
pub open spec fn default_project_name_text(request: GenerateRequest, date: Seq<char>) -> Seq<char> {
    if request.sprite_mode {
        "sprite-"@ + decimal(or_one(request.rows) as nat) + "x"@ + decimal(
            or_one(request.cols) as nat,
        ) + "-"@ + date
    } else {
        "art-"@ + date
    }
}

/// The name of a project that a request starts without naming it, made of
/// the kind of the request and the date, which the caller writes out.
pub fn default_project_name(request: &GenerateRequest, date: &str) -> (name: String)
    ensures
        name@ == default_project_name_text(*request, date@),
{
    if request.sprite_mode {
        let rows = match request.rows {
            Some(rows) => rows,
            None => 1,
        };
        let cols = match request.cols {
            Some(cols) => cols,
            None => 1,
        };
        let mut name = String::from_str("sprite-");
        push_decimal(&mut name, rows as u64);
        name.append("x");
        push_decimal(&mut name, cols as u64);
        name.append("-");
        name.append(date);
        name
    } else {
        let mut name = String::from_str("art-");
        name.append(date);
        name
    }
}

/// The kind of image and the prompt of a generation.
pub fn plan_generation(request: &GenerateRequest) -> (plan: AppResult<(ChildMode, String)>)
    ensures
        match plan {
            Ok((mode, prompt)) => if request.sprite_mode {
                &&& mode == ChildMode::Sprite
                &&& sprite_prompt_fault(*request) is None
                &&& prompt@ == sprite_prompt_text(
                    request.rows->0,
                    request.cols->0,
                    text_of(request.camera_angle),
                    text_of(request.object_description),
                    text_of(request.style),
                    request.image_prior_data_url is Some,
                )
            } else {
                &&& mode == ChildMode::Normal
                &&& is_filled(request.prompt_text)
                &&& prompt@ == text_of(request.prompt_text)
            },
            Err(error) => if request.sprite_mode {
                sprite_prompt_fault(*request) matches Some(text) && is_message(error, text)
            } else {
                !is_filled(request.prompt_text) && is_message(
                    error,
                    "promptText is required when spriteMode=false"@,
                )
            },
        },
{
    if request.sprite_mode {
        match build_sprite_prompt(request) {
            Ok(prompt) => Ok((ChildMode::Sprite, prompt)),
            Err(error) => Err(error),
        }
    } else {
        match build_normal_prompt(request) {
            Ok(prompt) => Ok((ChildMode::Normal, prompt)),
            Err(error) => Err(error),
        }
    }
}

/// The grid by which the images of a generation are segmented: the rows
/// and columns of a sprite request, one where it gives none.
pub fn generation_grid(request: &GenerateRequest) -> (grid: Option<(u32, u32)>)
    ensures
        grid == if request.sprite_mode {
            Some((or_one(request.rows), or_one(request.cols)))
        } else {
            None
        },
{
    if request.sprite_mode {
        let rows = match request.rows {
            Some(rows) => rows,
            None => 1,
        };
        let cols = match request.cols {
            Some(cols) => cols,
            None => 1,
        };
        Some((rows, cols))
    } else {
        None
    }
}

/// The record of what a generation was made from.
pub fn generation_inputs(request: &GenerateRequest) -> (inputs: ChildInputs)
    ensures
        inputs.rows == request.rows,
        inputs.cols == request.cols,
        inputs.object_description == request.object_description,
        inputs.style == request.style,
        inputs.camera_angle == request.camera_angle,
        inputs.prompt_text == request.prompt_text,
        inputs.edit_prompt is None,
        inputs.base_child_id is None,
        inputs.resolution == Some(request.resolution),
        inputs.image_prior_data_url == request.image_prior_data_url,
        inputs.base_image_path is None,
{
    ChildInputs {
        rows: request.rows,
        cols: request.cols,
        object_description: copy_of(&request.object_description),
        style: copy_of(&request.style),
        camera_angle: copy_of(&request.camera_angle),
        prompt_text: copy_of(&request.prompt_text),
        edit_prompt: None,
        base_child_id: None,
        resolution: Some(request.resolution),
        image_prior_data_url: copy_of(&request.image_prior_data_url),
        base_image_path: None,
    }
}

/// The record of what a generation or an edit produced. The first image
/// is the primary one.
pub fn child_outputs(
    text: Option<String>,
    image_paths: Vec<String>,
    completion: Option<CompletionMetadata>,
) -> (outputs: ChildOutputs)
    ensures
        outputs.text == text,
        outputs.image_paths == image_paths,
        outputs.completion == completion,
        outputs.primary_image_path == if image_paths@.len() > 0 {
            Some(image_paths@[0])
        } else {
            None
        },
{
    let primary_image_path = if image_paths.len() > 0 {
        Some(image_paths[0].clone())
    } else {
        None
    };
    ChildOutputs { text, image_paths, primary_image_path, completion }
}

/// The path of the image that an edit starts from: the one that the
/// request names, else the primary image of the child that is edited.
pub fn edit_base_image_path(request: &EditRequest, base_outputs: &ChildOutputs) -> (path:
    AppResult<String>)
    ensures
        match path {
            Ok(found) => if request.base_image_path is Some {
                Some(found) == request.base_image_path
            } else {
                Some(found) == base_outputs.primary_image_path
            },
            Err(error) => request.base_image_path is None && base_outputs.primary_image_path
                is None && is_message(error, "No base image path found for edit request"@),
        },
{
    match &request.base_image_path {
        Some(path) => Ok(path.clone()),
        None => match &base_outputs.primary_image_path {
            Some(path) => Ok(path.clone()),
            None => Err(AppError::msg("No base image path found for edit request")),
        },
    }
}

/// Whether an edit works on a sprite sheet: the child that is edited holds
/// one, or was made with more than one row and more than one column.
pub open spec fn edits_sprite_sheet(mode: ChildMode, rows: Option<u32>, cols: Option<u32>) -> bool {
    mode == ChildMode::Sprite || (rows is Some && rows->0 > 1 && cols is Some && cols->0 > 1)
}

/// Whether an edit works on a sprite sheet.
pub fn is_sprite_sheet_edit(mode: ChildMode, rows: Option<u32>, cols: Option<u32>) -> (sprite: bool)
    ensures
        sprite == edits_sprite_sheet(mode, rows, cols),
{
    let by_mode = match mode {
        ChildMode::Sprite => true,
        _ => false,
    };
    let by_grid = match (rows, cols) {
        (Some(r), Some(c)) => r > 1 && c > 1,
        _ => false,
    };
    by_mode || by_grid
}

/// The kind of image that an edit produces.
pub fn edit_mode(sprite_sheet: bool) -> (mode: ChildMode)
    ensures
        mode == if sprite_sheet {
            ChildMode::Sprite
        } else {
            ChildMode::Edit
        },
{
    if sprite_sheet {
        ChildMode::Sprite
    } else {
        ChildMode::Edit
    }
}

/// The grid by which the images of an edit are segmented: the rows and
/// columns of the edited sprite sheet where both are positive.
pub fn edit_grid(sprite_sheet: bool, rows: Option<u32>, cols: Option<u32>) -> (grid: Option<
    (u32, u32),
>)
    ensures
        grid == if sprite_sheet && rows is Some && cols is Some && rows->0 > 0 && cols->0 > 0 {
            Some((rows->0, cols->0))
        } else {
            None
        },
{
    if sprite_sheet {
        match (rows, cols) {
            (Some(r), Some(c)) => if r > 0 && c > 0 {
                Some((r, c))
            } else {
                None
            },
            _ => None,
        }
    } else {
        None
    }
}

/// The resolution of an edit: the one that the request names, else 1K.
pub fn edit_resolution(request: &EditRequest) -> (resolution: Resolution)
    ensures
        resolution == match request.resolution {
            Some(named) => named,
            None => Resolution::OneK,
        },
{
    match request.resolution {
        Some(named) => named,
        None => Resolution::OneK,
    }
}

/// The record of what an edit was made from. What the edited child was
/// made from is kept where the edit works on a sprite sheet.
pub fn edit_inputs(
    request: &EditRequest,
    base_inputs: &ChildInputs,
    sprite_sheet: bool,
    resolution: Resolution,
    base_image_path: String,
) -> (inputs: ChildInputs)
    ensures
        sprite_sheet ==> {
            &&& inputs.rows == base_inputs.rows
            &&& inputs.cols == base_inputs.cols
            &&& inputs.object_description == base_inputs.object_description
            &&& inputs.style == base_inputs.style
            &&& inputs.camera_angle == base_inputs.camera_angle
            &&& inputs.prompt_text == base_inputs.prompt_text
        },
        !sprite_sheet ==> {
            &&& inputs.rows is None
            &&& inputs.cols is None
            &&& inputs.object_description is None
            &&& inputs.style is None
            &&& inputs.camera_angle is None
            &&& inputs.prompt_text is None
        },
        inputs.edit_prompt == Some(request.edit_prompt),
        inputs.base_child_id == Some(request.base_child_id),
        inputs.resolution == Some(resolution),
        inputs.image_prior_data_url is None,
        inputs.base_image_path == Some(base_image_path),
{
    if sprite_sheet {
        ChildInputs {
            rows: base_inputs.rows,
            cols: base_inputs.cols,
            object_description: copy_of(&base_inputs.object_description),
            style: copy_of(&base_inputs.style),
            camera_angle: copy_of(&base_inputs.camera_angle),
            prompt_text: copy_of(&base_inputs.prompt_text),
            edit_prompt: Some(request.edit_prompt.clone()),
            base_child_id: Some(request.base_child_id.clone()),
            resolution: Some(resolution),
            image_prior_data_url: None,
            base_image_path: Some(base_image_path),
        }
    } else {
        ChildInputs {
            rows: None,
            cols: None,
            object_description: None,
            style: None,
            camera_angle: None,
            prompt_text: None,
            edit_prompt: Some(request.edit_prompt.clone()),
            base_child_id: Some(request.base_child_id.clone()),
            resolution: Some(resolution),
            image_prior_data_url: None,
            base_image_path: Some(base_image_path),
        }
    }
}

} // verus!
