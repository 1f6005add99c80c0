//! The records and requests that surround the image pipeline.

use vstd::prelude::*;

verus! {

/// How a child of a project came about.
#[derive(Debug, Clone, Copy, PartialEq, Eq, Structural)]
pub enum ChildType {
    Generate,
    Edit,
}

/// What kind of image a child holds.
#[derive(Debug, Clone, Copy, PartialEq, Eq, Structural)]
pub enum ChildMode {
    Sprite,
    Normal,
    Edit,
}

/// The target resolution of a generation: the pixel count of the long edge.
#[derive(Debug, Clone, Copy, PartialEq, Eq, Structural)]
pub enum Resolution {
    OneK,
    TwoK,
    FourK,
}

impl Resolution {
    /// The long edge, in pixels, that the resolution stands for.
    pub open spec fn long_edge(self) -> int {
        match self {
            Resolution::OneK => 1024,
            Resolution::TwoK => 2048,
            Resolution::FourK => 4096,
        }
    }

    /// The name of the resolution as the generation provider spells it.
    pub open spec fn provider_name(self) -> Seq<char> {
        match self {
            Resolution::OneK => "1K"@,
            Resolution::TwoK => "2K"@,
            Resolution::FourK => "4K"@,
        }
    }

    /// The name of the resolution as the generation provider spells it.
    pub fn as_openrouter_value(&self) -> (name: &'static str)
        ensures
            name@ == self.provider_name(),
    {
        match self {
            Resolution::OneK => "1K",
            Resolution::TwoK => "2K",
            Resolution::FourK => "4K",
        }
    }
}

/// What a child was made from.
#[derive(Debug, Clone, Default)]
pub struct ChildInputs {
    pub rows: Option<u32>,
    pub cols: Option<u32>,
    pub object_description: Option<String>,
    pub style: Option<String>,
    pub camera_angle: Option<String>,
    pub prompt_text: Option<String>,
    pub edit_prompt: Option<String>,
    pub base_child_id: Option<String>,
    pub resolution: Option<Resolution>,
    pub image_prior_data_url: Option<String>,
    pub base_image_path: Option<String>,
}

/// What the provider said about how a completion ended.
#[derive(Debug, Clone, Default)]
pub struct CompletionMetadata {
    pub finish_reason: Option<String>,
    pub refusal: Option<String>,
    pub reasoning: Option<String>,
    pub reasoning_details: Option<String>,
}

/// What a generation or an edit produced.
#[derive(Debug, Clone, Default)]
pub struct ChildOutputs {
    pub text: Option<String>,
    pub image_paths: Vec<String>,
    pub primary_image_path: Option<String>,
    pub completion: Option<CompletionMetadata>,
}

/// A request to generate an image.
#[derive(Debug, Clone)]
pub struct GenerateRequest {
    pub project_id: Option<String>,
    pub name: Option<String>,
    pub sprite_mode: bool,
    pub rows: Option<u32>,
    pub cols: Option<u32>,
    pub object_description: Option<String>,
    pub style: Option<String>,
    pub camera_angle: Option<String>,
    pub prompt_text: Option<String>,
    pub resolution: Resolution,
    pub image_prior_data_url: Option<String>,
}

/// A request to edit an image of a project.
#[derive(Debug, Clone)]
pub struct EditRequest {
    pub project_id: String,
    pub base_child_id: String,
    pub name: Option<String>,
    pub edit_prompt: String,
    pub resolution: Option<Resolution>,
    pub base_image_data_url: Option<String>,
    pub base_image_path: Option<String>,
}

} // verus!
