//! The generation provider: its configuration and the request that is sent
//! to it.

use crate::error::{is_message, AppError, AppResult};
use crate::models::Resolution;
use crate::prompt::{field_is_filled, is_filled};
use crate::request::copy_of;
use vstd::prelude::*;
use vstd::string::StringExecFns;

verus! {

/// The model that is asked where none is configured.
pub const DEFAULT_MODEL: &'static str = "google/gemini-3-pro-image-preview";

/// How the provider is reached.
#[derive(Debug, Clone)]
pub struct OpenRouterConfig {
    pub api_key: Option<String>,
    pub model: String,
    pub referer: Option<String>,
    pub title: Option<String>,
}

/// A configured value, kept where it holds more than whitespace.
pub open spec fn kept(value: Option<String>) -> Option<String> {
    if is_filled(value) {
        value
    } else {
        None
    }
}

fn keep_filled(value: Option<String>) -> (result: Option<String>)
    ensures
        result == kept(value),
{
    if field_is_filled(&value) {
        value
    } else {
        None
    }
}

impl OpenRouterConfig {
    /// The configuration made of the values that the environment holds.
    /// A value that holds nothing but whitespace counts as missing; the
    /// model falls back to `DEFAULT_MODEL`.
    pub fn from_values(
        api_key: Option<String>,
        model: Option<String>,
        referer: Option<String>,
        title: Option<String>,
    ) -> (config: OpenRouterConfig)
        ensures
            config.api_key == kept(api_key),
            config.referer == kept(referer),
            config.title == kept(title),
            config.model@ == if is_filled(model) {
                model->0@
            } else {
                DEFAULT_MODEL@
            },
    {
        let model = match keep_filled(model) {
            Some(name) => name,
            None => String::from_str(DEFAULT_MODEL),
        };
        OpenRouterConfig {
            api_key: keep_filled(api_key),
            model,
            referer: keep_filled(referer),
            title: keep_filled(title),
        }
    }

    /// The API key, which must be configured.
    pub fn require_api_key(&self) -> (key: AppResult<&str>)
        ensures
            match key {
                Ok(text) => self.api_key matches Some(held) && held@ == text@,
                Err(error) => self.api_key is None && is_message(
                    error,
                    "OPENROUTER_API_KEY is missing. Add it to apps/desktop/.env"@,
                ),
            },
    {
        match &self.api_key {
            Some(key) => Ok(key.as_str()),
            None => Err(AppError::msg("OPENROUTER_API_KEY is missing. Add it to apps/desktop/.env")),
        }
    }
}

/// What is asked of the provider.
#[derive(Debug, Clone)]
pub struct GenerateImageRequest {
    pub prompt: String,
    pub image_data_url: Option<String>,
    pub aspect_ratio: Option<String>,
    pub resolution: Resolution,
}

/// The address of an image inside a message.
#[derive(Debug)]
pub struct ImageUrlPayload {
    pub url: String,
}

/// One part of a message.
#[derive(Debug)]
pub enum ContentPart {
    Text { text: String },
    ImageUrl { image_url: ImageUrlPayload },
}

/// One message of a chat.
#[derive(Debug)]
pub struct ChatMessage {
    pub role: &'static str,
    pub content: Vec<ContentPart>,
}

/// The size and shape of the image that is asked for.
#[derive(Debug)]
pub struct ImageConfig {
    pub image_size: String,
    pub aspect_ratio: Option<String>,
}

/// The body of the request that is sent to the provider.
#[derive(Debug)]
pub struct ChatPayload {
    pub model: String,
    pub modalities: Vec<&'static str>,
    pub messages: Vec<ChatMessage>,
    pub image_config: Option<ImageConfig>,
}

/// The parts of the one message of a request: the prompt, and after it the
/// reference image where one is given.
pub open spec fn is_content_of(parts: Seq<ContentPart>, request: GenerateImageRequest) -> bool {
    &&& parts.len() == if request.image_data_url is Some {
        2nat
    } else {
        1nat
    }
    &&& parts[0] == (ContentPart::Text { text: request.prompt })
    &&& request.image_data_url matches Some(url) ==> parts[1] == (ContentPart::ImageUrl {
        image_url: ImageUrlPayload { url },
    })
}

/// The body of the request for one generation: a single message of the
/// user, asking for image and text.
pub fn build_payload(model: &str, request: &GenerateImageRequest) -> (payload: ChatPayload)
    ensures
        payload.model@ == model@,
        payload.modalities@.len() == 2,
        payload.modalities@[0]@ == "image"@,
        payload.modalities@[1]@ == "text"@,
        payload.messages@.len() == 1,
        payload.messages@[0].role@ == "user"@,
        is_content_of(payload.messages@[0].content@, *request),
        payload.image_config matches Some(config) && config.image_size@
            == request.resolution.provider_name() && config.aspect_ratio == request.aspect_ratio,
{
    let mut content: Vec<ContentPart> = Vec::new();
    content.push(ContentPart::Text { text: request.prompt.clone() });
    match &request.image_data_url {
        Some(url) => {
            content.push(ContentPart::ImageUrl { image_url: ImageUrlPayload { url: url.clone() } });
        },
        None => {},
    }
    let mut modalities: Vec<&'static str> = Vec::new();
    modalities.push("image");
    modalities.push("text");
    let mut messages: Vec<ChatMessage> = Vec::new();
    messages.push(ChatMessage { role: "user", content });
    ChatPayload {
        model: String::from_str(model),
        modalities,
        messages,
        image_config: Some(
            ImageConfig {
                image_size: String::from_str(request.resolution.as_openrouter_value()),
                aspect_ratio: copy_of(&request.aspect_ratio),
            },
        ),
    }
}

} // verus!
