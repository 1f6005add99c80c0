//! The errors of the library.

use vstd::prelude::*;
use vstd::string::StringExecFns;

verus! {

/// Why a string was refused as a data URL.
#[derive(Debug, PartialEq, Eq)]
pub enum DataUrlFault {
    /// It does not begin with `data:`.
    MissingPrefix,
    /// It holds no comma between metadata and payload.
    MissingSeparator,
    /// Its metadata does not hold `;base64`.
    NotBase64,
    /// Its mime type, given here, is none of the supported ones.
    UnsupportedMime(String),
    /// Its payload is not base64, for the reason that the decoder gives.
    InvalidPayload(String),
}

/// The stage at which PNG encoding failed.
#[derive(Debug, Clone, Copy, PartialEq, Eq, Structural)]
pub enum EncodeStage {
    /// Writing the PNG file.
    Encode,
    /// Optimizing the written file.
    Optimize,
}

/// What can go wrong with one image or one request.
#[derive(Debug, PartialEq, Eq)]
pub enum AppError {
    /// A request was refused for the reason given.
    Message(String),
    /// A string is no data URL with an image payload.
    InvalidDataUrl(DataUrlFault),
    /// Bytes do not parse as a supported raster format, for the reason that
    /// the decoder gives.
    Decode(String),
    /// An image could not be written as PNG, at the stage and for the
    /// reason given.
    Encode(EncodeStage, String),
}

/// The result of an operation that may fail.
pub type AppResult<T> = Result<T, AppError>;

/// Whether `error` is a refusal with the text `text`.
pub open spec fn is_message(error: AppError, text: Seq<char>) -> bool {
    error matches AppError::Message(held) && held@ == text
}

/// The text of an error.
pub open spec fn message_of(error: AppError) -> Seq<char> {
    match error {
        AppError::Message(text) => text@,
        AppError::InvalidDataUrl(DataUrlFault::MissingPrefix) => "expected a data URL with image payload"@,
        AppError::InvalidDataUrl(DataUrlFault::MissingSeparator) => "invalid data URL format"@,
        AppError::InvalidDataUrl(DataUrlFault::NotBase64) => "data URL must be base64 encoded"@,
        AppError::InvalidDataUrl(DataUrlFault::UnsupportedMime(mime)) => "unsupported image mime type: "@
            + mime@ + ". allowed: png/jpeg/webp"@,
        AppError::InvalidDataUrl(DataUrlFault::InvalidPayload(reason)) => "base64 decode error: "@
            + reason@,
        AppError::Decode(reason) => "image decode/encode error: "@ + reason@,
        AppError::Encode(EncodeStage::Encode, reason) => "failed to encode png: "@ + reason@,
        AppError::Encode(EncodeStage::Optimize, reason) => "failed to optimize png: "@ + reason@,
    }
}

impl AppError {
    /// An error that carries `message`.
    pub fn msg(message: &str) -> (error: AppError)
        ensures
            is_message(error, message@),
    {
        AppError::Message(String::from_str(message))
    }

    /// The text of the error.
    pub fn message(&self) -> (text: String)
        ensures
            text@ == message_of(*self),
    {
        match self {
            AppError::Message(text) => text.clone(),
            AppError::InvalidDataUrl(DataUrlFault::MissingPrefix) => String::from_str(
                "expected a data URL with image payload",
            ),
            AppError::InvalidDataUrl(DataUrlFault::MissingSeparator) => String::from_str(
                "invalid data URL format",
            ),
            AppError::InvalidDataUrl(DataUrlFault::NotBase64) => String::from_str(
                "data URL must be base64 encoded",
            ),
            AppError::InvalidDataUrl(DataUrlFault::UnsupportedMime(mime)) => {
                let mut text = String::from_str("unsupported image mime type: ");
                text.append(mime.as_str());
                text.append(". allowed: png/jpeg/webp");
                text
            },
            AppError::InvalidDataUrl(DataUrlFault::InvalidPayload(reason)) => {
                let mut text = String::from_str("base64 decode error: ");
                text.append(reason.as_str());
                text
            },
            AppError::Decode(reason) => {
                let mut text = String::from_str("image decode/encode error: ");
                text.append(reason.as_str());
                text
            },
            AppError::Encode(EncodeStage::Encode, reason) => {
                let mut text = String::from_str("failed to encode png: ");
                text.append(reason.as_str());
                text
            },
            AppError::Encode(EncodeStage::Optimize, reason) => {
                let mut text = String::from_str("failed to optimize png: ");
                text.append(reason.as_str());
                text
            },
        }
    }
}

} // verus!
