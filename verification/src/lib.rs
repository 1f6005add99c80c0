//! Background removal for chromakey-green sprite sheets, selection of the
//! best candidate image for a target resolution, data-URL handling and PNG
//! encoding, together with the request and record types that surround them.

pub mod chroma;
pub mod codec;
pub mod data_url;
pub mod error;
pub mod flood;
pub mod grid;
pub mod json;
pub mod marks;
pub mod models;
pub mod numerals;
pub mod openrouter;
pub mod output;
pub mod prompt;
pub mod raster;
pub mod records;
pub mod request;
pub mod response;
pub mod segment;
pub mod select;
pub mod settle;
pub mod text;
