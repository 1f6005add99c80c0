//! The calls into the base64, image and oxipng crates. Nothing in this file
//! is proved: each contract states what the called function is taken to do.

use base64::engine::general_purpose::STANDARD;
use base64::Engine;
use image::codecs::png::{CompressionType, FilterType, PngEncoder};
use image::{ExtendedColorType, ImageEncoder};
use vstd::prelude::*;

verus! {

/// The error of `base64`'s decoder.
#[verifier::external_type_specification]
#[verifier::external_body]
pub struct ExDecodeError(base64::DecodeError);

/// The error of the `image` crate.
#[verifier::external_type_specification]
#[verifier::external_body]
pub struct ExImageError(image::ImageError);

/// The error of `oxipng`.
#[verifier::external_type_specification]
#[verifier::external_body]
pub struct ExPngError(oxipng::PngError);

/// The text that `base64`'s standard engine, with padding, makes of `bytes`.
pub uninterp spec fn base64_text(bytes: Seq<u8>) -> Seq<char>;

/// The bytes that `base64`'s standard engine reads from `text`, where it
/// accepts `text`.
pub uninterp spec fn base64_bytes(text: Seq<char>) -> Option<Seq<u8>>;

/// Whether the `image` crate decodes `bytes` as the format that their first
/// bytes show, and the width and height of the image where it does.
pub uninterp spec fn decoded_size(bytes: Seq<u8>) -> Option<(u32, u32)>;

/// The PNG file that the `image` crate writes for an RGBA8 buffer at its
/// best compression with adaptive filtering. `None` where it fails.
pub uninterp spec fn png_encoding(rgba: Seq<u8>, width: u32, height: u32) -> Option<Seq<u8>>;

/// The file that `oxipng` makes of the PNG file `png` at the given preset,
/// with the chunks removed that are safe to remove. `None` where it fails.
pub uninterp spec fn png_optimization(png: Seq<u8>, preset: u8) -> Option<Seq<u8>>;

/// Calls `Engine::encode` on `base64::engine::general_purpose::STANDARD`.
/// The result is taken to be `base64_text` of the input, and to be a text
/// that the same engine decodes to the input again.
#[verifier::external_body]
pub(crate) fn base64_encode(bytes: &[u8]) -> (text: String)
    ensures
        text@ == base64_text(bytes@),
        base64_bytes(text@) == Some(bytes@),
{
    STANDARD.encode(bytes)
}

/// Calls `Engine::decode` on `base64::engine::general_purpose::STANDARD`.
/// The result is taken to be `base64_bytes` of the input. That engine
/// demands canonical padding and refuses stray trailing bits, so what it
/// accepts is taken to be exactly the text that it makes of the result.
#[verifier::external_body]
pub(crate) fn base64_decode(text: &str) -> (decoded: Result<Vec<u8>, base64::DecodeError>)
    ensures
        match decoded {
            Ok(bytes) => base64_bytes(text@) == Some(bytes@) && base64_text(bytes@) == text@,
            Err(_) => base64_bytes(text@) is None,
        },
{
    STANDARD.decode(text)
}

/// Calls `image::guess_format`, `image::load_from_memory_with_format` with
/// the format found, and `DynamicImage::into_rgba8`, and takes the buffer
/// apart. Whether that succeeds, and with what width and height, is taken to
/// be `decoded_size` of the input. The buffer is taken to hold at least four
/// bytes for each pixel, since `ImageBuffer` is made by `new`, `from_raw` and
/// `clone` alone. Nothing is claimed of the pixels: JPEG decoding and the
/// conversion to RGBA8 take code paths that are chosen by processor and
/// build, and the sources do not say that those paths agree.
#[verifier::external_body]
pub(crate) fn decode_rgba(bytes: &[u8]) -> (decoded: Result<
    (u32, u32, Vec<u8>),
    image::ImageError,
>)
    ensures
        match decoded {
            Ok((width, height, raw)) => decoded_size(bytes@) == Some((width, height)) && raw@.len()
                >= 4 * (width * height),
            Err(_) => decoded_size(bytes@) is None,
        },
{
    let format = image::guess_format(bytes)?;
    let buffer = image::load_from_memory_with_format(bytes, format)?.into_rgba8();
    let (width, height) = buffer.dimensions();
    Ok((width, height, buffer.into_raw()))
}

/// Calls `ImageEncoder::write_image` on a `PngEncoder` made by
/// `new_with_quality` with `CompressionType::Best` and
/// `FilterType::Adaptive`, writing into a fresh vector. That call panics
/// unless the buffer holds four bytes for each pixel. The result is taken to
/// be `png_encoding` of the input, and an error where a dimension is zero.
#[verifier::external_body]
pub(crate) fn png_encode(rgba: &[u8], width: u32, height: u32) -> (encoded: Result<
    Vec<u8>,
    image::ImageError,
>)
    requires
        rgba@.len() == 4 * (width * height),
    ensures
        match encoded {
            Ok(png) => png_encoding(rgba@, width, height) == Some(png@),
            Err(_) => png_encoding(rgba@, width, height) is None,
        },
        (width == 0 || height == 0) ==> encoded is Err,
{
    let mut png = Vec::new();
    let encoder = PngEncoder::new_with_quality(&mut png, CompressionType::Best, FilterType::Adaptive);
    encoder.write_image(rgba, width, height, ExtendedColorType::Rgba8)?;
    Ok(png)
}

/// Calls `oxipng::optimize_from_memory` with the options of
/// `Options::from_preset(preset)` and `strip` set to `StripChunks::Safe`.
/// That call can panic on bytes that are no well-formed PNG file, so the
/// input must be a file that `png_encode` wrote. The result is taken to be
/// `png_optimization` of the input.
#[verifier::external_body]
pub(crate) fn png_optimize(png: &[u8], preset: u8) -> (optimized: Result<
    Vec<u8>,
    oxipng::PngError,
>)
    requires
        exists|rgba: Seq<u8>, width: u32, height: u32|
            #[trigger] png_encoding(rgba, width, height) == Some(png@),
    ensures
        match optimized {
            Ok(smaller) => png_optimization(png@, preset) == Some(smaller@),
            Err(_) => png_optimization(png@, preset) is None,
        },
{
    let mut options = oxipng::Options::from_preset(preset);
    options.strip = oxipng::StripChunks::Safe;
    oxipng::optimize_from_memory(png, &options)
}

/// Writes out an error of `base64`'s decoder through its `Display`.
/// Nothing is claimed of the text.
#[verifier::external_body]
pub(crate) fn base64_error_text(error: &base64::DecodeError) -> (text: String) {
    format!("{error}")
}

/// Writes out an error of the `image` crate through its `Display`.
/// Nothing is claimed of the text.
#[verifier::external_body]
pub(crate) fn image_error_text(error: &image::ImageError) -> (text: String) {
    format!("{error}")
}

/// Writes out an error of `oxipng` through its `Display`. Nothing is
/// claimed of the text.
#[verifier::external_body]
pub(crate) fn png_error_text(error: &oxipng::PngError) -> (text: String) {
    format!("{error}")
}

} // verus!
