//! From a generated image to the bytes that are stored: decoding, optional
//! background removal, and lossless PNG encoding in two stages.

use crate::codec::{
    base64_bytes, decode_rgba, decoded_size, image_error_text, png_encode, png_encoding,
    png_error_text, png_optimization, png_optimize,
};
use crate::data_url::{is_fault_of, is_well_shaped, parse_data_url, payload_of};
use crate::error::{AppError, AppResult, EncodeStage};
use crate::raster::{raw_bytes, Image, Raster};
use crate::segment::{apply_chromakey_transparency, lemma_segmented_only_clears, segmented};
use crate::text::trimmed;
use vstd::prelude::*;
use vstd::string::StringExecFns;

verus! {

/// The preset at which written PNG files are optimized.
pub const OPTIMIZATION_PRESET: u8 = 3;

/// The stored form of an RGBA8 buffer: the PNG file written for it and then
/// optimized; or the stage that failed.
pub open spec fn optimized_png(rgba: Seq<u8>, width: u32, height: u32) -> Result<
    Seq<u8>,
    EncodeStage,
> {
    match png_encoding(rgba, width, height) {
        None => Err(EncodeStage::Encode),
        Some(png) => match png_optimization(png, OPTIMIZATION_PRESET) {
            None => Err(EncodeStage::Optimize),
            Some(smaller) => Ok(smaller),
        },
    }
}

/// The image that is stored for a decoded one: segmented where the
/// backdrop is to be removed, as it is where not.
pub open spec fn processed(r: Raster, apply_chromakey: bool, grid: Option<(u32, u32)>) -> Raster {
    if apply_chromakey {
        segmented(r, grid)
    } else {
        r
    }
}

/// The stored form of a decoded image: the optimized PNG file of what is
/// left of it after the backdrop was removed where asked to; or the stage of
/// encoding that failed.
pub open spec fn stored_form(r: Raster, apply_chromakey: bool, grid: Option<(u32, u32)>) -> Result<
    Seq<u8>,
    EncodeStage,
> {
    optimized_png(raw_bytes(processed(r, apply_chromakey, grid)), r.width as u32, r.height as u32)
}

/// The bytes that a data URL carries; `None` where the string is refused.
pub open spec fn carried_bytes(url: Seq<char>) -> Option<Seq<u8>> {
    if is_well_shaped(url) {
        base64_bytes(trimmed(payload_of(url)))
    } else {
        None
    }
}

/// Whether `r` is a valid image of the given size.
pub open spec fn has_size(r: Raster, size: (u32, u32)) -> bool {
    r.wf() && r.width == size.0 && r.height == size.1
}

/// Decodes an image of any supported format to RGBA8. Whether that
/// succeeds, and with what size, depends on the bytes alone; the pixels are
/// what the decoder gives on this machine.
pub fn decode_image(bytes: &[u8]) -> (decoded: AppResult<Image>)
    ensures
        match decoded {
            Ok(image) => decoded_size(bytes@) matches Some(size) && has_size(image@, size),
            Err(error) => error is Decode && decoded_size(bytes@) is None,
        },
{
    match decode_rgba(bytes) {
        Ok((width, height, raw)) => match Image::from_raw(width, height, raw) {
            Some(image) => Ok(image),
            None => Err(AppError::Decode(String::from_str("pixel buffer too short"))),
        },
        Err(error) => Err(AppError::Decode(image_error_text(&error))),
    }
}

/// Writes an RGBA8 buffer as a PNG file at the best compression with
/// adaptive filtering, and optimizes the file without loss.
pub fn encode_png_optimized(rgba: &[u8], width: u32, height: u32) -> (encoded: AppResult<Vec<u8>>)
    requires
        rgba@.len() == 4 * (width * height),
    ensures
        match encoded {
            Ok(png) => optimized_png(rgba@, width, height) == Ok::<Seq<u8>, EncodeStage>(png@),
            Err(error) => error matches AppError::Encode(stage, _) && optimized_png(
                rgba@,
                width,
                height,
            ) == Err::<Seq<u8>, EncodeStage>(stage),
        },
        (width == 0 || height == 0) ==> encoded is Err,
{
    let png = match png_encode(rgba, width, height) {
        Ok(png) => png,
        Err(error) => {
            return Err(AppError::Encode(EncodeStage::Encode, image_error_text(&error)));
        },
    };
    match png_optimize(png.as_slice(), OPTIMIZATION_PRESET) {
        Ok(smaller) => Ok(smaller),
        Err(error) => Err(AppError::Encode(EncodeStage::Optimize, png_error_text(&error))),
    }
}

/// Makes the stored PNG file of a decoded image: removes the backdrop
/// where asked to, and encodes what is left.
pub fn store_image(image: Image, apply_chromakey: bool, sprite_grid: Option<(u32, u32)>) -> (stored:
    AppResult<Vec<u8>>)
    ensures
        match stored {
            Ok(png) => stored_form(image@, apply_chromakey, sprite_grid) == Ok::<
                Seq<u8>,
                EncodeStage,
            >(png@),
            Err(error) => error matches AppError::Encode(stage, _) && stored_form(
                image@,
                apply_chromakey,
                sprite_grid,
            ) == Err::<Seq<u8>, EncodeStage>(stage),
        },
{
    let mut image = image;
    let ghost r = image@;
    let width = image.width();
    let height = image.height();
    if apply_chromakey {
        apply_chromakey_transparency(&mut image, sprite_grid);
        proof {
            lemma_segmented_only_clears(r, sprite_grid);
        }
    }
    encode_png_optimized(image.as_raw().as_slice(), width, height)
}

/// Makes the stored PNG file of one generated image: reads the bytes out of
/// the data URL, decodes them, removes the backdrop where asked to, and
/// encodes the result.
///
/// A string that is no data URL is refused with its fault, and bytes that
/// are no image with `Decode`. Else the result is the stored form of an
/// image of the decoded size: which image that is, the decoder decides.
pub fn render_output_image(
    data_url: &str,
    apply_chromakey: bool,
    sprite_grid: Option<(u32, u32)>,
) -> (rendered: AppResult<Vec<u8>>)
    ensures
        match rendered {
            Ok(png) => carried_bytes(data_url@) matches Some(bytes) && decoded_size(bytes)
                matches Some(size) && exists|r: Raster|
                has_size(r, size) && #[trigger] stored_form(r, apply_chromakey, sprite_grid) == Ok::<
                    Seq<u8>,
                    EncodeStage,
                >(png@),
            Err(AppError::InvalidDataUrl(fault)) => carried_bytes(data_url@) is None && is_fault_of(
                data_url@,
                fault,
            ),
            Err(AppError::Decode(_)) => carried_bytes(data_url@) matches Some(bytes)
                && decoded_size(bytes) is None,
            Err(AppError::Encode(stage, _)) => carried_bytes(data_url@) matches Some(bytes)
                && decoded_size(bytes) matches Some(size) && exists|r: Raster|
                has_size(r, size) && #[trigger] stored_form(r, apply_chromakey, sprite_grid) == Err::<
                    Seq<u8>,
                    EncodeStage,
                >(stage),
            Err(AppError::Message(_)) => false,
        },
{
    let parsed = match parse_data_url(data_url) {
        Ok(parsed) => parsed,
        Err(error) => {
            return Err(error);
        },
    };
    let image = match decode_image(parsed.bytes.as_slice()) {
        Ok(image) => image,
        Err(error) => {
            return Err(error);
        },
    };
    store_image(image, apply_chromakey, sprite_grid)
}

} // verus!
