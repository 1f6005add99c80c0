//! Data URLs of the form `data:<mime>;base64,<payload>`: reading the bytes
//! out of one, and writing one for given bytes.

use crate::codec::{
    base64_bytes, base64_decode, base64_encode, base64_error_text, base64_text,
};
use crate::error::{AppError, AppResult, DataUrlFault};
use crate::text::{
    chars_until, contains_text, has_infix, lemma_position, lemma_position_is, matches_at,
    occurs_at, position, same_text, starts_with, to_chars, trim, trimmed,
};
use vstd::prelude::*;
use vstd::string::{StrSliceExecFns, StringExecFns};

verus! {

/// The bytes that a data URL carries.
pub struct ParsedDataUrl {
    pub bytes: Vec<u8>,
}

/// What stands before the first comma of `url`: its metadata.
pub open spec fn metadata_of(url: Seq<char>) -> Seq<char> {
    url.take(position(url, ','))
}

/// What stands after the first comma of `url`: its payload.
pub open spec fn payload_of(url: Seq<char>) -> Seq<char> {
    url.skip(position(url, ',') + 1)
}

/// The mime type that the metadata names: what stands between the `data:`
/// that it begins with and the first semicolon after it.
pub open spec fn mime_of(metadata: Seq<char>) -> Seq<char> {
    let rest = if starts_with(metadata, "data:"@) {
        metadata.skip("data:"@.len() as int)
    } else {
        metadata
    };
    rest.take(position(rest, ';'))
}

/// Whether `mime` is one of the supported image types.
pub open spec fn is_supported_mime(mime: Seq<char>) -> bool {
    ||| mime == "image/png"@
    ||| mime == "image/jpeg"@
    ||| mime == "image/jpg"@
    ||| mime == "image/webp"@
}

/// Whether `url` has the shape of a data URL with a base64 image payload,
/// whatever its payload holds.
pub open spec fn is_well_shaped(url: Seq<char>) -> bool {
    &&& starts_with(url, "data:"@)
    &&& url.contains(',')
    &&& has_infix(metadata_of(url), ";base64"@)
    &&& is_supported_mime(mime_of(metadata_of(url)))
}

/// Whether `fault` is the reason for which `url` is refused: the first of
/// the checks, in the order of the variants, that `url` fails.
pub open spec fn is_fault_of(url: Seq<char>, fault: DataUrlFault) -> bool {
    match fault {
        DataUrlFault::MissingPrefix => !starts_with(url, "data:"@),
        DataUrlFault::MissingSeparator => starts_with(url, "data:"@) && !url.contains(','),
        DataUrlFault::NotBase64 => {
            &&& starts_with(url, "data:"@)
            &&& url.contains(',')
            &&& !has_infix(metadata_of(url), ";base64"@)
        },
        DataUrlFault::UnsupportedMime(mime) => {
            &&& starts_with(url, "data:"@)
            &&& url.contains(',')
            &&& has_infix(metadata_of(url), ";base64"@)
            &&& !is_supported_mime(mime_of(metadata_of(url)))
            &&& mime@ == mime_of(metadata_of(url))
        },
        DataUrlFault::InvalidPayload(_) => {
            &&& is_well_shaped(url)
            &&& base64_bytes(trimmed(payload_of(url))) is None
        },
    }
}

/// Whether `url` is a data URL that carries `bytes`: it is well shaped, and
/// its payload, trimmed, is the base64 text of `bytes`.
pub open spec fn carries(url: Seq<char>, bytes: Seq<u8>) -> bool {
    &&& is_well_shaped(url)
    &&& base64_bytes(trimmed(payload_of(url))) == Some(bytes)
    &&& base64_text(bytes) == trimmed(payload_of(url))
}

/// The mime type that stands for a file extension.
pub open spec fn mime_for(extension: Option<Seq<char>>) -> Seq<char> {
    match extension {
        Some(ext) => if ext == "jpg"@ || ext == "jpeg"@ {
            "image/jpeg"@
        } else if ext == "webp"@ {
            "image/webp"@
        } else {
            "image/png"@
        },
        None => "image/png"@,
    }
}

/// The data URL of the given mime type that carries `bytes`.
pub open spec fn data_url_text(mime: Seq<char>, bytes: Seq<u8>) -> Seq<char> {
    "data:"@ + mime + ";base64,"@ + base64_text(bytes)
}

proof fn lemma_prefix_in_metadata(url: Seq<char>)
    ensures
        starts_with(url, "data:"@) == occurs_at(metadata_of(url), "data:"@, 0),
{
    reveal_strlit("data:");
    let prefix = "data:"@;
    let metadata = metadata_of(url);
    lemma_position(url, ',');
    let at = position(url, ',');
    if starts_with(url, prefix) {
        if at < 5 {
            assert(url.take(5)[at] == url[at]);
            assert(prefix[at] != ',');
        }
        assert(metadata.subrange(0, 5) =~= url.take(5));
    }
    if occurs_at(metadata, prefix, 0) {
        assert(url.take(5) =~= metadata.subrange(0, 5));
    }
}

/// The prefix counts once: a string that begins with `data:data:` names a
/// mime type that begins with `data:`, which is none of the supported ones,
/// so the string is not well shaped.
pub proof fn lemma_repeated_prefix_is_refused(url: Seq<char>)
    requires
        starts_with(url, "data:data:"@),
    ensures
        !is_well_shaped(url),
{
    reveal_strlit("data:data:");
    reveal_strlit("data:");
    reveal_strlit("image/png");
    reveal_strlit("image/jpeg");
    reveal_strlit("image/jpg");
    reveal_strlit("image/webp");
    let twice = "data:data:"@;
    lemma_position(url, ',');
    let at = position(url, ',');
    assert forall|j: int| 0 <= j < 10 implies url[j] == twice[j] by {
        assert(url.take(10)[j] == url[j]);
    }
    if at < 10 {
        assert(url[at] == twice[at]);
    }
    let metadata = metadata_of(url);
    assert(metadata.take(5) =~= "data:"@);
    let rest = metadata.skip(5);
    lemma_position(rest, ';');
    let end = position(rest, ';');
    assert forall|j: int| 0 <= j < 5 implies rest[j] == twice[j + 5] by {
        assert(rest[j] == url[j + 5]);
    }
    if end < 5 {
        assert(rest[end] == twice[end + 5]);
    }
    let mime = mime_of(metadata);
    assert(mime[0] == rest[0]);
    assert(mime[0] == 'd');
}

/// Reads the bytes out of a data URL. The URL must begin with `data:`, hold
/// a comma, name `;base64` and a supported mime type in its metadata, and
/// carry a payload that, trimmed, is base64.
pub fn parse_data_url(data_url: &str) -> (parsed: AppResult<ParsedDataUrl>)
    ensures
        match parsed {
            Ok(found) => carries(data_url@, found.bytes@),
            Err(error) => error matches AppError::InvalidDataUrl(fault) && is_fault_of(
                data_url@,
                fault,
            ),
        },
        parsed is Ok <==> is_well_shaped(data_url@) && base64_bytes(
            trimmed(payload_of(data_url@)),
        ) is Some,
{
    let prefix = to_chars("data:");
    let metadata = chars_until(data_url, ',');
    let total = data_url.unicode_len();
    proof {
        lemma_prefix_in_metadata(data_url@);
        lemma_position(data_url@, ',');
    }
    if !matches_at(&metadata, &prefix, 0) {
        return Err(AppError::InvalidDataUrl(DataUrlFault::MissingPrefix));
    }
    if metadata.len() == total {
        return Err(AppError::InvalidDataUrl(DataUrlFault::MissingSeparator));
    }
    let marker = to_chars(";base64");
    if !contains_text(&metadata, &marker) {
        return Err(AppError::InvalidDataUrl(DataUrlFault::NotBase64));
    }
    proof {
        reveal_strlit("data:");
        assert(metadata@.take(5) =~= metadata@.subrange(0, 5));
    }
    let from: usize = prefix.len();
    let mut to: usize = from;
    while to < metadata.len() && metadata[to] != ';'
        invariant
            from <= to <= metadata@.len(),
            forall|j: int| from <= j < to ==> metadata@[j] != ';',
        decreases metadata@.len() - to,
    {
        to = to + 1;
    }
    proof {
        let rest = metadata@.skip(from as int);
        lemma_position_is(rest, ';', to - from);
        assert(rest.take(to - from) =~= data_url@.subrange(from as int, to as int));
    }
    let mime = data_url.substring_char(from, to);
    let supported = same_text(mime, "image/png") || same_text(mime, "image/jpeg") || same_text(
        mime,
        "image/jpg",
    ) || same_text(mime, "image/webp");
    if !supported {
        return Err(AppError::InvalidDataUrl(DataUrlFault::UnsupportedMime(mime.to_owned())));
    }
    let payload = data_url.substring_char(metadata.len() + 1, total);
    proof {
        assert(payload@ =~= payload_of(data_url@));
    }
    let text = trim(payload);
    match base64_decode(text) {
        Ok(bytes) => Ok(ParsedDataUrl { bytes }),
        Err(error) => Err(
            AppError::InvalidDataUrl(DataUrlFault::InvalidPayload(base64_error_text(&error))),
        ),
    }
}

/// Checks that a string is a data URL from which bytes can be read.
pub fn validate_data_url(data_url: &str) -> (checked: AppResult<()>)
    ensures
        checked is Ok <==> is_well_shaped(data_url@) && base64_bytes(
            trimmed(payload_of(data_url@)),
        ) is Some,
        checked matches Err(error) ==> error matches AppError::InvalidDataUrl(fault)
            && is_fault_of(data_url@, fault),
{
    match parse_data_url(data_url) {
        Ok(_) => Ok(()),
        Err(error) => Err(error),
    }
}

/// The mime type that stands for a file extension: `image/jpeg` for `jpg`
/// and `jpeg`, `image/webp` for `webp`, and `image/png` for all else.
pub fn mime_for_extension(extension: Option<&str>) -> (mime: &'static str)
    ensures
        mime@ == mime_for(
            match extension {
                Some(ext) => Some(ext@),
                None => None,
            },
        ),
{
    match extension {
        Some(ext) => {
            if same_text(ext, "jpg") || same_text(ext, "jpeg") {
                "image/jpeg"
            } else if same_text(ext, "webp") {
                "image/webp"
            } else {
                "image/png"
            }
        },
        None => "image/png",
    }
}

/// Writes the data URL that carries `bytes`, with the mime type that
/// stands for `extension`.
pub fn encode_data_url(bytes: &[u8], extension: Option<&str>) -> (url: String)
    ensures
        url@ == data_url_text(
            mime_for(
                match extension {
                    Some(ext) => Some(ext@),
                    None => None,
                },
            ),
            bytes@,
        ),
{
    let mime = mime_for_extension(extension);
    let payload = base64_encode(bytes);
    let mut url = String::from_str("data:");
    url.append(mime);
    url.append(";base64,");
    url.append(payload.as_str());
    url
}

/// A data URL that names the mime type `image/png` alone and whose payload
/// has no whitespace around it is written back letter for letter: the bytes
/// that it carries, encoded again as PNG, give the same URL.
pub proof fn lemma_png_data_url_round_trip(url: Seq<char>, bytes: Seq<u8>)
    requires
        carries(url, bytes),
        url == "data:image/png;base64,"@ + trimmed(payload_of(url)),
    ensures
        data_url_text(mime_for(Some("png"@)), bytes) == url,
{
    reveal_strlit("data:image/png;base64,");
    reveal_strlit("data:");
    reveal_strlit("image/png");
    reveal_strlit(";base64,");
    reveal_strlit("png");
    reveal_strlit("jpg");
    reveal_strlit("jpeg");
    reveal_strlit("webp");
    assert("data:"@ + "image/png"@ + ";base64,"@ =~= "data:image/png;base64,"@);
    assert("png"@ != "jpg"@) by {
        assert("png"@[0] != "jpg"@[0]);
    }
    assert("png"@ != "jpeg"@) by {
        assert("png"@.len() != "jpeg"@.len());
    }
    assert("png"@ != "webp"@) by {
        assert("png"@.len() != "webp"@.len());
    }
}

} // verus!
