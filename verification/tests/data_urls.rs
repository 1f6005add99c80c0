use sprite_pipeline::data_url::{
    encode_data_url, mime_for_extension, parse_data_url, validate_data_url,
};
use sprite_pipeline::error::{AppError, DataUrlFault};

fn refused_payload(url: &str) -> bool {
    matches!(fault_of(url), DataUrlFault::InvalidPayload(_))
}

fn fault_of(url: &str) -> DataUrlFault {
    match parse_data_url(url) {
        Err(AppError::InvalidDataUrl(fault)) => fault,
        Err(other) => panic!("unexpected error {other:?}"),
        Ok(parsed) => panic!("unexpected bytes {:?}", parsed.bytes),
    }
}

#[test]
fn reads_the_bytes_of_a_png_data_url() {
    let parsed = parse_data_url("data:image/png;base64,aGVsbG8gd29ybGQ=").unwrap();
    assert_eq!(parsed.bytes, b"hello world".to_vec());
    let parsed = parse_data_url("data:image/webp;base64,AAEC/f7/").unwrap();
    assert_eq!(parsed.bytes, vec![0, 1, 2, 253, 254, 255]);
    let parsed = parse_data_url("data:image/jpeg;base64,").unwrap();
    assert_eq!(parsed.bytes, Vec::<u8>::new());
    assert!(parse_data_url("data:image/jpg;base64,QQ==").is_ok());
}

#[test]
fn string_without_the_prefix_is_refused() {
    assert_eq!(fault_of("image/png;base64,aGVsbG8="), DataUrlFault::MissingPrefix);
    assert_eq!(fault_of(""), DataUrlFault::MissingPrefix);
    assert_eq!(fault_of("Data:image/png;base64,aGVsbG8="), DataUrlFault::MissingPrefix);
    assert_eq!(fault_of(" data:image/png;base64,aGVsbG8="), DataUrlFault::MissingPrefix);
    assert_eq!(fault_of("dat,a:image/png;base64,aGVsbG8="), DataUrlFault::MissingPrefix);
    assert_eq!(fault_of("https://example.org/a.png"), DataUrlFault::MissingPrefix);
}

#[test]
fn string_without_a_comma_is_refused() {
    assert_eq!(fault_of("data:image/png;base64"), DataUrlFault::MissingSeparator);
    assert_eq!(fault_of("data:"), DataUrlFault::MissingSeparator);
}

#[test]
fn metadata_without_the_base64_marker_is_refused() {
    assert_eq!(fault_of("data:image/png,aGVsbG8="), DataUrlFault::NotBase64);
    assert_eq!(fault_of("data:image/png;base6,4aGVsbG8="), DataUrlFault::NotBase64);
    assert_eq!(fault_of("data:text/plain;charset=utf-8,hello"), DataUrlFault::NotBase64);
}

#[test]
fn unsupported_mime_type_is_refused_and_named() {
    assert_eq!(
        fault_of("data:image/gif;base64,aGVsbG8="),
        DataUrlFault::UnsupportedMime("image/gif".to_string())
    );
    assert_eq!(
        fault_of("data:;base64,aGVsbG8="),
        DataUrlFault::UnsupportedMime(String::new())
    );
    assert_eq!(
        fault_of("data:IMAGE/PNG;base64,aGVsbG8="),
        DataUrlFault::UnsupportedMime("IMAGE/PNG".to_string())
    );
    assert_eq!(
        fault_of("data:text/plain;base64,aGVsbG8="),
        DataUrlFault::UnsupportedMime("text/plain".to_string())
    );
    let error = parse_data_url("data:image/gif;base64,aGVsbG8=").err().unwrap();
    assert_eq!(
        error.message(),
        "unsupported image mime type: image/gif. allowed: png/jpeg/webp"
    );
}

#[test]
fn payload_that_is_not_base64_is_refused() {
    assert!(refused_payload("data:image/png;base64,not base64!"));
    assert!(refused_payload("data:image/png;base64,aGVsbG8"));
    assert!(refused_payload("data:image/png;base64,aGVsbG9="));
    assert!(refused_payload("data:image/png;base64,aGVs\nbG8="));
    assert!(refused_payload("data:image/png;base64,aGVsbG8=,"));
}

#[test]
fn checks_come_in_order() {
    assert_eq!(fault_of("image/gif"), DataUrlFault::MissingPrefix);
    assert_eq!(fault_of("data:image/gif"), DataUrlFault::MissingSeparator);
    assert_eq!(fault_of("data:image/gif,###"), DataUrlFault::NotBase64);
    assert_eq!(
        fault_of("data:image/gif;base64,###"),
        DataUrlFault::UnsupportedMime("image/gif".to_string())
    );
    assert!(refused_payload("data:image/png;base64,###"));
}

#[test]
fn payload_is_trimmed_before_it_is_decoded() {
    let parsed = parse_data_url("data:image/png;base64, \t\r\naGVsbG8=\n ").unwrap();
    assert_eq!(parsed.bytes, b"hello".to_vec());
    let parsed = parse_data_url("data:image/png;base64,\u{a0}\u{2003}aGVsbG8=\u{3000}\u{85}").unwrap();
    assert_eq!(parsed.bytes, b"hello".to_vec());
    let parsed = parse_data_url("data:image/png;base64,   ").unwrap();
    assert!(parsed.bytes.is_empty());
    assert!(refused_payload("data:image/png;base64,\u{200b}aGVsbG8="));
}

#[test]
fn metadata_may_hold_more_than_mime_type_and_marker() {
    let parsed = parse_data_url("data:image/png;charset=utf-8;base64,aGVsbG8=").unwrap();
    assert_eq!(parsed.bytes, b"hello".to_vec());
    let parsed = parse_data_url("data:image/png;base64;base64,aGVsbG8=").unwrap();
    assert_eq!(parsed.bytes, b"hello".to_vec());
    assert_eq!(
        fault_of("data:image/png ;base64,aGVsbG8="),
        DataUrlFault::UnsupportedMime("image/png ".to_string())
    );
}

#[test]
fn prefix_counts_once() {
    assert_eq!(
        fault_of("data:data:image/png;base64,AAAA"),
        DataUrlFault::UnsupportedMime("data:image/png".to_string())
    );
    assert_eq!(
        fault_of("data:data:data:image/png;base64,aGVsbG8="),
        DataUrlFault::UnsupportedMime("data:data:image/png".to_string())
    );
    assert_eq!(
        fault_of("data:data:;base64,aGVsbG8="),
        DataUrlFault::UnsupportedMime("data:".to_string())
    );
}

#[test]
fn refused_payloads_say_why() {
    let message = |url: &str| parse_data_url(url).err().unwrap().message();
    assert_eq!(message("data:image/png;base64,aGVsbG8"), "base64 decode error: Invalid padding");
    assert_eq!(
        message("data:image/png;base64,aGVsbG9="),
        "base64 decode error: Invalid last symbol 57, offset 6."
    );
    assert_eq!(
        message("data:image/png;base64,a#Vs"),
        "base64 decode error: Invalid symbol 35, offset 1."
    );
}

#[test]
fn validation_agrees_with_parsing() {
    assert_eq!(validate_data_url("data:image/png;base64,aGVsbG8="), Ok(()));
    assert_eq!(
        validate_data_url("hello"),
        Err(AppError::InvalidDataUrl(DataUrlFault::MissingPrefix))
    );
    assert!(matches!(
        validate_data_url("data:image/png;base64,%%%"),
        Err(AppError::InvalidDataUrl(DataUrlFault::InvalidPayload(_)))
    ));
}

#[test]
fn extensions_stand_for_mime_types() {
    assert_eq!(mime_for_extension(Some("jpg")), "image/jpeg");
    assert_eq!(mime_for_extension(Some("jpeg")), "image/jpeg");
    assert_eq!(mime_for_extension(Some("webp")), "image/webp");
    assert_eq!(mime_for_extension(Some("png")), "image/png");
    assert_eq!(mime_for_extension(Some("gif")), "image/png");
    assert_eq!(mime_for_extension(Some("JPG")), "image/png");
    assert_eq!(mime_for_extension(Some("")), "image/png");
    assert_eq!(mime_for_extension(None), "image/png");
}

#[test]
fn writes_data_urls() {
    assert_eq!(
        encode_data_url(b"hello world", Some("png")),
        "data:image/png;base64,aGVsbG8gd29ybGQ="
    );
    assert_eq!(encode_data_url(&[0, 1, 2, 253, 254, 255], Some("jpg")), "data:image/jpeg;base64,AAEC/f7/");
    assert_eq!(encode_data_url(b"a", Some("webp")), "data:image/webp;base64,YQ==");
    assert_eq!(encode_data_url(b"", None), "data:image/png;base64,");
}

#[test]
fn png_data_urls_are_written_back_letter_for_letter() {
    for url in [
        "data:image/png;base64,aGVsbG8gd29ybGQ=",
        "data:image/png;base64,",
        "data:image/png;base64,AAEC/f7/",
        "data:image/png;base64,/w==",
    ] {
        let parsed = parse_data_url(url).unwrap();
        assert_eq!(encode_data_url(&parsed.bytes, Some("png")), url);
    }
    let bytes: Vec<u8> = (0..=255u8).collect();
    let url = encode_data_url(&bytes, Some("png"));
    assert_eq!(parse_data_url(&url).unwrap().bytes, bytes);
    // a payload with whitespace around it is read, but written back without
    let parsed = parse_data_url("data:image/png;base64, aGVsbG8=").unwrap();
    assert_eq!(encode_data_url(&parsed.bytes, Some("png")), "data:image/png;base64,aGVsbG8=");
}

#[test]
fn errors_have_their_texts() {
    assert_eq!(AppError::msg("rows is required").message(), "rows is required");
    assert_eq!(AppError::msg("x"), AppError::Message("x".to_string()));
    assert_eq!(
        AppError::InvalidDataUrl(DataUrlFault::MissingPrefix).message(),
        "expected a data URL with image payload"
    );
    assert_eq!(
        AppError::InvalidDataUrl(DataUrlFault::MissingSeparator).message(),
        "invalid data URL format"
    );
    assert_eq!(
        AppError::InvalidDataUrl(DataUrlFault::NotBase64).message(),
        "data URL must be base64 encoded"
    );
    assert_eq!(
        AppError::InvalidDataUrl(DataUrlFault::InvalidPayload("why".to_string())).message(),
        "base64 decode error: why"
    );
    assert_eq!(
        AppError::Decode("why".to_string()).message(),
        "image decode/encode error: why"
    );
}
