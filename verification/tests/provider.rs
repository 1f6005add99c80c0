use sprite_pipeline::error::AppError;
use sprite_pipeline::json::{get_either, get_in, Json};
use sprite_pipeline::models::Resolution;
use sprite_pipeline::openrouter::{
    build_payload, ContentPart, GenerateImageRequest, OpenRouterConfig, DEFAULT_MODEL,
};
use sprite_pipeline::response::{
    collect_reasoning_text_snippets, extract_completion_metadata, extract_image_data_urls,
    extract_reasoning_details_text, extract_text, parse_openrouter_http_error, read_response,
    sanitize_payload, to_string_value, OMITTED_IMAGE,
};

fn text(value: &str) -> Json {
    Json::Text(value.to_string())
}

fn object(members: Vec<(&str, Json)>) -> Json {
    Json::Object(members.into_iter().map(|(key, value)| (key.to_string(), value)).collect())
}

fn response_with_message(message: Json) -> Json {
    object(vec![("choices", Json::Array(vec![object(vec![("message", message)])]))])
}

fn some(value: &str) -> Option<String> {
    Some(value.to_string())
}

#[test]
fn configuration_drops_blank_values() {
    let config = OpenRouterConfig::from_values(some(" key "), some(" "), None, some(""));
    assert_eq!(config.api_key, some(" key "));
    assert_eq!(config.model, DEFAULT_MODEL);
    assert_eq!(config.model, "google/gemini-3-pro-image-preview");
    assert_eq!(config.referer, None);
    assert_eq!(config.title, None);
    assert_eq!(config.require_api_key(), Ok(" key "));
    let config = OpenRouterConfig::from_values(some("\n"), some("my/model"), some("ref"), some("t"));
    assert_eq!(config.api_key, None);
    assert_eq!(config.model, "my/model");
    assert_eq!(config.referer, some("ref"));
    assert_eq!(config.title, some("t"));
    assert_eq!(
        config.require_api_key(),
        Err(AppError::msg("OPENROUTER_API_KEY is missing. Add it to apps/desktop/.env"))
    );
}

#[test]
fn payload_holds_one_message_of_the_user() {
    let request = GenerateImageRequest {
        prompt: "draw".to_string(),
        image_data_url: None,
        aspect_ratio: some("4:3"),
        resolution: Resolution::TwoK,
    };
    let payload = build_payload("some/model", &request);
    assert_eq!(payload.model, "some/model");
    assert_eq!(payload.modalities, vec!["image", "text"]);
    assert_eq!(payload.messages.len(), 1);
    assert_eq!(payload.messages[0].role, "user");
    assert_eq!(payload.messages[0].content.len(), 1);
    assert!(matches!(&payload.messages[0].content[0], ContentPart::Text { text } if text == "draw"));
    let config = payload.image_config.unwrap();
    assert_eq!(config.image_size, "2K");
    assert_eq!(config.aspect_ratio, some("4:3"));

    let with_image = GenerateImageRequest {
        prompt: "edit".to_string(),
        image_data_url: some("data:image/png;base64,AAAA"),
        aspect_ratio: None,
        resolution: Resolution::FourK,
    };
    let payload = build_payload("m", &with_image);
    assert_eq!(payload.messages[0].content.len(), 2);
    assert!(matches!(&payload.messages[0].content[0], ContentPart::Text { text } if text == "edit"));
    assert!(matches!(
        &payload.messages[0].content[1],
        ContentPart::ImageUrl { image_url } if image_url.url == "data:image/png;base64,AAAA"
    ));
    let config = payload.image_config.unwrap();
    assert_eq!(config.image_size, "4K");
    assert_eq!(config.aspect_ratio, None);
}

#[test]
fn members_and_items_are_found() {
    let value = object(vec![("a", text("1")), ("b", Json::Bool(true)), ("a", text("2"))]);
    assert_eq!(value.get("a"), Some(&text("1")));
    assert_eq!(value.get("b"), Some(&Json::Bool(true)));
    assert_eq!(value.get("c"), None);
    assert_eq!(text("x").get("a"), None);
    assert_eq!(Json::Array(vec![text("x")]).get("0"), None);
    assert_eq!(Json::Array(vec![text("x"), text("y")]).get_first(), Some(&text("x")));
    assert_eq!(Json::Array(Vec::new()).get_first(), None);
    assert_eq!(object(vec![("0", text("zero"))]).get_first(), Some(&text("zero")));
    assert_eq!(object(vec![("1", text("one"))]).get_first(), None);
    assert_eq!(Json::Null.get_first(), None);
    assert_eq!(text("x").as_str(), Some("x"));
    assert_eq!(Json::Number("1".to_string()).as_str(), None);
    assert_eq!(Json::Array(vec![Json::Null]).as_array(), Some(&vec![Json::Null]));
    assert_eq!(Json::Null.as_array(), None);
    assert_eq!(get_in(Some(&value), "b"), Some(&Json::Bool(true)));
    assert_eq!(get_in(None, "b"), None);
    assert_eq!(get_either(&value, "z", "b"), Some(&Json::Bool(true)));
    assert_eq!(get_either(&value, "a", "b"), Some(&text("1")));
    assert_eq!(get_either(&value, "y", "z"), None);
}

#[test]
fn text_is_read_from_the_content() {
    assert_eq!(
        extract_text(&response_with_message(object(vec![("content", text(" hello "))]))),
        some(" hello ")
    );
    assert_eq!(extract_text(&response_with_message(object(vec![("content", text("  "))]))), None);
    let parts = Json::Array(vec![
        object(vec![("type", text("text")), ("text", text("one"))]),
        object(vec![("type", text("image_url"))]),
        object(vec![("text", Json::Number("3".to_string()))]),
        text("loose"),
        object(vec![("text", text("two"))]),
    ]);
    assert_eq!(
        extract_text(&response_with_message(object(vec![("content", parts)]))),
        some("one\ntwo")
    );
    let blank_parts = Json::Array(vec![object(vec![("text", text(" "))]), object(vec![("text", text(""))])]);
    assert_eq!(extract_text(&response_with_message(object(vec![("content", blank_parts)]))), None);
    assert_eq!(extract_text(&response_with_message(object(vec![("content", Json::Null)]))), None);
    assert_eq!(extract_text(&response_with_message(object(Vec::new()))), None);
    assert_eq!(extract_text(&object(Vec::new())), None);
    assert_eq!(extract_text(&object(vec![("choices", Json::Array(Vec::new()))])), None);
    assert_eq!(extract_text(&Json::Null), None);
    // the reference token 0 also names the member "0" of an object
    let by_key = object(vec![(
        "choices",
        object(vec![("0", object(vec![("message", object(vec![("content", text("keyed"))]))]))]),
    )]);
    assert_eq!(extract_text(&by_key), some("keyed"));
}

#[test]
fn images_are_read_from_the_list_of_images() {
    let images = Json::Array(vec![
        text("data:image/png;base64,AAA"),
        text("https://example.org/a.png"),
        object(vec![("url", text("data:image/png;base64,BBB"))]),
        object(vec![("data", text("data:image/jpeg;base64,CCC"))]),
        object(vec![("url", Json::Null), ("data", text("data:image/jpeg;base64,skipped"))]),
        object(vec![("image_url", object(vec![("url", text("data:image/webp;base64,DDD"))]))]),
        object(vec![("imageUrl", object(vec![("url", text("data:image/webp;base64,EEE"))]))]),
        object(vec![
            ("url", text("data:image/png;base64,FFF")),
            ("image_url", object(vec![("url", text("data:image/png;base64,GGG"))])),
        ]),
        Json::Number("4".to_string()),
        object(vec![("url", text("data:text/plain;base64,HHH"))]),
    ]);
    let response = response_with_message(object(vec![
        ("images", images),
        ("content", Json::Array(vec![object(vec![("url", text("data:image/png;base64,unused"))])])),
    ]));
    assert_eq!(
        extract_image_data_urls(&response),
        vec![
            "data:image/png;base64,AAA",
            "data:image/png;base64,BBB",
            "data:image/jpeg;base64,CCC",
            "data:image/webp;base64,DDD",
            "data:image/webp;base64,EEE",
            "data:image/png;base64,FFF",
            "data:image/png;base64,GGG",
        ]
    );
}

#[test]
fn images_are_read_from_the_content_where_the_list_gives_none() {
    let content = Json::Array(vec![
        object(vec![("url", text("data:image/png;base64,AAA"))]),
        object(vec![("image_url", text("data:image/png;base64,BBB"))]),
        object(vec![("image_url", object(vec![("url", text("data:image/png;base64,CCC"))]))]),
        object(vec![("imageUrl", object(vec![("url", text("data:image/png;base64,DDD"))]))]),
        object(vec![("text", text("data:image/png;base64,not-a-link"))]),
        text("data:image/png;base64,loose"),
    ]);
    let response = response_with_message(object(vec![
        ("images", Json::Array(vec![text("https://example.org/x.png")])),
        ("content", content),
    ]));
    assert_eq!(
        extract_image_data_urls(&response),
        vec![
            "data:image/png;base64,AAA",
            "data:image/png;base64,BBB",
            "data:image/png;base64,CCC",
            "data:image/png;base64,DDD",
        ]
    );
    assert!(extract_image_data_urls(&response_with_message(object(Vec::new()))).is_empty());
    assert!(extract_image_data_urls(&response_with_message(object(vec![("content", text("x"))]))).is_empty());
    assert!(extract_image_data_urls(&Json::Null).is_empty());
}

#[test]
fn fields_of_the_message_are_written_out() {
    assert_eq!(to_string_value(&Json::Null, "null"), None);
    assert_eq!(to_string_value(&text("  no  "), "\"  no  \""), some("no"));
    assert_eq!(to_string_value(&text("  "), "\"  \""), None);
    assert_eq!(to_string_value(&Json::Bool(true), "true"), some("true"));
    assert_eq!(to_string_value(&object(Vec::new()), "{}"), some("{}"));
    assert_eq!(to_string_value(&Json::Number("1.5".to_string()), "1.5"), some("1.5"));
}

#[test]
fn reasoning_snippets_are_gathered_in_order() {
    let details = Json::Array(vec![
        object(vec![("type", text("reasoning.text")), ("text", text(" first "))]),
        object(vec![
            ("inner", Json::Array(vec![object(vec![("text", text("nested"))])])),
            ("text", text("own")),
            ("more", object(vec![("text", text("deep")), ("text2", text("ignored"))])),
            ("note", text("not a container")),
        ]),
        text("loose"),
        object(vec![("text", text("   "))]),
        object(vec![("text", object(vec![("text", text("under text"))]))]),
    ]);
    let mut found = vec!["before".to_string()];
    collect_reasoning_text_snippets(&details, &mut found);
    assert_eq!(found, vec!["before", "first", "own", "nested", "deep"]);
    assert_eq!(
        extract_reasoning_details_text(&details),
        some("first\n\nown\n\nnested\n\ndeep")
    );
    assert_eq!(extract_reasoning_details_text(&Json::Null), None);
    assert_eq!(extract_reasoning_details_text(&text(" plain ")), some("plain"));
    assert_eq!(extract_reasoning_details_text(&text(" ")), None);
    assert_eq!(extract_reasoning_details_text(&Json::Array(Vec::new())), None);
    assert_eq!(extract_reasoning_details_text(&Json::Bool(false)), None);
    assert_eq!(
        extract_reasoning_details_text(&object(vec![("text", text("single"))])),
        some("single")
    );
}

#[test]
fn completion_metadata_is_read_where_there_is_any() {
    let response = object(vec![(
        "choices",
        Json::Array(vec![object(vec![
            ("finish_reason", text("stop")),
            (
                "message",
                object(vec![
                    ("refusal", Json::Null),
                    ("reasoning", text("  thought  ")),
                    ("reasoningDetails", Json::Array(vec![object(vec![("text", text("step"))])])),
                ]),
            ),
        ])]),
    )]);
    let metadata = extract_completion_metadata(&response, "null", "\"  thought  \"").unwrap();
    assert_eq!(metadata.finish_reason, some("stop"));
    assert_eq!(metadata.refusal, None);
    assert_eq!(metadata.reasoning, some("thought"));
    assert_eq!(metadata.reasoning_details, some("step"));

    let refused = response_with_message(object(vec![
        ("refusal", object(vec![("code", Json::Number("7".to_string()))])),
        ("reasoning_details", text(" because ")),
        ("reasoningDetails", text("unused")),
    ]));
    let metadata = extract_completion_metadata(&refused, "{\n  \"code\": 7\n}", "").unwrap();
    assert_eq!(metadata.finish_reason, None);
    assert_eq!(metadata.refusal, some("{\n  \"code\": 7\n}"));
    assert_eq!(metadata.reasoning, None);
    assert_eq!(metadata.reasoning_details, some("because"));

    assert!(extract_completion_metadata(&response_with_message(object(Vec::new())), "", "").is_none());
    assert!(extract_completion_metadata(&Json::Null, "x", "y").is_none());
    let empty_reason = object(vec![(
        "choices",
        Json::Array(vec![object(vec![("finish_reason", text(""))])]),
    )]);
    assert_eq!(
        extract_completion_metadata(&empty_reason, "", "").unwrap().finish_reason,
        some("")
    );
}

#[test]
fn image_data_is_left_out_of_what_is_kept() {
    let payload = object(vec![
        ("model", text("m")),
        ("n", Json::Number("2".to_string())),
        ("flag", Json::Bool(false)),
        ("nothing", Json::Null),
        (
            "messages",
            Json::Array(vec![object(vec![(
                "content",
                Json::Array(vec![
                    object(vec![("type", text("text")), ("text", text("draw data:image"))]),
                    object(vec![("image_url", object(vec![("url", text("data:image/png;base64,AAAA"))]))]),
                    text("data:imagexyz"),
                    text("data:text/plain;base64,AAAA"),
                ]),
            )])]),
        ),
    ]);
    let expected = object(vec![
        ("model", text("m")),
        ("n", Json::Number("2".to_string())),
        ("flag", Json::Bool(false)),
        ("nothing", Json::Null),
        (
            "messages",
            Json::Array(vec![object(vec![(
                "content",
                Json::Array(vec![
                    object(vec![("type", text("text")), ("text", text("draw data:image"))]),
                    object(vec![("image_url", object(vec![("url", text("[omitted image data URL]"))]))]),
                    text("[omitted image data URL]"),
                    text("data:text/plain;base64,AAAA"),
                ]),
            )])]),
        ),
    ]);
    assert_eq!(sanitize_payload(&payload), expected);
    assert_eq!(OMITTED_IMAGE, "[omitted image data URL]");
    assert_eq!(sanitize_payload(&expected), expected);
    assert_eq!(sanitize_payload(&text("data:image")), text("[omitted image data URL]"));
}

#[test]
fn failed_requests_are_reported_with_what_the_body_says() {
    let report = |parsed: Option<Json>, body: &str| {
        match parse_openrouter_http_error("402 Payment Required", body, parsed.as_ref()) {
            AppError::Message(text) => text,
            other => panic!("unexpected error {other:?}"),
        }
    };
    let nested = object(vec![
        ("error", object(vec![("message", text("no credits")), ("metadata", text("meta"))])),
        ("message", text("outer")),
    ]);
    assert_eq!(
        report(Some(nested), "{...}"),
        "OpenRouter request failed (402 Payment Required): no credits"
    );
    let metadata = object(vec![("error", object(vec![("metadata", text("meta"))]))]);
    assert_eq!(report(Some(metadata), "{...}"), "OpenRouter request failed (402 Payment Required): meta");
    let odd = object(vec![
        ("error", object(vec![("message", Json::Number("5".to_string())), ("metadata", text("meta"))])),
        ("message", text("outer")),
    ]);
    assert_eq!(report(Some(odd), "{...}"), "OpenRouter request failed (402 Payment Required): outer");
    let outer = object(vec![("message", text("outer"))]);
    assert_eq!(report(Some(outer), "{...}"), "OpenRouter request failed (402 Payment Required): outer");
    assert_eq!(
        report(Some(object(Vec::new())), "{}"),
        "OpenRouter request failed (402 Payment Required): {}"
    );
    assert_eq!(
        report(None, "<html>bad gateway</html>"),
        "OpenRouter request failed (402 Payment Required): <html>bad gateway</html>"
    );
}

#[test]
fn answers_are_read_as_a_whole() {
    let response = object(vec![
        ("model", text("answering/model")),
        (
            "choices",
            Json::Array(vec![object(vec![
                ("finish_reason", text("stop")),
                (
                    "message",
                    object(vec![
                        ("content", text("here you go")),
                        ("images", Json::Array(vec![text("data:image/png;base64,AAA")])),
                    ]),
                ),
            ])]),
        ),
    ]);
    let read = read_response(&response, "configured/model", text("kept"), "", "");
    assert_eq!(read.model, "answering/model");
    assert_eq!(read.text, some("here you go"));
    assert_eq!(read.image_data_urls, vec!["data:image/png;base64,AAA"]);
    assert_eq!(read.sanitized_payload, text("kept"));
    assert_eq!(read.completion.unwrap().finish_reason, some("stop"));
    let bare = read_response(&object(Vec::new()), "configured/model", Json::Null, "", "");
    assert_eq!(bare.model, "configured/model");
    assert_eq!(bare.text, None);
    assert!(bare.image_data_urls.is_empty());
    assert!(bare.completion.is_none());
    let odd = read_response(&object(vec![("model", Json::Null)]), "configured/model", Json::Null, "", "");
    assert_eq!(odd.model, "configured/model");
}
