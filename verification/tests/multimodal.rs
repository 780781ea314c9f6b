use prompt_cache::json::Value;
use prompt_cache::media::{LoadedMedia, MultimodalError};
use prompt_cache::multimodal::{
    document_bytes_to_text, finish_decoded_document, finish_document, normalize_block,
    normalize_document_block, normalize_image_block, normalize_multimodal_sources, set_image,
    truncate_chars, BlockStep, DocumentText, Progress, Reply, MAX_DOCUMENT_TEXT_CHARS,
};
use prompt_cache::types::{Message, MessagesRequest};

fn text(s: &str) -> Value {
    Value::String(s.to_string())
}

fn object(members: Vec<(&str, Value)>) -> Value {
    Value::Object(members.into_iter().map(|(k, v)| (k.to_string(), v)).collect())
}

fn message(content: Value) -> Message {
    Message { role: "user".to_string(), content, cache_control: None }
}

fn request(messages: Vec<Message>) -> MessagesRequest {
    MessagesRequest { model: "opus-4-8".to_string(), messages, system: None, tools: None }
}

fn image(url: &str) -> Value {
    object(vec![
        ("type", text("image")),
        ("source", object(vec![("type", text("url")), ("url", text(url)), ("extra", Value::Null)])),
    ])
}

fn document(media_type: &str, data: &str) -> Value {
    object(vec![
        ("type", text("document")),
        ("title", text("sample.txt")),
        (
            "source",
            object(vec![
                ("type", text("base64")),
                ("media_type", text(media_type)),
                ("data", text(data)),
            ]),
        ),
    ])
}

fn linked_document(url: &str) -> Value {
    object(vec![
        ("type", text("document")),
        ("source", object(vec![("type", text("url")), ("url", text(url))])),
    ])
}

fn media(media_type: &str, bytes: &[u8]) -> LoadedMedia {
    LoadedMedia { media_type: media_type.to_string(), bytes: bytes.to_vec() }
}

fn part(req: &MessagesRequest, m: usize, b: usize) -> &Value {
    match &req.messages[m].content {
        Value::Array(parts) => &parts[b],
        _ => panic!("no array"),
    }
}

fn message_of<T>(result: Result<T, MultimodalError>) -> String {
    match result {
        Ok(_) => panic!("no error"),
        Err(error) => error.to_string(),
    }
}

#[test]
fn test_normalize_data_url_image_source_to_base64() {
    let mut payload = request(vec![message(Value::Array(vec![object(vec![
        ("type", text("image")),
        (
            "source",
            object(vec![
                ("type", text("url")),
                ("url", text("data:image/png;base64,aGVsbG8=")),
            ]),
        ),
    ])]))]);

    let progress = normalize_multimodal_sources(&mut payload, 0, Reply::Start).unwrap();
    assert!(matches!(progress, Progress::Finished));

    let source = part(&payload, 0, 0).get("source").unwrap();
    assert_eq!(source.get_str("type"), Some("base64"));
    assert_eq!(source.get_str("media_type"), Some("image/png"));
    assert_eq!(source.get_str("data"), Some("aGVsbG8="));
}

#[test]
fn test_normalize_plain_text_document_to_text_block() {
    let mut payload = request(vec![message(Value::Array(vec![object(vec![
        ("type", text("document")),
        ("title", text("sample.txt")),
        (
            "source",
            object(vec![
                ("type", text("base64")),
                ("media_type", text("text/plain")),
                ("data", text("SGVsbG8gZnJvbSBkb2N1bWVudA==")),
            ]),
        ),
    ])]))]);

    let progress = normalize_multimodal_sources(&mut payload, 0, Reply::Start).unwrap();
    assert!(matches!(progress, Progress::Finished));

    let block = part(&payload, 0, 0);
    assert_eq!(block.get_str("type"), Some("text"));
    assert!(block.get_str("text").unwrap().contains("Hello from document"));
    assert_eq!(
        block.get_str("text"),
        Some("<document title=\"sample.txt\" media_type=\"text/plain\">\nHello from document\n</document>")
    );
}

#[test]
fn an_image_keeps_its_other_members() {
    let mut block = image("data:image/png;base64,aGVsbG8=");
    assert!(matches!(normalize_image_block(&mut block, Reply::Start), Ok(BlockStep::Done)));
    assert_eq!(
        block,
        object(vec![
            ("type", text("image")),
            (
                "source",
                object(vec![
                    ("type", text("base64")),
                    ("extra", Value::Null),
                    ("media_type", text("image/png")),
                    ("data", text("aGVsbG8=")),
                ])
            ),
        ])
    );
}

#[test]
fn a_normalised_block_stays_as_it_is() {
    for mut block in [
        image("data:image/png;base64,aGVsbG8="),
        document("text/plain", "aGVsbG8="),
        document("application/zip", "aGVsbG8="),
        object(vec![("type", text("text"))]),
    ] {
        assert!(matches!(normalize_block(&mut block, Reply::Start), Ok(BlockStep::Done)));
        let first = format!("{block:?}");
        assert!(matches!(normalize_block(&mut block, Reply::Start), Ok(BlockStep::Done)));
        assert_eq!(format!("{block:?}"), first);
    }
}

#[test]
fn images_without_a_url_source_are_left_alone() {
    let others = [
        object(vec![("type", text("image"))]),
        object(vec![("type", text("image")), ("source", text("x"))]),
        object(vec![("type", text("image")), ("source", object(vec![]))]),
        object(vec![("type", text("image")), ("source", object(vec![("type", text("base64"))]))]),
        object(vec![("type", text("image")), ("source", object(vec![("type", text("file"))]))]),
    ];
    for mut block in others {
        let before = format!("{block:?}");
        assert!(matches!(normalize_block(&mut block, Reply::Start), Ok(BlockStep::Done)));
        assert_eq!(format!("{block:?}"), before);
    }
}

#[test]
fn sources_without_their_content_are_refused() {
    let source = |kind: &str| object(vec![("type", text(kind))]);
    let block = |kind: &str, source: Value| object(vec![("type", text(kind)), ("source", source)]);
    assert_eq!(
        message_of(normalize_block(&mut block("image", source("url")), Reply::Start)),
        "image source.url is required"
    );
    assert_eq!(
        message_of(normalize_block(&mut block("document", source("url")), Reply::Start)),
        "document source.url is required"
    );
    assert_eq!(
        message_of(normalize_block(&mut block("document", source("base64")), Reply::Start)),
        "document source.data is required"
    );
}

#[test]
fn an_image_of_another_type_is_refused() {
    let mut block = image("data:text/plain;base64,aGVsbG8=");
    assert_eq!(
        message_of(normalize_image_block(&mut block, Reply::Start)),
        "expected image/* data URL, got text/plain"
    );
    assert_eq!(block, image("data:text/plain;base64,aGVsbG8="));
}

#[test]
fn a_downloaded_image_is_put_in() {
    let mut block = image("https://example.com/a.png");
    match normalize_block(&mut block, Reply::Start) {
        Ok(BlockStep::Download { url, expected_prefix }) => {
            assert_eq!(url, "https://example.com/a.png");
            assert_eq!(expected_prefix, Some("image".to_string()));
        }
        other => panic!("{other:?}"),
    }
    let reply = Reply::Media(Ok(media("image/png", &[0, 255, 254])));
    assert!(matches!(normalize_block(&mut block, reply), Ok(BlockStep::Done)));
    let source = block.get("source").unwrap();
    assert_eq!(source.get_str("data"), Some("AP/+"));
    assert_eq!(source.get_str("media_type"), Some("image/png"));
    assert_eq!(source.get("url"), None);

    let mut block = image("https://example.com/a.png");
    let reply = Reply::Media(Err(MultimodalError::new("down".to_string())));
    assert_eq!(message_of(normalize_block(&mut block, reply)), "down");
}

#[test]
fn media_is_put_into_an_object_source_only() {
    let mut block = object(vec![("source", text("x"))]);
    set_image(&mut block, media("image/png", b"a"));
    assert_eq!(block, object(vec![("source", text("x"))]));
    let mut block = Value::Null;
    set_image(&mut block, media("image/png", b"a"));
    assert_eq!(block, Value::Null);
}

#[test]
fn documents_of_text_types_become_text() {
    for kind in ["text/plain", "text/markdown", "text/csv", "application/json"] {
        match document_bytes_to_text(kind, "häh".as_bytes().to_vec()) {
            Ok(DocumentText::Text(t)) => assert_eq!(t, "häh"),
            other => panic!("{other:?}"),
        }
    }
    match document_bytes_to_text("application/pdf", vec![1, 2]) {
        Ok(DocumentText::ExtractPdf(bytes)) => assert_eq!(bytes, vec![1, 2]),
        other => panic!("{other:?}"),
    }
    assert!(matches!(document_bytes_to_text("image/png", vec![1]), Ok(DocumentText::Keep)));
    assert!(matches!(document_bytes_to_text("TEXT/PLAIN", vec![1]), Ok(DocumentText::Keep)));
}

#[test]
fn text_that_is_not_utf8_is_refused() {
    assert_eq!(
        message_of(document_bytes_to_text("text/plain", vec![b'a', 0xff])),
        "document is not valid UTF-8: invalid utf-8 sequence of 1 bytes from index 1"
    );
    let mut block = document("text/csv", "/w==");
    assert!(message_of(normalize_block(&mut block, Reply::Start))
        .starts_with("document is not valid UTF-8: "));
    assert_eq!(block, document("text/csv", "/w=="));
}

#[test]
fn documents_of_unknown_types_are_kept() {
    let mut block = document("application/zip", "aGVsbG8=");
    assert!(matches!(normalize_document_block(&mut block, Reply::Start), Ok(BlockStep::Done)));
    assert_eq!(block, document("application/zip", "aGVsbG8="));
    let untyped = || {
        object(vec![
            ("type", text("document")),
            ("source", object(vec![("type", text("base64")), ("data", text("aGVsbG8="))])),
        ])
    };
    let mut block = untyped();
    assert!(matches!(normalize_document_block(&mut block, Reply::Start), Ok(BlockStep::Done)));
    assert_eq!(block, untyped());
}

#[test]
fn broken_document_data_is_refused() {
    let mut block = document("text/plain", "***");
    assert!(message_of(normalize_block(&mut block, Reply::Start))
        .starts_with("invalid document base64 data: "));
    let mut block = document("text/plain", "");
    let decoded = Err("why".to_string());
    assert_eq!(
        message_of(finish_decoded_document(&mut block, "text/plain".to_string(), decoded)),
        "invalid document base64 data: why"
    );
}

#[test]
fn a_decoded_document_becomes_text() {
    let mut block = document("text/plain", "");
    let decoded = Ok(b"abc".to_vec());
    assert!(matches!(
        finish_decoded_document(&mut block, "text/csv".to_string(), decoded),
        Ok(BlockStep::Done)
    ));
    assert_eq!(
        block.get_str("text"),
        Some("<document title=\"sample.txt\" media_type=\"text/csv\">\nabc\n</document>")
    );
    let mut block = linked_document("https://example.com/x");
    assert!(matches!(
        finish_document(&mut block, media("text/plain", b"abc")),
        Ok(BlockStep::Done)
    ));
    assert_eq!(
        block.get_str("text"),
        Some("<document title=\"document\" media_type=\"text/plain\">\nabc\n</document>")
    );
}

#[test]
fn a_document_behind_a_data_url_becomes_text() {
    let mut block = linked_document("data:text/markdown;base64,IyBUaXRsZQ==");
    assert!(matches!(normalize_block(&mut block, Reply::Start), Ok(BlockStep::Done)));
    assert_eq!(
        block,
        object(vec![
            ("type", text("text")),
            (
                "text",
                text("<document title=\"document\" media_type=\"text/markdown\">\n# Title\n</document>")
            ),
        ])
    );
}

#[test]
fn the_text_of_a_pdf_is_asked_for() {
    let mut block = document("application/pdf", "JVBERg==");
    match normalize_block(&mut block, Reply::Start) {
        Ok(BlockStep::ExtractPdf { media_type, bytes }) => {
            assert_eq!(media_type, "application/pdf");
            assert_eq!(bytes, b"%PDF");
        }
        other => panic!("{other:?}"),
    }
    assert_eq!(block, document("application/pdf", "JVBERg=="));
    let reply = Reply::PdfText {
        media_type: "application/pdf".to_string(),
        text: Err("broken".to_string()),
    };
    assert_eq!(
        message_of(normalize_block(&mut block, reply)),
        "failed to extract PDF text: broken"
    );
    let reply = Reply::PdfText {
        media_type: "application/pdf".to_string(),
        text: Ok("page".to_string()),
    };
    assert!(matches!(normalize_block(&mut block, reply), Ok(BlockStep::Done)));
    assert_eq!(
        block.get_str("text"),
        Some("<document title=\"sample.txt\" media_type=\"application/pdf\">\npage\n</document>")
    );
}

#[test]
fn long_texts_are_cut() {
    assert_eq!(truncate_chars("häh", 3), "häh");
    assert_eq!(truncate_chars("hähä", 3), "häh\n...[truncated]");
    assert_eq!(truncate_chars("a", 0), "\n...[truncated]");
    assert_eq!(truncate_chars("", 0), "");
    let mut block = document("text/plain", "");
    let long = "x".repeat(MAX_DOCUMENT_TEXT_CHARS + 1);
    finish_document(&mut block, media("text/plain", long.as_bytes())).unwrap();
    let expected = format!(
        "<document title=\"sample.txt\" media_type=\"text/plain\">\n{}\n...[truncated]\n</document>",
        "x".repeat(120_000)
    );
    assert_eq!(block.get_str("text"), Some(expected.as_str()));
}

#[test]
fn a_run_stops_where_something_is_needed_and_goes_on_there() {
    let mut payload = request(vec![
        message(text("plain")),
        message(Value::Array(vec![
            document("text/plain", "b25l"),
            image("https://example.com/a.png"),
        ])),
        message(Value::Array(vec![])),
        message(Value::Array(vec![
            linked_document("https://example.com/b.pdf"),
            document("text/plain", "dHdv"),
        ])),
    ]);
    let at = match normalize_multimodal_sources(&mut payload, 0, Reply::Start) {
        Ok(Progress::Download { at, url, .. }) => {
            assert_eq!(url, "https://example.com/a.png");
            at
        }
        other => panic!("{other:?}"),
    };
    assert_eq!(at, 1);
    assert_eq!(part(&payload, 1, 0).get_str("type"), Some("text"));
    assert_eq!(part(&payload, 3, 1).get_str("type"), Some("document"));

    let reply = Reply::Media(Ok(media("image/png", b"hello")));
    let at = match normalize_multimodal_sources(&mut payload, at, reply) {
        Ok(Progress::Download { at, url, expected_prefix }) => {
            assert_eq!(url, "https://example.com/b.pdf");
            assert_eq!(expected_prefix, None);
            at
        }
        other => panic!("{other:?}"),
    };
    assert_eq!(at, 2);
    assert_eq!(part(&payload, 1, 1).get("source").unwrap().get_str("data"), Some("aGVsbG8="));

    let reply = Reply::Media(Ok(media("application/pdf", b"%PDF")));
    let (at, media_type) = match normalize_multimodal_sources(&mut payload, at, reply) {
        Ok(Progress::ExtractPdf { at, media_type, bytes }) => {
            assert_eq!(bytes, b"%PDF");
            (at, media_type)
        }
        other => panic!("{other:?}"),
    };
    assert_eq!(at, 2);

    let reply = Reply::PdfText { media_type, text: Ok("pages".to_string()) };
    let progress = normalize_multimodal_sources(&mut payload, at, reply).unwrap();
    assert!(matches!(progress, Progress::Finished));
    assert_eq!(
        part(&payload, 3, 0).get_str("text"),
        Some("<document title=\"document\" media_type=\"application/pdf\">\npages\n</document>")
    );
    assert!(part(&payload, 3, 1).get_str("text").unwrap().contains("two"));
    assert_eq!(payload.messages[0].content, text("plain"));

    let before = format!("{payload:?}");
    let progress = normalize_multimodal_sources(&mut payload, 0, Reply::Start).unwrap();
    assert!(matches!(progress, Progress::Finished));
    assert_eq!(format!("{payload:?}"), before);
}

#[test]
fn a_run_stops_at_the_first_error() {
    let mut payload = request(vec![message(Value::Array(vec![
        document("text/plain", "b25l"),
        image("ftp://example.com/a.png"),
        document("text/plain", "dHdv"),
    ]))]);
    assert_eq!(
        message_of(normalize_multimodal_sources(&mut payload, 0, Reply::Start)),
        "only http, https, and data URLs are supported for multimodal sources"
    );
    assert_eq!(part(&payload, 0, 0).get_str("type"), Some("text"));
    assert_eq!(part(&payload, 0, 2).get_str("type"), Some("document"));
}
