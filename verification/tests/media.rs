use prompt_cache::media::{
    accept_body, accept_guessed, accept_response, check_scheme, download_failed,
    load_media_from_url, media_from_decoded, parse_data_url, split_data_url, DownloadStage,
    MultimodalError, ResponseHead, MAX_REMOTE_BYTES,
};

fn head(content_type: Option<&str>) -> ResponseHead {
    ResponseHead {
        success: true,
        status: "200 OK".to_string(),
        content_length: None,
        content_type: content_type.map(str::to_string),
    }
}

fn error_of<T>(result: Result<T, MultimodalError>) -> String {
    match result {
        Ok(_) => panic!("no error"),
        Err(error) => error.to_string(),
    }
}

#[test]
fn an_error_shows_its_message() {
    assert_eq!(MultimodalError::new("no".to_string()).to_string(), "no");
}

#[test]
fn data_urls_are_split() {
    let split = |url: &str| split_data_url(url).unwrap();
    let parts = |media_type: &str, payload: &str| {
        Some((media_type.to_string(), payload.to_string()))
    };
    assert_eq!(split("data:image/png;base64,aGVsbG8="), parts("image/png", "aGVsbG8="));
    assert_eq!(split("data:;BASE64,"), parts("text/plain", ""));
    assert_eq!(split("data:a/b;charset=utf-8;Base64,x,y"), parts("a/b", "x,y"));
    assert_eq!(split("data:a/b;base64;charset=utf-8,x"), parts("a/b", "x"));
    assert_eq!(split("https://example.com/x.png"), None);
    assert_eq!(split("Data:;base64,"), None);
}

#[test]
fn broken_data_urls_are_refused() {
    assert_eq!(error_of(split_data_url("data:image/png;base64")), "invalid data URL");
    assert_eq!(
        error_of(split_data_url("data:image/png,hello")),
        "only base64 data URLs are supported"
    );
    assert_eq!(error_of(split_data_url("data:base64,x")), "only base64 data URLs are supported");
    assert_eq!(error_of(parse_data_url("data:nothing")), "invalid data URL");
}

#[test]
fn data_urls_are_decoded() {
    let media = parse_data_url("data:image/png;base64,aGVsbG8=").unwrap().unwrap();
    assert_eq!(media.media_type, "image/png");
    assert_eq!(media.bytes, b"hello");
    assert!(parse_data_url("http://example.com").unwrap().is_none());
}

#[test]
fn payloads_that_are_no_canonical_base64_are_refused() {
    for payload in ["aGVsbG8", "aGVsbG9=", "a b=", "****", "aGVsbG8=="] {
        let url = format!("data:text/plain;base64,{payload}");
        let message = error_of(parse_data_url(&url));
        assert!(message.starts_with("invalid data URL base64 payload: "), "{message}");
        assert!(message.len() > "invalid data URL base64 payload: ".len());
    }
}

#[test]
fn decoded_payloads_become_media() {
    let media = media_from_decoded("a/b".to_string(), Ok(vec![1, 2])).unwrap();
    assert_eq!((media.media_type.as_str(), media.bytes), ("a/b", vec![1, 2]));
    assert_eq!(
        error_of(media_from_decoded("a/b".to_string(), Err("why".to_string()))),
        "invalid data URL base64 payload: why"
    );
}

#[test]
fn data_urls_are_loaded_if_their_type_is_expected() {
    let url = "data:text/plain;base64,aGVsbG8=";
    assert_eq!(load_media_from_url(url, None).unwrap().unwrap().bytes, b"hello");
    assert_eq!(
        error_of(load_media_from_url(url, Some("image"))),
        "expected image/* data URL, got text/plain"
    );
    assert!(load_media_from_url("data:image/gif;base64,", Some("image")).unwrap().is_some());
}

#[test]
fn other_urls_are_left_to_be_downloaded() {
    assert!(load_media_from_url("http://example.com/a", None).unwrap().is_none());
    assert!(load_media_from_url("HTTPS://example.com/a", Some("image")).unwrap().is_none());
    assert_eq!(
        error_of(load_media_from_url("ftp://example.com/a", None)),
        "only http, https, and data URLs are supported for multimodal sources"
    );
    assert_eq!(
        error_of(load_media_from_url("not a url", None)),
        "invalid media URL: relative URL without a base"
    );
}

#[test]
fn schemes_are_checked() {
    assert!(check_scheme(Ok("http".to_string())).is_ok());
    assert!(check_scheme(Ok("https".to_string())).is_ok());
    assert_eq!(
        error_of(check_scheme(Ok("file".to_string()))),
        "only http, https, and data URLs are supported for multimodal sources"
    );
    assert_eq!(error_of(check_scheme(Err("odd".to_string()))), "invalid media URL: odd");
}

#[test]
fn the_declared_type_counts_first() {
    let url = "https://example.com/a.png";
    assert_eq!(accept_response(&head(Some("text/html; charset=x")), url, None).unwrap(), "text/html");
    assert_eq!(accept_response(&head(Some(" ;x")), url, None).unwrap(), "image/png");
    assert_eq!(accept_response(&head(None), url, Some("image")).unwrap(), "image/png");
    assert_eq!(
        accept_response(&head(None), "https://example.com/a.json", None).unwrap(),
        "application/json"
    );
    assert_eq!(
        accept_response(&head(None), "https://example.com/nothing", None).unwrap(),
        "application/octet-stream"
    );
    assert_eq!(
        error_of(accept_response(&head(Some("text/html")), url, Some("image"))),
        "expected image/* media URL, got text/html"
    );
}

#[test]
fn a_guess_counts_where_nothing_is_declared() {
    let guess = || Some("image/gif".to_string());
    assert_eq!(accept_guessed(&head(None), None, guess()).unwrap(), "image/gif");
    assert_eq!(accept_guessed(&head(Some("a/b")), None, guess()).unwrap(), "a/b");
    assert_eq!(accept_guessed(&head(None), None, None).unwrap(), "application/octet-stream");
}

#[test]
fn declared_types_are_trimmed_like_str() {
    for n in 0..0x3100u32 {
        if let Some(c) = char::from_u32(n) {
            if c == ';' {
                continue;
            }
            let header = format!("{c}a{c}b{c}{c};{c}");
            let expected = header.split(';').next().unwrap().trim().to_string();
            assert_eq!(accept_guessed(&head(Some(&header)), None, None).unwrap(), expected, "{n}");
        }
    }
}

#[test]
fn failed_responses_are_refused() {
    let mut failed = head(Some("image/png"));
    failed.success = false;
    failed.status = "404 Not Found".to_string();
    failed.content_length = Some(u64::MAX);
    assert_eq!(
        error_of(accept_guessed(&failed, None, None)),
        "media URL returned HTTP 404 Not Found"
    );
}

#[test]
fn large_responses_are_refused() {
    let mut large = head(Some("image/png"));
    large.content_length = Some(10 * 1024 * 1024);
    assert_eq!(accept_guessed(&large, None, None).unwrap(), "image/png");
    large.content_length = Some(10 * 1024 * 1024 + 1);
    assert_eq!(
        error_of(accept_guessed(&large, Some("image"), None)),
        "media URL body is too large: 10485761 bytes"
    );
    let fits = accept_body("a/b".to_string(), vec![0; MAX_REMOTE_BYTES]).unwrap();
    assert_eq!(fits.bytes.len(), MAX_REMOTE_BYTES);
    assert_eq!(
        error_of(accept_body("a/b".to_string(), vec![0; MAX_REMOTE_BYTES + 1])),
        "media URL body is too large: 10485761 bytes"
    );
}

#[test]
fn failed_downloads_are_told() {
    assert_eq!(
        download_failed(DownloadStage::Client, "x").to_string(),
        "failed to build HTTP client: x"
    );
    assert_eq!(
        download_failed(DownloadStage::Request, "x").to_string(),
        "failed to download media URL: x"
    );
    assert_eq!(
        download_failed(DownloadStage::Body, "x").to_string(),
        "failed to read media URL body: x"
    );
}
