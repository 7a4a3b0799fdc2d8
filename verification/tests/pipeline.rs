use minibrowser::FetchError;
use minibrowser::HttpMethod;
use minibrowser::HttpSchema;
use minibrowser::Request;
use minibrowser::Response;
use minibrowser::parse_data;
use minibrowser::show;

/// The pure part of a fetch: resolve, synthesize the `data:` response, and
/// extract — no transport involved.
fn load_data_url(url: &str) -> Result<String, FetchError> {
    let req = Request::try_new(HttpMethod::GET, url)?;
    let mime = match &req.schema {
        HttpSchema::DATA(m) => m.clone(),
        _ => panic!("expected a data scheme"),
    };
    let resp = parse_data(&req, &mime)?;
    show(&resp)
}

#[test]
fn data_html_url_loads_to_its_payload() {
    assert_eq!(load_data_url("data:text/html,Hi").unwrap(), "Hi");
}

#[test]
fn data_plain_url_fails_with_unsupported_media_type() {
    assert_eq!(load_data_url("data:text/plain,Hi").unwrap_err(), FetchError::UnsupportedMediaType);
}

#[test]
fn parse_data_wraps_payload_in_body_element() {
    let req = Request::try_new(HttpMethod::GET, "data:text/html,Hi").unwrap();
    let resp = parse_data(&req, "text/html").unwrap();
    assert_eq!(resp.status, 200);
    assert_eq!(resp.body, Some(b"<html><body>Hi</body></html>".to_vec()));
}

#[test]
fn parse_data_rejects_a_non_utf8_payload() {
    let mut req = Request::try_new(HttpMethod::GET, "data:text/html,Hi").unwrap();
    req.body = vec![0xff, 0xfe, 0x80];
    assert_eq!(parse_data(&req, "text/html").unwrap_err(), FetchError::UndecodableCharset);
}

#[test]
fn parse_data_rejects_other_mime_types() {
    let req = Request::try_new(HttpMethod::GET, "data:text/html,Hi").unwrap();
    assert_eq!(parse_data(&req, "text/plain").unwrap_err(), FetchError::UnsupportedMediaType);
}

#[test]
fn utf8_body_decodes_exactly() {
    let text = "caf\u{e9} \u{2014} na\u{ef}ve";
    let resp = Response {
        version: String::new(),
        status: 200,
        reason: String::new(),
        headers: None,
        body: Some(text.as_bytes().to_vec()),
    };
    assert_eq!(resp.body_to_string().unwrap(), text);
}

#[test]
fn detected_charset_round_trips() {
    // A body in a legacy single-byte encoding that the detector can identify
    // comes back as the same visible text as a direct decode with that
    // charset.
    let text = "Voil\u{e0} un r\u{e9}sum\u{e9} tr\u{e8}s d\u{e9}taill\u{e9} pour la d\u{e9}tection \
                des caract\u{e8}res sp\u{e9}ciaux du fran\u{e7}ais, ann\u{e9}e apr\u{e8}s \
                ann\u{e9}e.";
    let (bytes, _, lossy) = encoding_rs::WINDOWS_1252.encode(text);
    assert!(!lossy);
    assert!(std::str::from_utf8(&bytes).is_err());
    let resp = Response {
        version: String::new(),
        status: 200,
        reason: String::new(),
        headers: None,
        body: Some(bytes.to_vec()),
    };
    let decoded = resp.body_to_string().unwrap();
    let (direct, _, _) = encoding_rs::WINDOWS_1252.decode(&bytes);
    assert_eq!(decoded, direct);
    assert_eq!(decoded, text);
}

#[test]
fn file_bytes_become_a_success_response() {
    let resp = Response::from_file_bytes(b"<body>disk</body>".to_vec());
    assert_eq!(resp.status, 200);
    assert!(resp.headers.is_none());
    assert_eq!(show(&resp).unwrap(), "disk");
}

#[test]
fn error_messages_are_displayable() {
    assert_eq!(FetchError::UndecodableCharset.message(), "cannot guess charset");
    assert_eq!(FetchError::UnsupportedScheme.message(), "unsupported scheme");
}
