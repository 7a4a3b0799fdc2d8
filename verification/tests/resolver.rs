use minibrowser::FetchError;
use minibrowser::HttpMethod;
use minibrowser::HttpSchema;
use minibrowser::Request;

#[test]
fn resolves_host_port_and_path() {
    let req = Request::try_new(HttpMethod::GET, "http://example.com:8080/some/path").unwrap();
    assert!(matches!(req.schema, HttpSchema::HTTP));
    assert_eq!(req.host, "example.com");
    assert_eq!(req.port, 8080);
    assert_eq!(req.path, "/some/path");
}

#[test]
fn resolves_default_ports() {
    let req = Request::try_new(HttpMethod::GET, "http://example.com/x").unwrap();
    assert_eq!(req.port, 80);
    let req = Request::try_new(HttpMethod::GET, "https://example.com/x").unwrap();
    assert_eq!(req.port, 443);
}

#[test]
fn unparseable_port_falls_back_to_default() {
    let req = Request::try_new(HttpMethod::GET, "http://example.com:abc/x").unwrap();
    assert_eq!(req.port, 80);
    let req = Request::try_new(HttpMethod::GET, "https://example.com:99999/x").unwrap();
    assert_eq!(req.port, 443);
    let req = Request::try_new(HttpMethod::GET, "https://example.com:/x").unwrap();
    assert_eq!(req.port, 443);
}

#[test]
fn largest_port_parses_and_overflow_falls_back() {
    let req = Request::try_new(HttpMethod::GET, "http://h:65535/x").unwrap();
    assert_eq!(req.port, 65535);
    let req = Request::try_new(HttpMethod::GET, "http://h:65536/x").unwrap();
    assert_eq!(req.port, 80);
}

#[test]
fn missing_scheme_defaults_to_https() {
    let req = Request::try_new(HttpMethod::GET, "example.com/x").unwrap();
    assert!(matches!(req.schema, HttpSchema::HTTPS));
    assert_eq!(req.host, "example.com");
    assert_eq!(req.port, 443);
    assert_eq!(req.path, "/x");
}

#[test]
fn missing_path_resolves_to_root() {
    let req = Request::try_new(HttpMethod::GET, "http://example.com").unwrap();
    assert_eq!(req.host, "example.com");
    assert_eq!(req.path, "/");
}

#[test]
fn unknown_scheme_is_rejected() {
    let err = Request::try_new(HttpMethod::GET, "ftp://example.com/x").unwrap_err();
    assert_eq!(err, FetchError::UnsupportedScheme);
}

#[test]
fn file_url_keeps_path_verbatim() {
    let req = Request::try_new(HttpMethod::GET, "file:///tmp/page.html").unwrap();
    assert!(matches!(req.schema, HttpSchema::FILE));
    assert_eq!(req.path, "/tmp/page.html");
    assert_eq!(req.host, "");
}

#[test]
fn data_url_splits_mime_and_payload() {
    let req = Request::try_new(HttpMethod::GET, "data:text/html,Hi").unwrap();
    match &req.schema {
        HttpSchema::DATA(mime) => assert_eq!(mime, "text/html"),
        _ => panic!("expected a data scheme"),
    }
    assert_eq!(req.body, b"Hi".to_vec());
}

#[test]
fn data_url_without_comma_defaults_to_html() {
    let req = Request::try_new(HttpMethod::GET, "data:justtext").unwrap();
    match &req.schema {
        HttpSchema::DATA(mime) => assert_eq!(mime, "text/html"),
        _ => panic!("expected a data scheme"),
    }
    assert_eq!(req.body, b"justtext".to_vec());
}

#[test]
fn data_url_with_other_mime_is_rejected() {
    let err = Request::try_new(HttpMethod::GET, "data:text/plain,Hi").unwrap_err();
    assert_eq!(err, FetchError::UnsupportedMediaType);
}

#[test]
fn get_url_joins_host_and_port() {
    let req = Request::try_new(HttpMethod::GET, "http://example.com:8080/x").unwrap();
    assert_eq!(req.get_url(), "example.com:8080");
    let req = Request::try_new(HttpMethod::GET, "https://h/x").unwrap();
    assert_eq!(req.get_url(), "h:443");
}

#[test]
fn set_header_lowercases_the_name() {
    let mut req = Request::try_new(HttpMethod::GET, "http://example.com/x").unwrap();
    req.set_header("Accept-Language", "en");
    req.set_header("ACCEPT-LANGUAGE", "fr");
    assert_eq!(req.headers.entries.len(), 1);
    assert_eq!(req.headers.entries[0].0, "accept-language");
    assert_eq!(req.headers.entries[0].1, "fr");
}

#[test]
fn schema_try_from_recognizes_names() {
    assert!(matches!(HttpSchema::try_from("file"), Ok(HttpSchema::FILE)));
    assert!(matches!(HttpSchema::try_from("http"), Ok(HttpSchema::HTTP)));
    assert!(matches!(HttpSchema::try_from("https"), Ok(HttpSchema::HTTPS)));
    assert_eq!(HttpSchema::try_from("gopher").unwrap_err(), FetchError::UnsupportedScheme);
}

#[test]
fn schema_text_names_the_scheme() {
    assert_eq!(HttpSchema::HTTP.text(), "http");
    assert_eq!(HttpSchema::HTTPS.text(), "https");
    assert_eq!(HttpSchema::FILE.text(), "file");
    assert_eq!(HttpSchema::DATA(String::from("text/html")).text(), "data:text/html");
}
