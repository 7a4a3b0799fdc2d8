use minibrowser::FetchError;
use minibrowser::HttpClient;
use minibrowser::HttpMethod;
use minibrowser::Request;
use minibrowser::parse_response;
use minibrowser::show;

#[test]
fn request_head_is_framed_exactly() {
    let client = HttpClient::default();
    let req = Request::try_new(HttpMethod::GET, "http://example.com/index.html").unwrap();
    assert_eq!(
        client.construct_request(&req),
        "GET /index.html HTTP/1.1\r\nHost: example.com\r\nConnection: close\r\nUser-Agent: Browser-Demo/0.0.1\r\n\r\n"
    );
}

#[test]
fn request_head_carries_caller_headers() {
    let client = HttpClient::default();
    let mut req = Request::try_new(HttpMethod::GET, "http://h/p").unwrap();
    req.set_header("Accept", "text/plain");
    assert_eq!(
        client.construct_request(&req),
        "GET /p HTTP/1.1\r\nHost: h\r\nConnection: close\r\nUser-Agent: Browser-Demo/0.0.1\r\naccept: text/plain\r\n\r\n"
    );
}

#[test]
fn success_response_parses_headers_and_body() {
    let bytes =
        b"HTTP/1.1 200 OK\r\nContent-Type: text/html\r\nX-Up:  a \r\n\r\n<html><body>Hi</body></html>"
            .to_vec();
    let resp = parse_response(&bytes).unwrap();
    assert_eq!(resp.version, "HTTP/1.1");
    assert_eq!(resp.status, 200);
    assert_eq!(resp.reason, "OK");
    let headers = resp.headers.as_ref().unwrap();
    assert_eq!(headers.entries.len(), 2);
    assert_eq!(headers.entries[0].0, "content-type");
    assert_eq!(headers.entries[0].1, "text/html");
    assert_eq!(headers.entries[1].0, "x-up");
    assert_eq!(headers.entries[1].1, "a");
    assert_eq!(resp.body, Some(b"<html><body>Hi</body></html>".to_vec()));
    assert_eq!(show(&resp).unwrap(), "Hi");
}

#[test]
fn duplicate_header_names_keep_the_last_value() {
    let bytes = b"HTTP/1.1 200 OK\r\nA: 1\r\na: 2\r\n\r\n".to_vec();
    let resp = parse_response(&bytes).unwrap();
    let headers = resp.headers.as_ref().unwrap();
    assert_eq!(headers.entries.len(), 1);
    assert_eq!(headers.entries[0].0, "a");
    assert_eq!(headers.entries[0].1, "2");
}

#[test]
fn non_success_body_is_the_reason_text() {
    let bytes = b"HTTP/1.1 404 Not Found\r\nX: y\r\n\r\nthe real body".to_vec();
    let resp = parse_response(&bytes).unwrap();
    assert_eq!(resp.status, 404);
    assert_eq!(resp.reason, "Not Found");
    assert!(resp.headers.is_none());
    assert_eq!(resp.body, Some(b"Not Found".to_vec()));
    // The reason text is echoed as the body, so the final output carries it
    // twice: once from the status prefix and once from the stripped body.
    assert_eq!(show(&resp).unwrap(), "404 Not FoundNot Found");
}

#[test]
fn status_line_without_spaces_is_malformed() {
    let bytes = b"HTTP/1.1\r\n\r\n".to_vec();
    assert_eq!(parse_response(&bytes).unwrap_err(), FetchError::MalformedUrl);
    let bytes = b"HTTP/1.1 200\r\n\r\n".to_vec();
    assert_eq!(parse_response(&bytes).unwrap_err(), FetchError::MalformedUrl);
}

#[test]
fn non_numeric_status_is_malformed() {
    let bytes = b"HTTP/1.1 abc Oops\r\n\r\n".to_vec();
    assert_eq!(parse_response(&bytes).unwrap_err(), FetchError::MalformedUrl);
    let bytes = b"HTTP/1.1 1000 Big\r\n\r\n".to_vec();
    assert_eq!(parse_response(&bytes).unwrap_err(), FetchError::MalformedUrl);
}

#[test]
fn header_line_without_colon_is_malformed() {
    let bytes = b"HTTP/1.1 200 OK\r\nnocolon\r\n\r\n".to_vec();
    assert_eq!(parse_response(&bytes).unwrap_err(), FetchError::MalformedUrl);
}

#[test]
fn missing_blank_line_means_empty_body() {
    let bytes = b"HTTP/1.1 200 OK\r\nA: 1".to_vec();
    let resp = parse_response(&bytes).unwrap();
    assert_eq!(resp.body, Some(Vec::new()));
}

#[test]
fn caller_headers_keep_insertion_order() {
    let client = HttpClient::default();
    let mut req = Request::try_new(HttpMethod::GET, "http://h/p").unwrap();
    req.set_header("B-Two", "2");
    req.set_header("A-One", "1");
    assert_eq!(
        client.construct_request(&req),
        "GET /p HTTP/1.1\r\nHost: h\r\nConnection: close\r\nUser-Agent: Browser-Demo/0.0.1\r\nb-two: 2\r\na-one: 1\r\n\r\n"
    );
}
