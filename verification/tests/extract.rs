use minibrowser::Response;
use minibrowser::show;
use minibrowser::show_only_body;
use minibrowser::show_without_tag;

#[test]
fn extraction_keeps_only_body_text() {
    let resp = Response {
        version: String::from("HTTP/1.1"),
        status: 200,
        reason: String::from("OK"),
        headers: None,
        body: Some(b"<html><body>Hello<b>World</b></body></html>".to_vec()),
    };
    assert_eq!(show(&resp).unwrap(), "HelloWorld");
}

#[test]
fn stripping_leaves_plain_text_unchanged() {
    assert_eq!(show_without_tag(404, "Not Found", "no tags here"), "404 Not Foundno tags here");
}

#[test]
fn stripping_twice_equals_stripping_once() {
    // The first pass drops the markup; a second pass over the surviving text
    // changes nothing.
    let once = show_without_tag(500, "", "a<b>c</b>d");
    let stripped = &once[4..];
    assert_eq!(stripped, "acd");
    let twice = show_without_tag(500, "", stripped);
    assert_eq!(twice, once);
}

#[test]
fn non_success_output_prepends_status_and_reason() {
    assert_eq!(show_without_tag(404, "Not Found", ""), "404 Not Found");
    assert_eq!(show_without_tag(500, "Oops", "<i>gone</i> now"), "500 Oopsgone now");
}

#[test]
fn unbalanced_markup_degrades_gracefully() {
    // Depth clamps at zero rather than underflowing: the stray '>' is
    // ignored, and the text after it still comes out.
    assert_eq!(show_only_body("<<body>>text"), "text");
    assert_eq!(show_without_tag(404, "Not Found", ">>>text"), "404 Not Foundtext");
}

#[test]
fn early_body_close_before_body_open_is_ignored() {
    // A /body tag can only close a body element that has opened: the stray
    // one at the front does not latch, so the text after the real body-open
    // tag still comes out.
    assert_eq!(show_only_body("a</body>b<body>c"), "c");
}

#[test]
fn body_text_outside_body_element_is_dropped() {
    assert_eq!(show_only_body("no tags here"), "");
    assert_eq!(show_only_body("<html>before<body>in</body>after</html>"), "in");
}

#[test]
fn body_tag_match_is_a_prefix_match() {
    assert_eq!(show_only_body("<bodyclass=\"x\">kept</body>"), "kept");
}

#[test]
fn nested_tags_inside_body_are_stripped() {
    assert_eq!(show_only_body("<body>a<b attr=\"v\">b</b>c</body>"), "abc");
}

#[test]
fn missing_body_decodes_to_empty_text() {
    let resp = Response {
        version: String::new(),
        status: 200,
        reason: String::new(),
        headers: None,
        body: None,
    };
    assert_eq!(show(&resp).unwrap(), "");
}
