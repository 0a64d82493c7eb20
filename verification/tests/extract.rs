use minibrowser::{extract_text, strip_tags, transform_entities};

// --- strip_tags ---

#[test]
fn test_strip_tags_removes_tags() {
    assert_eq!(strip_tags("<h1>Hello</h1>"), "Hello");
}

#[test]
fn test_strip_tags_no_tags() {
    assert_eq!(strip_tags("plain text"), "plain text");
}

#[test]
fn test_strip_tags_nested() {
    assert_eq!(strip_tags("<div><p>text</p></div>"), "text");
}

#[test]
fn test_strip_tags_empty() {
    assert_eq!(strip_tags(""), "");
}

#[test]
fn test_strip_tags_doubles_newlines() {
    assert_eq!(strip_tags("a\nb"), "a\n\nb");
}

#[test]
fn test_strip_tags_drops_newline_inside_tag() {
    assert_eq!(strip_tags("a<b\nc>d"), "ad");
    assert_eq!(strip_tags("<a\nb>"), "");
}

#[test]
fn test_strip_tags_idempotent_without_newlines() {
    let once = strip_tags("<ul><li>one</li><li>two</li></ul>");
    let twice = strip_tags(&once);
    assert_eq!(once, twice);
}

// --- transform_entities ---

#[test]
fn test_transform_entities_lt() {
    assert_eq!(transform_entities("a &lt; b"), "a < b");
}

#[test]
fn test_transform_entities_gt() {
    assert_eq!(transform_entities("a &gt; b"), "a > b");
}

#[test]
fn test_transform_entities_both() {
    assert_eq!(transform_entities("&lt;tag&gt;"), "<tag>");
}

#[test]
fn test_transform_entities_strips_tags_first() {
    assert_eq!(transform_entities("<b>bold &lt;text&gt;</b>"), "bold <text>");
}

#[test]
fn test_transform_entities_no_entities() {
    assert_eq!(transform_entities("hello world"), "hello world");
}

#[test]
fn test_transform_entities_unknown_entity_kept() {
    assert_eq!(transform_entities("a &amp; b &lt c"), "a &amp; b &lt c");
}

// --- extract_text: body bytes to page text ---

#[test]
fn test_extract_text_from_bytes() {
    let body = b"<html><body>Hi &lt;there&gt;</body></html>";
    assert_eq!(extract_text(body), "Hi <there>");
}

#[test]
fn test_extract_text_invalid_utf8_replaced() {
    let body = b"<p>ok\xFF</p>";
    assert_eq!(extract_text(body), "ok\u{FFFD}");
}

#[test]
fn test_extract_text_empty_body() {
    assert_eq!(extract_text(b""), "");
}
