use minibrowser::{header_content_length, is_blank_line, request_text, Url};

// --- request text ---

#[test]
fn test_request_text_exact() {
    let url = Url::new("http://example.com/index.html");
    assert_eq!(
        request_text(&url),
        "GET /index.html HTTP/1.1\r\n\
         Host: example.com\r\n\
         Connection: keep-alive\r\n\
         User-Agent: RustBrowser/1.0\r\n\
         \r\n"
    );
}

#[test]
fn test_request_text_root_path() {
    let url = Url::new("https://example.com");
    let text = request_text(&url);
    assert!(text.starts_with("GET / HTTP/1.1\r\n"));
    assert!(text.ends_with("\r\n\r\n"));
}

// --- header lines ---

#[test]
fn test_header_content_length_plain() {
    assert_eq!(header_content_length("Content-Length: 42\r\n"), Some(42));
}

#[test]
fn test_header_content_length_case_insensitive() {
    assert_eq!(header_content_length("CONTENT-LENGTH:7"), Some(7));
    assert_eq!(header_content_length("content-length: 7"), Some(7));
}

#[test]
fn test_header_content_length_trims_name() {
    assert_eq!(header_content_length("  Content-Length  : 5\r\n"), Some(5));
}

#[test]
fn test_header_content_length_other_header() {
    assert_eq!(header_content_length("Content-Type: text/html\r\n"), None);
}

#[test]
fn test_header_content_length_no_colon() {
    assert_eq!(header_content_length("garbage line"), None);
}

#[test]
fn test_header_content_length_unparsable_is_zero() {
    assert_eq!(header_content_length("Content-Length: soon\r\n"), Some(0));
    assert_eq!(header_content_length("Content-Length:\r\n"), Some(0));
}

#[test]
fn test_header_content_length_overflow_is_zero() {
    assert_eq!(
        header_content_length("Content-Length: 99999999999999999999999999\r\n"),
        Some(0)
    );
}

#[test]
fn test_header_content_length_plus_sign() {
    assert_eq!(header_content_length("Content-Length: +12\r\n"), Some(12));
}

// --- blank lines ---

#[test]
fn test_blank_line_crlf() {
    assert!(is_blank_line("\r\n"));
    assert!(is_blank_line(""));
    assert!(is_blank_line("   \r\n"));
    assert!(!is_blank_line("Content-Length: 1\r\n"));
}
