use minibrowser::Url;

// --- Url::new parsing ---

#[test]
fn test_url_parses_http() {
    let url = Url::new("http://www.google.com/");
    assert_eq!(url.scheme, "http");
    assert_eq!(url.host, "www.google.com");
    assert_eq!(url.path, "/");
}

#[test]
fn test_url_parses_https() {
    let url = Url::new("https://browser.engineering/");
    assert_eq!(url.scheme, "https");
    assert_eq!(url.host, "browser.engineering");
    assert_eq!(url.path, "/");
}

#[test]
fn test_url_parses_path() {
    let url = Url::new("https://example.com/foo/bar");
    assert_eq!(url.scheme, "https");
    assert_eq!(url.host, "example.com");
    assert_eq!(url.path, "/foo/bar");
}

#[test]
fn test_url_parses_file_scheme() {
    let url = Url::new("file:///tmp/test.html");
    assert_eq!(url.scheme, "file");
    assert_eq!(url.host, "");
    assert_eq!(url.path, "/tmp/test.html");
}

// --- further parse edges ---

#[test]
fn test_url_without_scheme() {
    let url = Url::new("example.com/page");
    assert_eq!(url.scheme, "");
    assert_eq!(url.host, "example.com");
    assert_eq!(url.path, "/page");
}

#[test]
fn test_url_without_path() {
    let url = Url::new("http://example.com");
    assert_eq!(url.scheme, "http");
    assert_eq!(url.host, "example.com");
    assert_eq!(url.path, "/");
}

#[test]
fn test_url_empty_input() {
    let url = Url::new("");
    assert_eq!(url.scheme, "");
    assert_eq!(url.host, "");
    assert_eq!(url.path, "/");
}
