use minibrowser::{
    load, ConnectionCache, FetchAction, FetchError, FetchEvent, Fetcher, Url,
};

// --- connection cache ---

#[test]
fn test_cache_release_then_acquire_same_stream() {
    let mut cache: ConnectionCache<u64> = ConnectionCache::new();
    cache.release(String::from("example.com"), 7);
    assert_eq!(cache.acquire("example.com"), Some(7));
    // Checked out: a second acquire finds nothing and a new
    // connection would have to be constructed.
    assert_eq!(cache.acquire("example.com"), None);
}

#[test]
fn test_cache_release_overwrites() {
    let mut cache: ConnectionCache<u64> = ConnectionCache::new();
    cache.release(String::from("a"), 1);
    cache.release(String::from("a"), 2);
    assert_eq!(cache.len(), 1);
    assert_eq!(cache.acquire("a"), Some(2));
}

#[test]
fn test_cache_separate_hosts() {
    let mut cache: ConnectionCache<u64> = ConnectionCache::new();
    cache.release(String::from("a"), 1);
    cache.release(String::from("b"), 2);
    assert_eq!(cache.len(), 2);
    assert!(cache.contains_host("a"));
    assert!(cache.contains_host("b"));
    assert!(!cache.contains_host("c"));
    assert_eq!(cache.acquire("b"), Some(2));
    assert_eq!(cache.acquire("a"), Some(1));
}

// --- the fetch machine: a file fetch bypasses the cache ---

#[test]
fn test_file_fetch_never_touches_cache() {
    let mut fetcher: Fetcher<u64> = Fetcher::new();
    // Seed the cache through a finished network fetch for "h".
    run_network_fetch(&mut fetcher, "http://h/x", 5, b"hello", 11);
    assert_eq!(fetcher.cache_len(), 1);

    let url = Url::new("file:///tmp/page.html");
    let action = load(&mut fetcher, FetchEvent::Start { url });
    match action {
        FetchAction::OpenFile { path } => assert_eq!(path, "/tmp/page.html"),
        _ => panic!("expected a file-open action"),
    }
    let action = load(
        &mut fetcher,
        FetchEvent::FileBody { bytes: b"<h1>Local</h1>".to_vec() },
    );
    match action {
        FetchAction::Done { text } => assert_eq!(text, "Local"),
        _ => panic!("expected completion"),
    }
    // The cache was neither consulted nor mutated.
    assert_eq!(fetcher.cache_len(), 1);
    assert!(fetcher.cached_host("h"));
}

// Drives one successful network fetch through the machine, feeding
// `stream` back with the body.
fn run_network_fetch(
    fetcher: &mut Fetcher<u64>,
    url: &str,
    content_length: usize,
    body: &[u8],
    stream: u64,
) -> String {
    let url = Url::new(url);
    let action = load(fetcher, FetchEvent::Start { url });
    match action {
        FetchAction::Request { .. } => {}
        _ => panic!("expected a request action"),
    }
    let action = load(
        fetcher,
        FetchEvent::Line { text: String::from("HTTP/1.1 200 OK\r\n") },
    );
    assert!(matches!(action, FetchAction::ReadLine));
    let action = load(
        fetcher,
        FetchEvent::Line { text: format!("Content-Length: {}\r\n", content_length) },
    );
    assert!(matches!(action, FetchAction::ReadLine));
    let action = load(fetcher, FetchEvent::Line { text: String::from("\r\n") });
    match action {
        FetchAction::ReadBody { len } => assert_eq!(len, content_length),
        _ => panic!("expected a body read"),
    }
    let action = load(fetcher, FetchEvent::Body { bytes: body.to_vec(), stream });
    match action {
        FetchAction::Done { text } => text,
        _ => panic!("expected completion"),
    }
}

// --- the fetch machine: consecutive fetches reuse the connection ---

#[test]
fn test_consecutive_https_fetches_reuse_stream() {
    let mut fetcher: Fetcher<u64> = Fetcher::new();

    // First fetch: nothing cached, so the action asks for a new TLS
    // connection.
    let url = Url::new("https://example.com/");
    let action = load(&mut fetcher, FetchEvent::Start { url });
    match action {
        FetchAction::Request { cached, host, port, tls, request } => {
            assert!(cached.is_none());
            assert_eq!(host, "example.com");
            assert_eq!(port, 443);
            assert!(tls);
            assert_eq!(
                request,
                "GET / HTTP/1.1\r\nHost: example.com\r\nConnection: keep-alive\r\nUser-Agent: RustBrowser/1.0\r\n\r\n"
            );
        }
        _ => panic!("expected a request action"),
    }
    let action = load(
        &mut fetcher,
        FetchEvent::Line { text: String::from("HTTP/1.1 200 OK\r\n") },
    );
    assert!(matches!(action, FetchAction::ReadLine));
    let action = load(
        &mut fetcher,
        FetchEvent::Line { text: String::from("Content-Length: 2\r\n") },
    );
    assert!(matches!(action, FetchAction::ReadLine));
    let action = load(&mut fetcher, FetchEvent::Line { text: String::from("\r\n") });
    assert!(matches!(action, FetchAction::ReadBody { len: 2 }));
    let action = load(
        &mut fetcher,
        FetchEvent::Body { bytes: b"ok".to_vec(), stream: 42 },
    );
    match action {
        FetchAction::Done { text } => assert_eq!(text, "ok"),
        _ => panic!("expected completion"),
    }

    // After the first response is fully drained: one live entry.
    assert_eq!(fetcher.cache_len(), 1);
    assert!(fetcher.cached_host("example.com"));

    // Second fetch to the same host: the very same stream is offered
    // for reuse; no new connection, no second handshake.
    let url = Url::new("https://example.com/two");
    let action = load(&mut fetcher, FetchEvent::Start { url });
    match action {
        FetchAction::Request { cached, .. } => assert_eq!(cached, Some(42)),
        _ => panic!("expected a request action"),
    }
}

// --- the fetch machine: failures ---

#[test]
fn test_eof_before_headers_end_is_framing_error() {
    let mut fetcher: Fetcher<u64> = Fetcher::new();
    let url = Url::new("http://h/");
    let _ = load(&mut fetcher, FetchEvent::Start { url });
    let action = load(&mut fetcher, FetchEvent::Eof);
    assert!(matches!(action, FetchAction::Fail { error: FetchError::Framing }));
}

#[test]
fn test_failed_connection_not_cached() {
    let mut fetcher: Fetcher<u64> = Fetcher::new();
    run_network_fetch(&mut fetcher, "http://h/", 2, b"ok", 5);
    assert!(fetcher.cached_host("h"));

    // A second fetch checks the stream out; when the body read fails,
    // the stream is dropped, never reinserted.
    let url = Url::new("http://h/");
    let action = load(&mut fetcher, FetchEvent::Start { url });
    match action {
        FetchAction::Request { cached, .. } => assert_eq!(cached, Some(5)),
        _ => panic!("expected a request action"),
    }
    assert!(!fetcher.cached_host("h"));
    let action = load(&mut fetcher, FetchEvent::Failed { error: FetchError::Io });
    assert!(matches!(action, FetchAction::Fail { error: FetchError::Io }));
    assert!(!fetcher.cached_host("h"));
    assert_eq!(fetcher.cache_len(), 0);
}

#[test]
fn test_error_kinds_pass_through() {
    for kind in [
        FetchError::Connect,
        FetchError::TlsHandshake,
        FetchError::Io,
        FetchError::PermissionDenied,
        FetchError::NotFound,
        FetchError::AccessDenied,
    ] {
        let mut fetcher: Fetcher<u64> = Fetcher::new();
        let url = Url::new("https://h/");
        let _ = load(&mut fetcher, FetchEvent::Start { url });
        let action = load(&mut fetcher, FetchEvent::Failed { error: kind });
        match action {
            FetchAction::Fail { error } => assert_eq!(error, kind),
            _ => panic!("expected a failure action"),
        }
    }
}

#[test]
fn test_header_without_length_reads_zero_bytes() {
    let mut fetcher: Fetcher<u64> = Fetcher::new();
    let url = Url::new("http://h/");
    let _ = load(&mut fetcher, FetchEvent::Start { url });
    let _ = load(&mut fetcher, FetchEvent::Line { text: String::from("HTTP/1.1 200 OK\r\n") });
    let action = load(&mut fetcher, FetchEvent::Line { text: String::from("\r\n") });
    assert!(matches!(action, FetchAction::ReadBody { len: 0 }));
}
