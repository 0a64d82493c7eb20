//! A minimal web-page fetcher: URL parsing, an HTTP/1.1 request/response
//! state machine with a host-keyed connection cache, and a text extractor
//! that strips markup tags and decodes a small set of character entities.
//!
//! The library holds every decision of the pipeline; the blocking
//! network and file work is left to the caller, who performs the
//! actions the fetch machine hands out and reports their outcomes back
//! as events.

pub mod cache;
pub mod chars;
pub mod fetch;
pub mod http;
pub mod text;
pub mod url;

pub use fetch::load;
pub use fetch::FetchAction;
pub use fetch::FetchError;
pub use fetch::FetchEvent;
pub use fetch::FetchState;
pub use fetch::Fetcher;

pub use http::header_content_length;
pub use http::is_blank_line;
pub use http::request_text;

pub use cache::ConnectionCache;

pub use text::extract_text;
pub use text::strip_tags;
pub use text::transform_entities;
pub use url::Url;
