//! The fetch pipeline as a state machine.  The library decides; the
//! caller performs the blocking work (connecting, reading, writing)
//! that each returned action names, and hands the outcome back as the
//! next event.  Streams are any type `S`: the machine moves them
//! between the caller and the connection cache without reading them.

use crate::cache::ConnectionCache;
use crate::chars::str_eq;
use crate::http::{
    header_content_length, is_blank_line, is_content_length_line, request_text, spec_header_value,
    spec_request, spec_trim, spec_value_or_zero,
};
use crate::text::{extract_text, lossy_decode, spec_extract};
use crate::url::Url;
use vstd::prelude::*;

verus! {

/// The error kinds a fetch can surface.  None is retried: a failed
/// fetch ends with one of these, and its connection is discarded.
#[derive(Clone, Copy, Debug, PartialEq, Eq, Structural)]
pub enum FetchError {
    /// Name resolution or TCP connection failure.
    Connect,
    /// The TLS client handshake failed.
    TlsHandshake,
    /// The stream ended before the blank line that closes the headers.
    Framing,
    /// A generic read or write failure.
    Io,
    /// A write was attempted on a read-only file-backed stream.
    PermissionDenied,
    /// The local file does not exist.
    NotFound,
    /// The local file may not be read.
    AccessDenied,
}

/// Where a fetch in flight stands.
pub enum FetchState {
    /// No fetch is in flight.
    Idle,
    /// A local file read is pending.
    FileWait,
    /// The request is sent; the status line of `host`'s response is
    /// pending.
    StatusWait { host: String },
    /// Header lines are being read; `content_length` is the declared
    /// body length seen so far.
    HeaderWait { host: String, content_length: usize },
    /// The header block is done; exactly `content_length` bytes of
    /// body are pending.
    BodyWait { host: String, content_length: usize },
}

/// What the caller reports to the machine.
pub enum FetchEvent<S> {
    /// Begin fetching the resource.
    Start { url: Url },
    /// The local file was opened and read in full.
    FileBody { bytes: Vec<u8> },
    /// One response line was read.
    Line { text: String },
    /// The stream ended where a line was expected.
    Eof,
    /// The requested body bytes were read; the stream they came from
    /// is handed back for caching.
    Body { bytes: Vec<u8>, stream: S },
    /// The pending outside work failed.
    Failed { error: FetchError },
}

/// What the machine asks the caller to do next.
pub enum FetchAction<S> {
    /// Open the local file at `path` and read it in full.
    OpenFile { path: String },
    /// Send `request` to `host`: over `cached` if it holds a stream,
    /// else over a new connection to `host:port`, preceded by a TLS
    /// handshake when `tls` is set.  Then read the first response line.
    Request { cached: Option<S>, host: String, port: u16, tls: bool, request: String },
    /// Read the next response line.
    ReadLine,
    /// Read exactly `len` bytes of response body.
    ReadBody { len: usize },
    /// The fetch is complete; `text` is the extracted page text.
    Done { text: String },
    /// The fetch failed; any stream in use is dropped, not cached.
    Fail { error: FetchError },
}

/// The scheme selects a TLS transport.
pub open spec fn spec_is_tls(scheme: Seq<char>) -> bool {
    scheme == "https"@
}

/// The scheme selects the local-file transport.
pub open spec fn spec_is_file(scheme: Seq<char>) -> bool {
    scheme == "file"@
}

/// The port a scheme connects to.
pub open spec fn spec_port(scheme: Seq<char>) -> u16 {
    if spec_is_tls(scheme) {
        443
    } else {
        80
    }
}

/// The machine's full transition relation: from the cache and state
/// before a step, and the event fed in, to the cache and state after
/// it and the action handed out.  A `file` fetch never touches the
/// cache; a network fetch checks the host's entry out at its start and
/// back in only when the body has been read in full.
pub open spec fn load_transition<S>(
    pre_cache: Map<Seq<char>, S>,
    pre_state: FetchState,
    event: FetchEvent<S>,
    post_cache: Map<Seq<char>, S>,
    post_state: FetchState,
    action: FetchAction<S>,
) -> bool {
    match (pre_state, event) {
        (FetchState::Idle, FetchEvent::Start { url }) => {
            if spec_is_file(url.scheme@) {
                &&& post_cache == pre_cache
                &&& post_state is FileWait
                &&& action matches FetchAction::OpenFile { path } && path@ == url.path@
            } else {
                &&& post_cache == pre_cache.remove(url.host@)
                &&& post_state matches FetchState::StatusWait { host } && host@ == url.host@
                &&& action matches FetchAction::Request { cached, host, port, tls, request }
                    && host@ == url.host@ && port == spec_port(url.scheme@) && tls == spec_is_tls(
                    url.scheme@,
                ) && request@ == spec_request(url.host@, url.path@) && (if pre_cache.contains_key(
                    url.host@,
                ) {
                    cached matches Some(s) && s == pre_cache[url.host@]
                } else {
                    cached is None
                })
            }
        },
        (FetchState::FileWait, FetchEvent::FileBody { bytes }) => {
            &&& post_cache == pre_cache
            &&& post_state is Idle
            &&& action matches FetchAction::Done { text } && text@ == spec_extract(
                lossy_decode(bytes@),
            )
        },
        (FetchState::StatusWait { host }, FetchEvent::Line { text }) => {
            &&& post_cache == pre_cache
            &&& post_state matches FetchState::HeaderWait { host: h, content_length } && h@
                == host@ && content_length == 0
            &&& action is ReadLine
        },
        (FetchState::StatusWait { .. }, FetchEvent::Eof) => {
            &&& post_cache == pre_cache
            &&& post_state is Idle
            &&& action matches FetchAction::Fail { error } && error is Framing
        },
        (FetchState::HeaderWait { host, content_length }, FetchEvent::Line { text }) => {
            &&& post_cache == pre_cache
            &&& if spec_trim(text@).len() == 0 {
                &&& post_state matches FetchState::BodyWait { host: h, content_length: c } && h@
                    == host@ && c == content_length
                &&& action matches FetchAction::ReadBody { len } && len == content_length
            } else {
                &&& post_state matches FetchState::HeaderWait { host: h, content_length: c } && h@
                    == host@ && c == (if is_content_length_line(text@) {
                    spec_value_or_zero(spec_header_value(text@))
                } else {
                    content_length as nat
                })
                &&& action is ReadLine
            }
        },
        (FetchState::HeaderWait { .. }, FetchEvent::Eof) => {
            &&& post_cache == pre_cache
            &&& post_state is Idle
            &&& action matches FetchAction::Fail { error } && error is Framing
        },
        (FetchState::BodyWait { host, content_length }, FetchEvent::Body { bytes, stream }) => {
            &&& post_cache == pre_cache.insert(host@, stream)
            &&& post_state is Idle
            &&& action matches FetchAction::Done { text } && text@ == spec_extract(
                lossy_decode(bytes@),
            )
        },
        (_, FetchEvent::Failed { error: e }) => {
            &&& post_cache == pre_cache
            &&& post_state is Idle
            &&& action matches FetchAction::Fail { error } && error == e
        },
        (_, _) => {
            &&& post_cache == pre_cache
            &&& post_state is Idle
            &&& action matches FetchAction::Fail { error } && error is Io
        },
    }
}

/// The fetch driver: the connection cache and the state of the fetch
/// in flight.  One driver serves one caller, across fetches, so that
/// connections opened for a host are reused by later fetches.
pub struct Fetcher<S> {
    cache: ConnectionCache<S>,
    state: FetchState,
}

impl<S> Fetcher<S> {
    /// The cache contents: host name to idle stream.
    pub closed spec fn cache_map(&self) -> Map<Seq<char>, S> {
        self.cache@
    }

    /// Where the fetch in flight stands.
    pub closed spec fn phase(&self) -> FetchState {
        self.state
    }

    /// The driver's internal invariant.
    pub closed spec fn wf(&self) -> bool {
        self.cache.wf()
    }

    /// A fresh driver: empty cache, no fetch in flight.
    pub fn new() -> (fetcher: Self)
        ensures
            fetcher.wf(),
            fetcher.cache_map() == Map::<Seq<char>, S>::empty(),
            fetcher.phase() is Idle,
    {
        Fetcher { cache: ConnectionCache::new(), state: FetchState::Idle }
    }

    /// Whether an idle stream is cached for `host`.
    pub fn cached_host(&self, host: &str) -> (r: bool)
        ensures
            r == self.cache_map().contains_key(host@),
    {
        self.cache.contains_host(host)
    }

    /// How many hosts have a cached stream.
    pub fn cache_len(&self) -> (r: usize)
        requires
            self.wf(),
        ensures
            r == self.cache_map().len(),
    {
        self.cache.len()
    }
}

/// Drives one step of a fetch: feeds the machine an event and returns
/// the next action for the caller to perform.
pub fn load<S>(fetcher: &mut Fetcher<S>, event: FetchEvent<S>) -> (action: FetchAction<S>)
    requires
        old(fetcher).wf(),
    ensures
        final(fetcher).wf(),
        load_transition(
            old(fetcher).cache_map(),
            old(fetcher).phase(),
            event,
            final(fetcher).cache_map(),
            final(fetcher).phase(),
            action,
        ),
{
    let mut st = FetchState::Idle;
    core::mem::swap(&mut st, &mut fetcher.state);
    match (st, event) {
        (FetchState::Idle, FetchEvent::Start { url }) => {
            if str_eq(url.scheme.as_str(), "file") {
                fetcher.state = FetchState::FileWait;
                FetchAction::OpenFile { path: url.path }
            } else {
                let tls = str_eq(url.scheme.as_str(), "https");
                let port: u16 = if tls {
                    443
                } else {
                    80
                };
                let cached = fetcher.cache.acquire(url.host.as_str());
                proof {
                    if !old(fetcher).cache_map().contains_key(url.host@) {
                        assert(fetcher.cache@ =~= old(fetcher).cache_map().remove(url.host@));
                    }
                }
                let request = request_text(&url);
                fetcher.state = FetchState::StatusWait { host: url.host.clone() };
                FetchAction::Request { cached, host: url.host, port, tls, request }
            }
        },
        (FetchState::FileWait, FetchEvent::FileBody { bytes }) => {
            FetchAction::Done { text: extract_text(bytes.as_slice()) }
        },
        (FetchState::StatusWait { host }, FetchEvent::Line { text: _ }) => {
            fetcher.state = FetchState::HeaderWait { host, content_length: 0 };
            FetchAction::ReadLine
        },
        (FetchState::StatusWait { .. }, FetchEvent::Eof) => {
            FetchAction::Fail { error: FetchError::Framing }
        },
        (FetchState::HeaderWait { host, content_length }, FetchEvent::Line { text }) => {
            if is_blank_line(text.as_str()) {
                fetcher.state = FetchState::BodyWait { host, content_length };
                FetchAction::ReadBody { len: content_length }
            } else {
                let content_length = match header_content_length(text.as_str()) {
                    Some(n) => n,
                    None => content_length,
                };
                fetcher.state = FetchState::HeaderWait { host, content_length };
                FetchAction::ReadLine
            }
        },
        (FetchState::HeaderWait { .. }, FetchEvent::Eof) => {
            FetchAction::Fail { error: FetchError::Framing }
        },
        (FetchState::BodyWait { host, content_length: _ }, FetchEvent::Body { bytes, stream }) => {
            let text = extract_text(bytes.as_slice());
            fetcher.cache.release(host, stream);
            FetchAction::Done { text }
        },
        (_, FetchEvent::Failed { error }) => {
            FetchAction::Fail { error }
        },
        (_, _) => {
            FetchAction::Fail { error: FetchError::Io }
        },
    }
}

/// Law: no step of a `file` fetch consults or mutates the connection
/// cache.  Such a fetch is the start step with a `file` scheme and any
/// step taken while the file read is pending; each leaves the cache
/// exactly as it was.
pub proof fn lemma_file_fetch_skips_cache<S>(
    pre_cache: Map<Seq<char>, S>,
    pre_state: FetchState,
    event: FetchEvent<S>,
    post_cache: Map<Seq<char>, S>,
    post_state: FetchState,
    action: FetchAction<S>,
)
    requires
        load_transition(pre_cache, pre_state, event, post_cache, post_state, action),
        ({
            ||| pre_state is FileWait
            ||| {
                &&& pre_state is Idle
                &&& event matches FetchEvent::Start { url } && spec_is_file(url.scheme@)
            }
        }),
    ensures
        post_cache == pre_cache,
{
}

/// Law: a network fetch started with no cached entry for its host is
/// directed to construct a new connection: the request action carries
/// no cached stream and names the port and TLS choice that the scheme
/// selects, and the cache is left as it was, there being no entry to
/// check out.  With `acquire` removing the entry it returns, this is
/// also the second half of exclusive checkout: a start while the
/// host's stream is out constructs anew rather than sharing it.
pub proof fn lemma_start_constructs_anew<S>(
    pre_cache: Map<Seq<char>, S>,
    url: Url,
    post_cache: Map<Seq<char>, S>,
    post_state: FetchState,
    action: FetchAction<S>,
)
    requires
        load_transition(
            pre_cache,
            FetchState::Idle,
            FetchEvent::Start { url },
            post_cache,
            post_state,
            action,
        ),
        !spec_is_file(url.scheme@),
        !pre_cache.contains_key(url.host@),
    ensures
        action matches FetchAction::Request { cached, host, port, tls, request } && cached is None
            && host@ == url.host@ && port == spec_port(url.scheme@) && tls == spec_is_tls(
            url.scheme@,
        ) && request@ == spec_request(url.host@, url.path@),
        post_cache == pre_cache,
{
    assert(pre_cache.remove(url.host@) =~= pre_cache);
}

/// Law: a complete network fetch returns the extraction of exactly the
/// body bytes it read, and checks its stream back in for the host, so
/// that the cache holds a drained, reusable entry.  The run here is
/// the shortest well-formed response: a status line, a blank line
/// closing the header block, and the body.
pub proof fn lemma_fetch_run_drains_and_caches<S>(
    cache0: Map<Seq<char>, S>,
    url: Url,
    cache1: Map<Seq<char>, S>,
    state1: FetchState,
    action1: FetchAction<S>,
    status: String,
    cache2: Map<Seq<char>, S>,
    state2: FetchState,
    action2: FetchAction<S>,
    blank: String,
    cache3: Map<Seq<char>, S>,
    state3: FetchState,
    action3: FetchAction<S>,
    bytes: Vec<u8>,
    stream: S,
    cache4: Map<Seq<char>, S>,
    state4: FetchState,
    action4: FetchAction<S>,
)
    requires
        !spec_is_file(url.scheme@),
        load_transition(
            cache0,
            FetchState::Idle,
            FetchEvent::Start { url },
            cache1,
            state1,
            action1,
        ),
        load_transition(cache1, state1, FetchEvent::Line { text: status }, cache2, state2, action2),
        spec_trim(blank@).len() == 0,
        load_transition(cache2, state2, FetchEvent::Line { text: blank }, cache3, state3, action3),
        load_transition(cache3, state3, FetchEvent::Body { bytes, stream }, cache4, state4, action4),
    ensures
        action4 matches FetchAction::Done { text } && text@ == spec_extract(lossy_decode(bytes@)),
        cache4 == cache0.remove(url.host@).insert(url.host@, stream),
        cache4.contains_key(url.host@),
        cache4[url.host@] == stream,
        state4 is Idle,
{
    let h3 = state3->BodyWait_host;
    assert(cache3.insert(h3@, stream) =~= cache0.remove(url.host@).insert(url.host@, stream));
}

/// Law: two consecutive fetches to the same host share one
/// connection, and so one TLS handshake.  When a fetch's body step
/// hands its stream back, the cache holds that stream for the host;
/// a network fetch to the same host started next is offered exactly
/// that stream for reuse instead of a new connection.
pub proof fn lemma_consecutive_fetch_reuses_stream<S>(
    cache0: Map<Seq<char>, S>,
    host: String,
    content_length: usize,
    bytes: Vec<u8>,
    stream: S,
    cache1: Map<Seq<char>, S>,
    state1: FetchState,
    action1: FetchAction<S>,
    url: Url,
    cache2: Map<Seq<char>, S>,
    state2: FetchState,
    action2: FetchAction<S>,
)
    requires
        load_transition(
            cache0,
            FetchState::BodyWait { host, content_length },
            FetchEvent::Body { bytes, stream },
            cache1,
            state1,
            action1,
        ),
        load_transition(cache1, state1, FetchEvent::Start { url }, cache2, state2, action2),
        url.host@ == host@,
        !spec_is_file(url.scheme@),
    ensures
        cache1.contains_key(host@),
        cache1[host@] == stream,
        action2 matches FetchAction::Request { cached, .. } && cached == Some(stream),
{
}

} // verus!
