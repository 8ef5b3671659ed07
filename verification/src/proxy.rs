//! The reverse proxy's rules: the upstream URL of a request, the headers that are not
//! forwarded in either direction, and the answers given when forwarding fails. The HTTP
//! exchange itself lies outside the library.
use crate::text::text_eq;
use vstd::prelude::*;

verus! {

/// Request headers not forwarded upstream: `Host`, `Authorization`, `Content-Length`
/// (recomputed by the HTTP client) and `X-Access-Proof` (names in lowercase, as HTTP header
/// names are held).
pub open spec fn is_stripped_request_header(name: Seq<char>) -> bool {
    name == "host"@ || name == "authorization"@ || name == "content-length"@ || name
        == "x-access-proof"@
}

/// Upstream response headers not passed back: `Content-Length`, `Transfer-Encoding` and
/// `Connection` (hop-by-hop or recomputed).
pub open spec fn is_stripped_response_header(name: Seq<char>) -> bool {
    name == "content-length"@ || name == "transfer-encoding"@ || name == "connection"@
}

/// The request headers not forwarded are exactly `host`, `authorization`, `content-length` and
/// `x-access-proof`; every other header (such as `cookie` or `accept`) is forwarded. The
/// response headers not passed back are exactly `content-length`, `transfer-encoding` and
/// `connection`; every other header (such as `set-cookie`) is passed back.
pub proof fn law_stripped_header_sets()
    ensures
        Set::new(|n: Seq<char>| is_stripped_request_header(n)) == set![
            "host"@,
            "authorization"@,
            "content-length"@,
            "x-access-proof"@,
        ],
        Set::new(|n: Seq<char>| is_stripped_response_header(n)) == set![
            "content-length"@,
            "transfer-encoding"@,
            "connection"@,
        ],
{
    assert(Set::new(|n: Seq<char>| is_stripped_request_header(n)) =~= set![
        "host"@,
        "authorization"@,
        "content-length"@,
        "x-access-proof"@,
    ]);
    assert(Set::new(|n: Seq<char>| is_stripped_response_header(n)) =~= set![
        "content-length"@,
        "transfer-encoding"@,
        "connection"@,
    ]);
}

/// The upstream URL for a request: the configured base URL followed by the request's path
/// and query.
pub fn upstream_url(upstream: &str, path_and_query: &str) -> (url: String)
    ensures
        url@ == upstream@ + path_and_query@,
{
    let mut url = upstream.to_owned();
    url.append(path_and_query);
    url
}

/// Whether a request header (lowercase name) is dropped before forwarding.
pub fn strips_request_header(name: &str) -> (b: bool)
    ensures
        b == is_stripped_request_header(name@),
{
    text_eq(name, "host") || text_eq(name, "authorization") || text_eq(name, "content-length")
        || text_eq(name, "x-access-proof")
}

/// Whether an upstream response header (lowercase name) is dropped before answering.
pub fn strips_response_header(name: &str) -> (b: bool)
    ensures
        b == is_stripped_response_header(name@),
{
    text_eq(name, "content-length") || text_eq(name, "transfer-encoding") || text_eq(
        name,
        "connection",
    )
}

/// Why a request could not be forwarded.
#[derive(Clone, Copy, Debug, PartialEq, Eq)]
pub enum ForwardFailure {
    /// The request body exceeds the configured cap.
    BodyTooLarge,
    /// The upstream request failed (connection error, timeout, …).
    UpstreamFailed,
}

impl ForwardFailure {
    /// The HTTP status answered: 413 for an oversized body, 502 for an upstream failure.
    pub fn status(&self) -> (code: u16)
        ensures
            code == (match self {
                ForwardFailure::BodyTooLarge => 413u16,
                ForwardFailure::UpstreamFailed => 502u16,
            }),
    {
        match self {
            ForwardFailure::BodyTooLarge => 413,
            ForwardFailure::UpstreamFailed => 502,
        }
    }

    /// The `error` text of the JSON body answered.
    pub fn reason(&self) -> (text: &'static str)
        ensures
            text@ == (match self {
                ForwardFailure::BodyTooLarge => "request body too large"@,
                ForwardFailure::UpstreamFailed => "upstream error"@,
            }),
    {
        match self {
            ForwardFailure::BodyTooLarge => "request body too large",
            ForwardFailure::UpstreamFailed => "upstream error",
        }
    }
}

} // verus!
