//! The ways in which a fetch or a cache query can fail.

use vstd::prelude::*;

verus! {

/// Why a fetch, or a query of the cache, did not give a body.
#[derive(Debug, PartialEq, Eq, Clone, Copy, Structural)]
pub enum FetchError {
    /// The identifier has no colon after its scheme, names an unknown scheme,
    /// or has a port that is no number of sixteen bits.
    MalformedIdentifier,
    /// No connection to the host could be opened.
    ConnectFailure,
    /// The request could not be sent.
    WriteFailure,
    /// The response could not be read.
    ReadFailure,
    /// The response breaks the protocol: a bad status line or header block,
    /// broken chunk framing, or a transfer or content encoding that is not
    /// supported.
    ProtocolViolation,
    /// The last attempt that the redirect bound allows was answered with
    /// another redirect.
    TooManyRedirects,
    /// A redirect came without a `Location` header.
    MissingLocation,
    /// The body could not be decoded, or is not UTF-8 text.
    EncodingError,
    /// The cache holds no body for the request.
    NotFound,
    /// The cache was asked about a request that does not read.
    UnsupportedMethod,
}

impl FetchError {
    /// The failures after which the caller goes on: a miss of the cache sends
    /// it to a live fetch, an unsupported method past the cache.
    pub open spec fn recoverable(self) -> bool {
        self == FetchError::NotFound || self == FetchError::UnsupportedMethod
    }

    /// Whether the caller may go on after this failure.
    pub fn is_recoverable(&self) -> (yes: bool)
        ensures
            yes == self.recoverable(),
    {
        match self {
            FetchError::NotFound => true,
            FetchError::UnsupportedMethod => true,
            _ => false,
        }
    }

    /// Whether this failure ends the fetch.
    pub fn is_fatal(&self) -> (yes: bool)
        ensures
            yes == !self.recoverable(),
    {
        !self.is_recoverable()
    }

    /// A short description of the failure.
    pub open spec fn description(self) -> Seq<char> {
        match self {
            FetchError::MalformedIdentifier => "malformed identifier"@,
            FetchError::ConnectFailure => "connection failed"@,
            FetchError::WriteFailure => "request could not be sent"@,
            FetchError::ReadFailure => "response could not be read"@,
            FetchError::ProtocolViolation => "protocol violation"@,
            FetchError::TooManyRedirects => "too many redirects"@,
            FetchError::MissingLocation => "redirect without location"@,
            FetchError::EncodingError => "body is not text"@,
            FetchError::NotFound => "not in cache"@,
            FetchError::UnsupportedMethod => "method not supported"@,
        }
    }

    /// A short description, for messages to the user.
    pub fn describe(&self) -> (text: &'static str)
        ensures
            text@ == self.description(),
    {
        match self {
            FetchError::MalformedIdentifier => "malformed identifier",
            FetchError::ConnectFailure => "connection failed",
            FetchError::WriteFailure => "request could not be sent",
            FetchError::ReadFailure => "response could not be read",
            FetchError::ProtocolViolation => "protocol violation",
            FetchError::TooManyRedirects => "too many redirects",
            FetchError::MissingLocation => "redirect without location",
            FetchError::EncodingError => "body is not text",
            FetchError::NotFound => "not in cache",
            FetchError::UnsupportedMethod => "method not supported",
        }
    }
}

} // verus!
