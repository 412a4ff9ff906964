//! The error taxonomy of the library.
//!
//! All of these are internal: none crosses the wire literally. Connection
//! errors are logged by the host program and close the connection; handler
//! failures are converted to a permanent-failure response.

use vstd::prelude::*;

verus! {

/// The phase of a connection in which a deadline elapsed.
#[derive(Debug, Clone, Copy, PartialEq, Eq, Structural)]
pub enum TimeoutPhase {
    /// TLS handshake and request line were not delivered in time.
    Request,
    /// The response header could not be written in time.
    ResponseHeader,
    /// The response body could not be written in time.
    ResponseBody,
    /// Header and body together could not be written in time.
    ResponseOverall,
}

/// Everything that can go wrong while serving one connection or while
/// constructing a value with an invariant.
#[derive(Debug, Clone, Copy, PartialEq, Eq, Structural)]
pub enum GemError {
    /// The request line was not terminated with CRLF within the limit.
    BadFraming,
    /// The request line exceeded `REQUEST_URI_MAX_LEN` bytes before CRLF.
    UriTooLong,
    /// The request line is not a parseable URI reference.
    InvalidUri,
    /// The URI query is not valid UTF-8 after percent decoding.
    InvalidRequest,
    /// The TLS session could not be established.
    TlsHandshake,
    /// A deadline elapsed in the given phase.
    Timeout(TimeoutPhase),
    /// An underlying read or write failed.
    Io,
    /// The handler returned an error or panicked.
    HandlerError,
    /// An attempt to construct a header value violating its invariants.
    InvalidMeta,
    /// Two handlers were registered for the same normalized path.
    ConflictingRoute,
}

} // verus!
