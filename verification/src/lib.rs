//! A small server library for the Gemini protocol.
//!
//! The verified core covers the validated header values ([`types::Meta`],
//! [`types::Status`], [`types::ResponseHeader`]), the `text/gemini` document
//! builder ([`types::Document`]), the prefix-matching routing tree
//! ([`routing::RoutingNode`]), and the wire-codec and timeout decisions of the
//! per-connection engine ([`codec`]). The TLS acceptor and the socket loops
//! live with the host program, which hands this crate plain bytes and values.

use vstd::prelude::*;

pub mod bindings;
pub mod codec;
pub mod error;
pub mod routing;
pub mod strutil;
pub mod types;

pub use error::GemError;
pub use error::TimeoutPhase;
pub use types::document;
pub use types::Body;
pub use types::Certificate;
pub use types::Document;
pub use types::Meta;
pub use types::Request;
pub use types::Response;
pub use types::ResponseHeader;
pub use types::Status;
pub use types::StatusCategory;

verus! {

/// Longest request URI, in bytes, that a server accepts.
pub const REQUEST_URI_MAX_LEN: usize = 1024;

/// Default TCP port of the protocol.
pub const GEMINI_PORT: u16 = 1965;

/// MIME type of Gemini documents.
pub const GEMINI_MIME_STR: &'static str = "text/gemini";

/// The MIME of Gemini documents, parsed by the `mime` crate.
pub fn gemini_mime() -> (r: Result<mime::Mime, GemError>)
    ensures
        r is Ok <==> bindings::mime_parses("text/gemini"@),
{
    match bindings::parse_mime("text/gemini") {
        Some(mime) => Ok(mime),
        None => Err(GemError::InvalidMeta),
    }
}

} // verus!
