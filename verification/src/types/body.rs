//! Response bodies.

use vstd::prelude::*;
use vstd::utf8::encode_utf8;
use crate::types::document::render;
use crate::types::document::Document;

verus! {

/// The body of a response: bytes held in memory, or a file that the engine
/// streams to the client in chunks.
pub enum Body {
    Bytes(Vec<u8>),
    Reader(tokio::fs::File),
}

impl Body {
    /// A body holding raw bytes.
    pub fn from_bytes(bytes: Vec<u8>) -> (b: Body)
        ensures
            b == (Body::Bytes(bytes)),
    {
        Body::Bytes(bytes)
    }

    /// A body holding UTF-8 text.
    pub fn from_text(text: &str) -> (b: Body)
        ensures
            b matches Body::Bytes(v) && v@ == encode_utf8(text@),
    {
        Body::Bytes(text.as_bytes_vec())
    }

    /// A body holding the serialized form of a document.
    pub fn from_document(document: &Document) -> (b: Body)
        ensures
            b matches Body::Bytes(v) && v@ == encode_utf8(render(document@)),
    {
        let text = document.to_string();
        Body::Bytes(text.as_str().as_bytes_vec())
    }

    /// A body streaming a file.
    pub fn from_reader(file: tokio::fs::File) -> (b: Body)
        ensures
            b is Reader,
    {
        Body::Reader(file)
    }
}

} // verus!
