//! Responses: a header and an optional body.

use vstd::prelude::*;
use vstd::utf8::encode_utf8;
use crate::error::GemError;
use crate::types::body::Body;
use crate::types::document::render;
use crate::types::document::Document;
use crate::types::meta::lossy_meta;
use crate::types::meta::meta_wf;
use crate::types::meta::Meta;
use crate::types::response_header::ResponseHeader;

verus! {

/// A response: its header, and an optional body that the serializer takes
/// out when it writes the response.
pub struct Response {
    header: ResponseHeader,
    body: Option<Body>,
}

impl Response {
    /// The response's header.
    pub closed spec fn spec_header(&self) -> ResponseHeader {
        self.header
    }

    /// The response's body, when one is attached.
    pub closed spec fn spec_body(&self) -> Option<Body> {
        self.body
    }

    /// A response with the given header and no body.
    pub fn new(header: ResponseHeader) -> (r: Response)
        ensures
            r.spec_header() == header,
            r.spec_body() is None,
    {
        Response { header, body: None }
    }

    /// A successful `text/gemini` response carrying the serialized document
    /// as its body.
    pub fn document(document: &Document) -> (r: Response)
        ensures
            r.spec_header().status@ == 20,
            r.spec_header().meta@ == lossy_meta("text/gemini"@, Meta::MAX_LEN as int),
            r.spec_header().wf(),
            r.spec_body() matches Some(Body::Bytes(bytes)) && bytes@ == encode_utf8(
                render(document@),
            ),
    {
        Self::success_gemini(Body::from_document(document))
    }

    /// Status 10 with the prompt as meta; fails when the prompt violates
    /// the meta invariant.
    pub fn input(prompt: &str) -> (r: Result<Response, GemError>)
        ensures
            r is Ok <==> meta_wf(prompt@),
            r matches Ok(resp) ==> resp.spec_header().status@ == 10 && resp.spec_header().meta@
                == prompt@ && resp.spec_header().wf() && resp.spec_body() is None,
            r matches Err(e) ==> e == GemError::InvalidMeta,
    {
        match ResponseHeader::input(prompt) {
            Ok(header) => Ok(Self::new(header)),
            Err(e) => Err(e),
        }
    }

    /// Status 10 with the prompt as meta, truncated to fit the invariant.
    pub fn input_lossy(prompt: &str) -> (r: Response)
        ensures
            r.spec_header().status@ == 10,
            r.spec_header().meta@ == lossy_meta(prompt@, Meta::MAX_LEN as int),
            r.spec_header().wf(),
            r.spec_body() is None,
    {
        Self::new(ResponseHeader::input_lossy(prompt))
    }

    /// Status 30 with the parsed redirect location as meta; an unparseable
    /// location falls back to a bad-request response.
    pub fn redirect_temporary_lossy(location: &str) -> (r: Response)
        ensures
            r.spec_header().wf(),
            r.spec_body() is None,
            match crate::bindings::uri_display(location@) {
                Some(loc) => r.spec_header().status@ == 30 && r.spec_header().meta@ == lossy_meta(
                    loc,
                    Meta::MAX_LEN as int,
                ),
                None => r.spec_header().status@ == 59 && r.spec_header().meta@ == lossy_meta(
                    "Invalid redirect location"@,
                    Meta::MAX_LEN as int,
                ),
            },
    {
        Self::new(ResponseHeader::redirect_temporary_lossy(location))
    }

    /// A successful response with the given body and MIME.
    pub fn success(mime: &mime::Mime, body: Body) -> (r: Response)
        ensures
            r.spec_header().status@ == 20,
            r.spec_header().wf(),
            r.spec_body() == Some(body),
    {
        Response { header: ResponseHeader::success(mime), body: Some(body) }
    }

    /// A successful response with the given body and MIME string.
    pub fn success_from_str(mime: &str, body: Body) -> (r: Response)
        ensures
            r.spec_header().status@ == 20,
            r.spec_header().meta@ == lossy_meta(mime@, Meta::MAX_LEN as int),
            r.spec_header().wf(),
            r.spec_body() == Some(body),
    {
        Response { header: ResponseHeader::success_from_str(mime), body: Some(body) }
    }

    /// A successful response with a `text/gemini` MIME.
    pub fn success_gemini(body: Body) -> (r: Response)
        ensures
            r.spec_header().status@ == 20,
            r.spec_header().meta@ == lossy_meta("text/gemini"@, Meta::MAX_LEN as int),
            r.spec_header().wf(),
            r.spec_body() == Some(body),
    {
        Self::success_from_str("text/gemini", body)
    }

    /// A successful response with a `text/plain` MIME.
    pub fn success_plain(body: Body) -> (r: Response)
        ensures
            r.spec_header().status@ == 20,
            r.spec_header().meta@ == lossy_meta("text/plain"@, Meta::MAX_LEN as int),
            r.spec_header().wf(),
            r.spec_body() == Some(body),
    {
        Self::success_from_str("text/plain", body)
    }

    /// Status 50 with the reason as meta; fails when the reason violates
    /// the meta invariant.
    pub fn server_error(reason: &str) -> (r: Result<Response, GemError>)
        ensures
            r is Ok <==> meta_wf(reason@),
            r matches Ok(resp) ==> resp.spec_header().status@ == 50 && resp.spec_header().meta@
                == reason@ && resp.spec_header().wf() && resp.spec_body() is None,
            r matches Err(e) ==> e == GemError::InvalidMeta,
    {
        match ResponseHeader::server_error(reason) {
            Ok(header) => Ok(Self::new(header)),
            Err(e) => Err(e),
        }
    }

    /// Status 51 with the fixed meta `Not found`.
    pub fn not_found() -> (r: Response)
        ensures
            r.spec_header().status@ == 51,
            r.spec_header().meta@ == lossy_meta("Not found"@, Meta::MAX_LEN as int),
            r.spec_header().wf(),
            r.spec_body() is None,
    {
        Self::new(ResponseHeader::not_found())
    }

    /// Status 59 with the reason as meta, truncated to fit the invariant.
    pub fn bad_request_lossy(reason: &str) -> (r: Response)
        ensures
            r.spec_header().status@ == 59,
            r.spec_header().meta@ == lossy_meta(reason@, Meta::MAX_LEN as int),
            r.spec_header().wf(),
            r.spec_body() is None,
    {
        Self::new(ResponseHeader::bad_request_lossy(reason))
    }

    /// Status 60 with the fixed meta `No certificate provided`.
    pub fn client_certificate_required() -> (r: Response)
        ensures
            r.spec_header().status@ == 60,
            r.spec_header().meta@ == lossy_meta("No certificate provided"@, Meta::MAX_LEN as int),
            r.spec_header().wf(),
            r.spec_body() is None,
    {
        Self::new(ResponseHeader::client_certificate_required())
    }

    /// Status 61 with a fixed meta explaining the refusal.
    pub fn certificate_not_authorized() -> (r: Response)
        ensures
            r.spec_header().status@ == 61,
            r.spec_header().meta@ == lossy_meta(
                "Your certificate is not authorized to view this content"@,
                Meta::MAX_LEN as int,
            ),
            r.spec_header().wf(),
            r.spec_body() is None,
    {
        Self::new(ResponseHeader::certificate_not_authorized())
    }

    /// The response with its body replaced.
    pub fn with_body(self, body: Body) -> (r: Response)
        ensures
            r.spec_header() == self.spec_header(),
            r.spec_body() == Some(body),
    {
        Response { header: self.header, body: Some(body) }
    }

    /// The response's header.
    pub fn header(&self) -> (h: &ResponseHeader)
        ensures
            *h == self.spec_header(),
    {
        &self.header
    }

    /// Moves the body out, leaving none behind; the serializer calls this
    /// once per response.
    pub fn take_body(&mut self) -> (b: Option<Body>)
        ensures
            b == old(self).spec_body(),
            final(self).spec_body() is None,
            final(self).spec_header() == old(self).spec_header(),
    {
        self.body.take()
    }
}

} // verus!
