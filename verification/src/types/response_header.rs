//! Response headers and their named constructors.

use vstd::prelude::*;
use crate::bindings;
use crate::error::GemError;
use crate::types::meta::lossy_meta;
use crate::types::meta::meta_wf;
use crate::types::meta::Meta;
use crate::types::status::Status;

verus! {

/// A response header: a status code and the meta text that follows it on the
/// wire. The named constructors pick the status the protocol assigns to each
/// situation and always establish the meta invariant.
#[derive(Debug, Clone)]
pub struct ResponseHeader {
    pub status: Status,
    pub meta: Meta,
}

impl ResponseHeader {
    /// The header's status is one of the defined codes and its meta satisfies
    /// the meta invariant.
    pub open spec fn wf(self) -> bool {
        self.status.valid() && self.meta.wf()
    }

    /// Status 10 with the prompt as meta; fails when the prompt violates the
    /// meta invariant.
    pub fn input(prompt: &str) -> (r: Result<Self, GemError>)
        ensures
            r is Ok <==> meta_wf(prompt@),
            r matches Ok(h) ==> h.status@ == 10 && h.meta@ == prompt@ && h.wf(),
            r matches Err(e) ==> e == GemError::InvalidMeta,
    {
        match Meta::new(prompt) {
            Ok(meta) => Ok(ResponseHeader { status: Status::input(), meta }),
            Err(e) => Err(e),
        }
    }

    /// Status 10 with the prompt as meta, truncated to fit the invariant.
    pub fn input_lossy(prompt: &str) -> (h: Self)
        ensures
            h.status@ == 10,
            h.meta@ == lossy_meta(prompt@, Meta::MAX_LEN as int),
            h.wf(),
    {
        ResponseHeader { status: Status::input(), meta: Meta::new_lossy(prompt) }
    }

    /// Status 20 with the given MIME string as meta, truncated to fit the
    /// invariant.
    pub fn success_from_str(mime: &str) -> (h: Self)
        ensures
            h.status@ == 20,
            h.meta@ == lossy_meta(mime@, Meta::MAX_LEN as int),
            h.wf(),
    {
        ResponseHeader { status: Status::success(), meta: Meta::new_lossy(mime) }
    }

    /// Status 20 with the MIME value's textual form as meta.
    pub fn success(mime: &mime::Mime) -> (h: Self)
        ensures
            h.status@ == 20,
            h.wf(),
    {
        let text = bindings::mime_as_string(mime);
        Self::success_from_str(text.as_str())
    }

    /// Status 30 with the parsed redirect location as meta; an unparseable
    /// location falls back to a bad-request header.
    pub fn redirect_temporary_lossy(location: &str) -> (h: Self)
        ensures
            h.wf(),
            match bindings::uri_display(location@) {
                Some(loc) => h.status@ == 30 && h.meta@ == lossy_meta(loc, Meta::MAX_LEN as int),
                None => h.status@ == 59 && h.meta@ == lossy_meta(
                    "Invalid redirect location"@,
                    Meta::MAX_LEN as int,
                ),
            },
    {
        match bindings::uri_display_string(location) {
            Some(loc) => ResponseHeader {
                status: Status::redirect_temporary(),
                meta: Meta::new_lossy(loc.as_str()),
            },
            None => Self::bad_request_lossy("Invalid redirect location"),
        }
    }

    /// Status 50 with the reason as meta; fails when the reason violates the
    /// meta invariant.
    pub fn server_error(reason: &str) -> (r: Result<Self, GemError>)
        ensures
            r is Ok <==> meta_wf(reason@),
            r matches Ok(h) ==> h.status@ == 50 && h.meta@ == reason@ && h.wf(),
            r matches Err(e) ==> e == GemError::InvalidMeta,
    {
        match Meta::new(reason) {
            Ok(meta) => Ok(ResponseHeader { status: Status::permanent_failure(), meta }),
            Err(e) => Err(e),
        }
    }

    /// Status 50 with the reason as meta, truncated to fit the invariant.
    pub fn server_error_lossy(reason: &str) -> (h: Self)
        ensures
            h.status@ == 50,
            h.meta@ == lossy_meta(reason@, Meta::MAX_LEN as int),
            h.wf(),
    {
        ResponseHeader { status: Status::permanent_failure(), meta: Meta::new_lossy(reason) }
    }

    /// Status 51 with the fixed meta `Not found`.
    pub fn not_found() -> (h: Self)
        ensures
            h.status@ == 51,
            h.meta@ == lossy_meta("Not found"@, Meta::MAX_LEN as int),
            h.wf(),
    {
        ResponseHeader { status: Status::not_found(), meta: Meta::new_lossy("Not found") }
    }

    /// Status 59 with the reason as meta, truncated to fit the invariant.
    pub fn bad_request_lossy(reason: &str) -> (h: Self)
        ensures
            h.status@ == 59,
            h.meta@ == lossy_meta(reason@, Meta::MAX_LEN as int),
            h.wf(),
    {
        ResponseHeader { status: Status::bad_request(), meta: Meta::new_lossy(reason) }
    }

    /// Status 60 with the fixed meta `No certificate provided`.
    pub fn client_certificate_required() -> (h: Self)
        ensures
            h.status@ == 60,
            h.meta@ == lossy_meta("No certificate provided"@, Meta::MAX_LEN as int),
            h.wf(),
    {
        ResponseHeader {
            status: Status::client_certificate_required(),
            meta: Meta::new_lossy("No certificate provided"),
        }
    }

    /// Status 61 with a fixed meta explaining the refusal.
    pub fn certificate_not_authorized() -> (h: Self)
        ensures
            h.status@ == 61,
            h.meta@ == lossy_meta(
                "Your certificate is not authorized to view this content"@,
                Meta::MAX_LEN as int,
            ),
            h.wf(),
    {
        ResponseHeader {
            status: Status::certificate_not_authorized(),
            meta: Meta::new_lossy("Your certificate is not authorized to view this content"),
        }
    }

    /// The header's status.
    pub fn status(&self) -> (s: &Status)
        ensures
            *s == self.status,
    {
        &self.status
    }

    /// The header's meta text.
    pub fn meta(&self) -> (m: &Meta)
        ensures
            *m == self.meta,
    {
        &self.meta
    }
}

} // verus!
