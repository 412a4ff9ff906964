//! Requests: the parsed URI and what the engine attaches to it.

use vstd::prelude::*;
use crate::bindings;
use crate::error::GemError;

verus! {

/// A client certificate as the engine hands it over: the raw DER bytes of
/// the first certificate of the peer's chain. The library never reads into
/// the bytes; handlers apply their own policy.
#[derive(Debug, Clone, PartialEq, Eq)]
pub struct Certificate(pub Vec<u8>);

impl View for Certificate {
    type V = Seq<u8>;

    open spec fn view(&self) -> Seq<u8> {
        self.0@
    }
}

/// Whether `decoded` is `raw` with every segment percent-decoded, invalid
/// UTF-8 replaced.
pub open spec fn lossy_decoded(decoded: Seq<Seq<char>>, raw: Seq<Seq<char>>) -> bool {
    decoded.len() == raw.len() && forall|i: int|
        0 <= i < raw.len() ==> decoded[i] == bindings::pct_decode_lossy(#[trigger] raw[i])
}

/// A request: the normalized URI it asked for, its raw path segments and
/// percent-decoded query captured as plain values, the client certificate
/// when one was presented, and — once routing has run — the path segments
/// after the matched route.
pub struct Request {
    uri: uriparse::URIReference<'static>,
    raw_segments: Vec<String>,
    input: Option<String>,
    certificate: Option<Certificate>,
    trailing_segments: Option<Vec<String>>,
}

impl Request {
    /// The URI the request asked for.
    pub closed spec fn spec_uri(&self) -> uriparse::URIReference<'static> {
        self.uri
    }

    /// The URI's raw path segments, as captured at construction.
    pub closed spec fn spec_raw_segments(&self) -> Seq<Seq<char>> {
        self.raw_segments.deep_view()
    }

    /// The percent-decoded query, when the URI had one.
    pub closed spec fn spec_input(&self) -> Option<Seq<char>> {
        match self.input {
            Some(ref s) => Some(s@),
            None => None,
        }
    }

    /// The presented client certificate's bytes, when there was one.
    pub closed spec fn spec_certificate(&self) -> Option<Seq<u8>> {
        match self.certificate {
            Some(ref c) => Some(c@),
            None => None,
        }
    }

    /// The segments after the matched route, once routing has set them.
    pub closed spec fn spec_trailing(&self) -> Option<Seq<Seq<char>>> {
        match self.trailing_segments {
            Some(ref v) => Some(v.deep_view()),
            None => None,
        }
    }

    /// Builds a request from a parsed URI, without a certificate.
    pub fn from_uri(uri: uriparse::URIReference<'static>) -> (r: Result<Request, GemError>)
        ensures
            r matches Ok(req) ==> req.spec_certificate() is None && req.spec_trailing() is None,
            r matches Err(e) ==> e == GemError::InvalidRequest,
    {
        Self::with_certificate(uri, None)
    }

    /// Builds a request: normalizes the URI, reads its query and path
    /// segments out as plain values, and hands them to
    /// [`Request::from_components`]. Fails when a query is present but is
    /// not valid UTF-8 after percent decoding.
    pub fn with_certificate(
        uri: uriparse::URIReference<'static>,
        certificate: Option<Certificate>,
    ) -> (r: Result<Request, GemError>)
        ensures
            r matches Ok(req) ==> {
                &&& req.spec_trailing() is None
                &&& (req.spec_certificate() is Some <==> certificate is Some)
                &&& (certificate matches Some(c) ==> req.spec_certificate() == Some(c@))
            },
            r matches Err(e) ==> e == GemError::InvalidRequest,
    {
        let mut uri = uri;
        bindings::normalize_uri(&mut uri);
        let query = bindings::uri_query_string(&uri);
        let raw_segments = bindings::uri_path_segments(&uri);
        Self::from_components(uri, query, raw_segments, certificate)
    }

    /// Builds a request from a parsed URI and its components, handed over
    /// as plain values: the raw query when one was present, and the raw
    /// path segments. Fails exactly when the query is present but not valid
    /// UTF-8 after percent decoding; on success the input is the decoded
    /// query.
    pub fn from_components(
        uri: uriparse::URIReference<'static>,
        query: Option<String>,
        raw_segments: Vec<String>,
        certificate: Option<Certificate>,
    ) -> (r: Result<Request, GemError>)
        ensures
            r is Ok <==> match query {
                Some(q) => bindings::pct_decode_utf8(q@) is Some,
                None => true,
            },
            r matches Ok(req) ==> {
                &&& req.spec_uri() == uri
                &&& req.spec_input() == match query {
                    Some(q) => bindings::pct_decode_utf8(q@),
                    None => None::<Seq<char>>,
                }
                &&& req.spec_raw_segments() == raw_segments.deep_view()
                &&& req.spec_trailing() is None
                &&& req.spec_certificate() == match certificate {
                    Some(c) => Some(c@),
                    None => None::<Seq<u8>>,
                }
            },
            r matches Err(e) ==> e == GemError::InvalidRequest,
    {
        let input: Option<String> = match &query {
            None => None,
            Some(q) => match bindings::percent_decode_utf8(q.as_str()) {
                Some(text) => Some(text),
                None => {
                    return Err(GemError::InvalidRequest);
                },
            },
        };
        Ok(Request { uri, raw_segments, input, certificate, trailing_segments: None })
    }

    /// The request's URI.
    pub fn uri(&self) -> (r: &uriparse::URIReference<'static>)
        ensures
            *r == self.spec_uri(),
    {
        &self.uri
    }

    /// The path segments after the matched route. The dispatcher sets them
    /// before handing the request over, so a handler may rely on them; a
    /// hand-built request must have them set first.
    pub fn trailing_segments(&self) -> (r: &Vec<String>)
        requires
            self.spec_trailing() is Some,
        ensures
            Some(r.deep_view()) == self.spec_trailing(),
    {
        match &self.trailing_segments {
            Some(v) => v,
            None => vstd::pervasive::unreached(),
        }
    }

    /// All the URI's path segments, each percent-decoded with invalid UTF-8
    /// replaced.
    pub fn path_segments(&self) -> (r: Vec<String>)
        ensures
            lossy_decoded(r.deep_view(), self.spec_raw_segments()),
    {
        Self::decode_segments(&self.raw_segments)
    }

    /// Percent-decodes each segment, replacing invalid UTF-8.
    pub fn decode_segments(segs: &Vec<String>) -> (r: Vec<String>)
        ensures
            r.deep_view().len() == segs.deep_view().len(),
            forall|i: int|
                0 <= i < segs.deep_view().len() ==> r.deep_view()[i] == bindings::pct_decode_lossy(
                    #[trigger] segs.deep_view()[i],
                ),
    {
        let ghost dv = segs.deep_view();
        let mut out: Vec<String> = Vec::new();
        let mut i: usize = 0;
        while i < segs.len()
            invariant
                dv == segs.deep_view(),
                dv.len() == segs@.len(),
                i <= segs@.len(),
                out.deep_view().len() == i,
                forall|k: int|
                    0 <= k < i ==> out.deep_view()[k] == bindings::pct_decode_lossy(
                        #[trigger] dv[k],
                    ),
            decreases segs@.len() - i,
        {
            let ghost out_pre = out.deep_view();
            let decoded = bindings::percent_decode_lossy(segs[i].as_str());
            out.push(decoded);
            proof {
                assert(out.deep_view() =~= out_pre.push(
                    bindings::pct_decode_lossy(dv[i as int]),
                ));
            }
            i += 1;
        }
        out
    }

    /// The percent-decoded query, when the URI had one.
    pub fn input(&self) -> (r: Option<&str>)
        ensures
            match r {
                Some(s) => self.spec_input() == Some(s@),
                None => self.spec_input() is None,
            },
    {
        match &self.input {
            Some(s) => Some(s.as_str()),
            None => None,
        }
    }

    /// Replaces the client certificate.
    pub fn set_cert(&mut self, cert: Option<Certificate>)
        ensures
            final(self).spec_certificate() == match cert {
                Some(c) => Some(c@),
                None => None::<Seq<u8>>,
            },
            final(self).spec_uri() == old(self).spec_uri(),
            final(self).spec_input() == old(self).spec_input(),
            final(self).spec_raw_segments() == old(self).spec_raw_segments(),
            final(self).spec_trailing() == old(self).spec_trailing(),
    {
        self.certificate = cert;
    }

    /// Sets the trailing segments; the dispatcher calls this before the
    /// handler runs.
    pub fn set_trailing(&mut self, segments: Vec<String>)
        ensures
            final(self).spec_trailing() == Some(segments.deep_view()),
            final(self).spec_uri() == old(self).spec_uri(),
            final(self).spec_input() == old(self).spec_input(),
            final(self).spec_raw_segments() == old(self).spec_raw_segments(),
            final(self).spec_certificate() == old(self).spec_certificate(),
    {
        self.trailing_segments = Some(segments);
    }

    /// The client certificate, when one was presented.
    pub fn certificate(&self) -> (r: Option<&Certificate>)
        ensures
            match r {
                Some(c) => self.spec_certificate() == Some(c@),
                None => self.spec_certificate() is None,
            },
    {
        match &self.certificate {
            Some(c) => Some(c),
            None => None,
        }
    }
}

} // verus!
