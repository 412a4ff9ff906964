//! The wire codec and the timeout policy of the per-connection engine.
//!
//! The engine's host reads the raw request line from the TLS stream — at
//! most `REQUEST_URI_MAX_LEN + 2` bytes, up to and including the first line
//! feed — and hands the bytes here; it writes back exactly the bytes this
//! module serializes.

use vstd::prelude::*;
use vstd::utf8::encode_utf8;
use crate::bindings;
use crate::error::GemError;
use crate::strutil::lemma_utf8_len_is_encoding_len;
use crate::strutil::str_eq;
use crate::strutil::utf8_len;
use crate::types::meta::Meta;
use crate::types::request::Request;
use crate::types::response_header::ResponseHeader;
use crate::types::status::spec_category;
use crate::REQUEST_URI_MAX_LEN;

verus! {

/// Whether the bytes of a read request line end with CRLF.
pub open spec fn crlf_terminated(line: Seq<u8>) -> bool {
    line.len() >= 2 && line[line.len() - 2] == 13 && line[line.len() - 1] == 10
}

/// The framing decision on a request line.
///
/// `line` is everything the reader collected: at most
/// `REQUEST_URI_MAX_LEN + 2` bytes, up to and including the first line feed.
/// A line that ends with CRLF yields the URI bytes before it. Anything else
/// failed: with `BadFraming` when no more than `REQUEST_URI_MAX_LEN` bytes
/// were read (the client stopped short of a proper ending), and with
/// `UriTooLong` when the read hit the limit first.
pub fn frame_request_line(line: &Vec<u8>) -> (r: Result<Vec<u8>, GemError>)
    requires
        line@.len() <= REQUEST_URI_MAX_LEN + 2,
    ensures
        r is Ok <==> crlf_terminated(line@),
        r matches Ok(uri) ==> uri@ == line@.subrange(0, line@.len() - 2),
        r matches Err(e) ==> {
            &&& (e == GemError::BadFraming <==> line@.len() <= REQUEST_URI_MAX_LEN)
            &&& (e == GemError::UriTooLong <==> line@.len() > REQUEST_URI_MAX_LEN)
        },
{
    let n = line.len();
    if n >= 2 && line[n - 2] == 13 && line[n - 1] == 10 {
        let mut uri: Vec<u8> = Vec::new();
        let mut i: usize = 0;
        proof {
            assert(uri@ =~= line@.subrange(0, 0));
        }
        while i < n - 2
            invariant
                n == line@.len(),
                2 <= n,
                i <= n - 2,
                uri@ == line@.subrange(0, i as int),
            decreases n - i,
        {
            let ghost pre = uri@;
            uri.push(line[i]);
            proof {
                assert(uri@ =~= line@.subrange(0, i + 1));
            }
            i += 1;
        }
        Ok(uri)
    } else if n <= REQUEST_URI_MAX_LEN {
        Err(GemError::BadFraming)
    } else {
        Err(GemError::UriTooLong)
    }
}

/// The full parse of a request line: framing, URI parse, then request
/// construction.
///
/// The framing errors are as in [`frame_request_line`]. A framed line whose
/// URI does not parse fails with `InvalidUri`; one whose query is not valid
/// UTF-8 after percent decoding fails with `InvalidRequest`; every other
/// framed line yields the request built from the normalized URI, with the
/// decoded query as its input and the URI's path segments captured.
pub fn parse_request_line(line: &Vec<u8>) -> (r: Result<Request, GemError>)
    requires
        line@.len() <= REQUEST_URI_MAX_LEN + 2,
    ensures
        !crlf_terminated(line@) ==> r is Err && (r matches Err(e) ==> {
            &&& (e == GemError::BadFraming <==> line@.len() <= REQUEST_URI_MAX_LEN)
            &&& (e == GemError::UriTooLong <==> line@.len() > REQUEST_URI_MAX_LEN)
        }),
        crlf_terminated(line@) ==> {
            let uri_bytes = line@.subrange(0, line@.len() - 2);
            &&& (r matches Err(e) ==> e == GemError::InvalidUri || e == GemError::InvalidRequest)
            &&& (r matches Err(e) && e == GemError::InvalidUri <==> !bindings::uri_parse_ok(
                uri_bytes,
            ))
            &&& (bindings::uri_parse_ok(uri_bytes) ==> (r is Ok <==> match bindings::uri_query_of(
                uri_bytes,
            ) {
                Some(q) => bindings::pct_decode_utf8(q) is Some,
                None => true,
            }))
            &&& (r matches Ok(req) ==> {
                &&& bindings::uri_parse_ok(uri_bytes)
                &&& req.spec_input() == match bindings::uri_query_of(uri_bytes) {
                    Some(q) => bindings::pct_decode_utf8(q),
                    None => None::<Seq<char>>,
                }
                &&& req.spec_raw_segments() == bindings::uri_segments_of(uri_bytes)
                &&& req.spec_certificate() is None
                &&& req.spec_trailing() is None
            })
        },
{
    let uri_bytes = match frame_request_line(line) {
        Ok(bytes) => bytes,
        Err(e) => {
            return Err(e);
        },
    };
    match bindings::parse_uri_components(uri_bytes.as_slice()) {
        Some((uri, query, segments)) => match Request::from_components(uri, query, segments, None) {
            Ok(req) => Ok(req),
            Err(e) => Err(e),
        },
        None => Err(GemError::InvalidUri),
    }
}

/// The bytes of a response header on the wire: two status digits, a space,
/// the UTF-8 encoding of the meta, and CRLF.
pub open spec fn header_wire_bytes(code: u8, meta: Seq<char>) -> Seq<u8> {
    seq![(0x30 + code / 10) as u8, (0x30 + code % 10) as u8, 32u8] + encode_utf8(meta) + seq![
        13u8,
        10u8,
    ]
}

/// Serializes a response header for the wire. The meta invariant bounds the
/// result: at most five bytes of framing around at most `Meta::MAX_LEN`
/// bytes of meta.
pub fn serialize_response_header(header: &ResponseHeader) -> (r: Vec<u8>)
    requires
        header.status@ < 100,
    ensures
        r@ == header_wire_bytes(header.status@, header.meta@),
        r@.len() == 5 + utf8_len(header.meta@),
        header.meta.wf() ==> r@.len() <= 5 + Meta::MAX_LEN,
{
    proof {
        lemma_utf8_len_is_encoding_len(header.meta@);
    }
    let code = header.status.code();
    let mut out: Vec<u8> = Vec::new();
    out.push(0x30 + code / 10);
    out.push(0x30 + code % 10);
    out.push(32);
    let mut meta_bytes = header.meta.as_str().as_bytes_vec();
    out.append(&mut meta_bytes);
    out.push(13);
    out.push(10);
    proof {
        assert(out@ =~= header_wire_bytes(header.status@, header.meta@));
    }
    out
}

/// The deadlines for sending one response, each in milliseconds and each
/// either active or inactive. Either `overall` bounds the whole send, or
/// `header` bounds the header write while `body` bounds the body write.
#[derive(Debug, Clone, Copy, PartialEq, Eq, Structural)]
pub struct SendPlan {
    pub overall: Option<u64>,
    pub header: Option<u64>,
    pub body: Option<u64>,
}

/// Whether a response earns the extended body budget: a successful response
/// with a body whose meta is neither `text/plain` nor `text/gemini`, while
/// an extended budget is configured.
pub open spec fn is_complex(status: u8, meta: Seq<char>, has_body: bool, complex_ms: Option<
    u64,
>) -> bool {
    &&& spec_category(status) is Success
    &&& has_body
    &&& meta != "text/plain"@
    &&& meta != "text/gemini"@
    &&& complex_ms is Some
}

/// Picks the deadlines for sending a response.
///
/// A complex response gets the base budget for its header and the extended
/// budget for its body, in addition; every other response gets one base
/// budget for the whole send. The two are never combined into a single
/// wall-clock bound.
pub fn plan_send_timeouts(
    header: &ResponseHeader,
    has_body: bool,
    base_ms: u64,
    complex_ms: Option<u64>,
) -> (r: SendPlan)
    ensures
        is_complex(header.status@, header.meta@, has_body, complex_ms) ==> r == (SendPlan {
            overall: None,
            header: Some(base_ms),
            body: complex_ms,
        }),
        !is_complex(header.status@, header.meta@, has_body, complex_ms) ==> r == (SendPlan {
            overall: Some(base_ms),
            header: None,
            body: None,
        }),
{
    let complex = header.status.is_success() && has_body && !str_eq(
        header.meta.as_str(),
        "text/plain",
    ) && !str_eq(header.meta.as_str(), "text/gemini") && complex_ms.is_some();
    if complex {
        SendPlan { overall: None, header: Some(base_ms), body: complex_ms }
    } else {
        SendPlan { overall: Some(base_ms), header: None, body: None }
    }
}

} // verus!
