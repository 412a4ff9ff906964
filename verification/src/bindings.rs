//! The library's view of the outside crates it calls: `mime` for MIME
//! parsing, `uriparse` for URI parsing and normalization, `percent_encoding`
//! for percent decoding, and `tokio` for the streaming body source. Each
//! wrapper makes exactly one call chain into the outside crate; what the call
//! returns is either stated directly or given a name that the callers'
//! contracts use.

use vstd::prelude::*;
use std::convert::TryFrom;

verus! {

#[verifier::external_type_specification]
#[verifier::external_body]
pub struct ExMime(mime::Mime);

#[verifier::external_type_specification]
#[verifier::external_body]
pub struct ExUriReference<'a>(uriparse::URIReference<'a>);

#[verifier::external_type_specification]
#[verifier::external_body]
pub struct ExFile(tokio::fs::File);

/// Whether the `mime` crate's grammar accepts the string: what
/// `str::parse::<mime::Mime>` decides. It depends on the string alone.
pub uninterp spec fn mime_parses(s: Seq<char>) -> bool;

/// Relies on `str::parse::<mime::Mime>`: success depends on the string alone.
#[verifier::external_body]
pub fn parse_mime(s: &str) -> (r: Option<mime::Mime>)
    ensures
        r is Some <==> mime_parses(s@),
{
    s.parse::<mime::Mime>().ok()
}

/// Relies on `mime::Mime`'s `AsRef<str>`: the textual form of the MIME value.
#[verifier::external_body]
pub fn mime_as_string(m: &mime::Mime) -> String {
    m.as_ref().to_owned()
}

/// Whether `uriparse` accepts the bytes as a URI reference: what
/// `URIReference::try_from(&[u8])` decides. It depends on the bytes alone.
pub uninterp spec fn uri_parse_ok(bytes: Seq<u8>) -> bool;

/// The query component of the URI reference parsed out of the bytes, after
/// normalization, when the bytes parse. It depends on the bytes alone.
pub uninterp spec fn uri_query_of(bytes: Seq<u8>) -> Option<Seq<char>>;

/// The path segments of the URI reference parsed out of the bytes, after
/// normalization, when the bytes parse. It depends on the bytes alone.
pub uninterp spec fn uri_segments_of(bytes: Seq<u8>) -> Seq<Seq<char>>;

/// Relies on `uriparse::URIReference::try_from(&[u8])`, `into_owned`,
/// `normalize`, `query` and `Path::segments`: all deterministic in the bytes
/// alone. The normalized URI comes back with its query and path segments
/// read out as plain values.
#[verifier::external_body]
pub fn parse_uri_components(bytes: &[u8]) -> (r: Option<
    (uriparse::URIReference<'static>, Option<String>, Vec<String>),
>)
    ensures
        r is Some <==> uri_parse_ok(bytes@),
        r matches Some((uri, query, segments)) ==> {
            &&& match query {
                Some(q) => uri_query_of(bytes@) == Some(q@),
                None => uri_query_of(bytes@) is None,
            }
            &&& segments.deep_view() == uri_segments_of(bytes@)
        },
{
    match uriparse::URIReference::try_from(bytes) {
        Ok(uri) => {
            let mut uri = uri.into_owned();
            uri.normalize();
            let query = uri.query().map(|q| q.as_str().to_owned());
            let segments = uri.path().segments().iter().map(|s| s.as_str().to_owned()).collect();
            Some((uri, query, segments))
        },
        Err(_) => None,
    }
}

/// The display form of the URI reference that `uriparse` parses out of the
/// string, when the string parses. It depends on the string alone.
pub uninterp spec fn uri_display(s: Seq<char>) -> Option<Seq<char>>;

/// Relies on `uriparse::URIReference::try_from(&str)` and its `Display`:
/// both depend on the string alone. The display holds no newline, since
/// `uriparse` rejects control characters in every URI component and prints
/// what it validated, percent signs included.
#[verifier::external_body]
pub fn uri_display_string(s: &str) -> (r: Option<String>)
    ensures
        r is Some <==> uri_display(s@) is Some,
        r matches Some(t) ==> uri_display(s@) == Some(t@) && !t@.contains('\n'),
{
    match uriparse::URIReference::try_from(s) {
        Ok(uri) => Some(uri.to_string()),
        Err(_) => None,
    }
}

/// Relies on `uriparse::URIReference::normalize`: case-folds the scheme and
/// host, resolves dot segments and normalizes percent encodings in place.
#[verifier::external_body]
pub fn normalize_uri(uri: &mut uriparse::URIReference<'static>) {
    uri.normalize();
}

/// Relies on `uriparse::URIReference::query` and `Query::as_str`: the raw
/// query component, when one is present.
#[verifier::external_body]
pub fn uri_query_string(uri: &uriparse::URIReference<'static>) -> Option<String> {
    uri.query().map(|q| q.as_str().to_owned())
}

/// Relies on `uriparse::URIReference::path` and `Path::segments`: the raw
/// segments of the URI's path.
#[verifier::external_body]
pub fn uri_path_segments(uri: &uriparse::URIReference<'static>) -> Vec<String> {
    uri.path().segments().iter().map(|seg| seg.as_str().to_owned()).collect()
}

/// Relies on `uriparse::Path::to_borrowed`, `Path::normalize` and
/// `Path::segments`: the segments of the URI's path after dot-segment
/// resolution.
#[verifier::external_body]
pub fn uri_normalized_segments(uri: &uriparse::URIReference<'static>) -> Vec<String> {
    let mut path = uri.path().to_borrowed();
    path.normalize(false);
    path.segments().iter().map(|seg| seg.as_str().to_owned()).collect()
}

/// The normalized segments of the path that `uriparse` parses out of the
/// string, when the string parses. It depends on the string alone.
pub uninterp spec fn path_segments_of(s: Seq<char>) -> Option<Seq<Seq<char>>>;

/// Relies on `uriparse::Path::try_from(&str)`, `Path::normalize` and
/// `Path::segments`: all depend on the string alone.
#[verifier::external_body]
pub fn parse_path_segments(s: &str) -> (r: Option<Vec<String>>)
    ensures
        r is Some <==> path_segments_of(s@) is Some,
        r matches Some(v) ==> path_segments_of(s@) == Some(v.deep_view()),
{
    match uriparse::Path::try_from(s) {
        Ok(mut path) => {
            path.normalize(false);
            Some(path.segments().iter().map(|seg| seg.as_str().to_owned()).collect())
        },
        Err(_) => None,
    }
}

/// The percent decoding of the string, read as UTF-8 text, when the decoded
/// bytes are valid UTF-8. It depends on the string alone.
pub uninterp spec fn pct_decode_utf8(s: Seq<char>) -> Option<Seq<char>>;

/// Relies on `percent_encoding::percent_decode_str` and
/// `PercentDecode::decode_utf8`: both depend on the string alone.
#[verifier::external_body]
pub fn percent_decode_utf8(s: &str) -> (r: Option<String>)
    ensures
        r is Some <==> pct_decode_utf8(s@) is Some,
        r matches Some(t) ==> pct_decode_utf8(s@) == Some(t@),
{
    match percent_encoding::percent_decode_str(s).decode_utf8() {
        Ok(text) => Some(text.into_owned()),
        Err(_) => None,
    }
}

/// The percent decoding of the string, with invalid UTF-8 replaced by the
/// replacement character. It depends on the string alone.
pub uninterp spec fn pct_decode_lossy(s: Seq<char>) -> Seq<char>;

/// Relies on `percent_encoding::percent_decode_str` and
/// `PercentDecode::decode_utf8_lossy`: both depend on the string alone.
#[verifier::external_body]
pub fn percent_decode_lossy(s: &str) -> (r: String)
    ensures
        r@ == pct_decode_lossy(s@),
{
    percent_encoding::percent_decode_str(s).decode_utf8_lossy().into_owned()
}

} // verus!
