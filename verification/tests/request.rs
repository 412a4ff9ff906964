use std::convert::TryFrom;
use twinstar::Certificate;
use twinstar::Request;

fn uri(s: &str) -> uriparse::URIReference<'static> {
    uriparse::URIReference::try_from(s).unwrap().into_owned()
}

#[test]
fn query_becomes_the_percent_decoded_input() {
    let request = Request::from_uri(uri("gemini://h/echo?hello%20world")).unwrap();
    assert_eq!(request.input(), Some("hello world"));

    let request = Request::from_uri(uri("gemini://h/echo")).unwrap();
    assert_eq!(request.input(), None);
}

#[test]
fn components_decide_success_and_input() {
    let request = Request::from_components(
        uri("gemini://h/a"),
        Some("hello%20world".to_string()),
        vec!["a".to_string()],
        None,
    )
    .unwrap();
    assert_eq!(request.input(), Some("hello world"));
    assert_eq!(request.path_segments(), vec!["a"]);

    assert!(Request::from_components(uri("gemini://h/a"), None, vec![], None).is_ok());
    assert!(
        Request::from_components(uri("gemini://h/a"), Some("%ff".to_string()), vec![], None)
            .is_err()
    );
}

#[test]
fn undecodable_query_is_rejected() {
    assert!(Request::from_uri(uri("gemini://h/echo?%ff")).is_err());
}

#[test]
fn path_segments_are_percent_decoded() {
    let request = Request::from_uri(uri("gemini://h/api/v1/two%20words")).unwrap();
    assert_eq!(request.path_segments(), vec!["api", "v1", "two words"]);
}

#[test]
fn certificates_travel_with_the_request() {
    let cert = Certificate(vec![1, 2, 3]);
    let request = Request::with_certificate(uri("gemini://h/"), Some(cert)).unwrap();
    assert_eq!(request.certificate(), Some(&Certificate(vec![1, 2, 3])));

    let mut request = request;
    request.set_cert(None);
    assert!(request.certificate().is_none());
}

#[test]
fn trailing_segments_are_what_the_dispatcher_set() {
    let mut request = Request::from_uri(uri("gemini://h/files/raw/x.txt")).unwrap();
    request.set_trailing(vec!["x.txt".to_string()]);
    assert_eq!(request.trailing_segments(), &vec!["x.txt".to_string()]);
}

#[test]
fn the_uri_is_normalized_on_construction() {
    let request = Request::from_uri(uri("gemini://EXAMPLE.org/a/../b")).unwrap();
    assert_eq!(request.uri().to_string(), "gemini://example.org/b");
}
