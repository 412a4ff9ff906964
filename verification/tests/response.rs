use twinstar::document::HeadingLevel;
use twinstar::Body;
use twinstar::Document;
use twinstar::Meta;
use twinstar::Response;
use twinstar::ResponseHeader;

#[test]
fn new_carries_the_header_and_no_body() {
    let mut response = Response::new(ResponseHeader::not_found());
    assert_eq!(response.header().status().code(), 51);
    assert!(response.take_body().is_none());
}

#[test]
fn with_body_attaches_a_body() {
    let mut response = Response::not_found().with_body(Body::from_text("gone"));
    match response.take_body() {
        Some(Body::Bytes(bytes)) => assert_eq!(bytes, b"gone".to_vec()),
        _ => panic!("expected an in-memory body"),
    }
}

#[test]
fn document_responses_serialize_the_document() {
    let mut document = Document::new();
    document.add_heading(HeadingLevel::H1, "hi");
    document.add_text("there");

    let mut response = Response::document(&document);
    assert_eq!(response.header().status().code(), 20);
    assert_eq!(response.header().meta().as_str(), "text/gemini");
    match response.take_body() {
        Some(Body::Bytes(bytes)) => assert_eq!(bytes, b"# hi\nthere\n".to_vec()),
        _ => panic!("expected an in-memory body"),
    }
}

#[test]
fn success_constructors_pick_their_metas() {
    let response = Response::success_plain(Body::from_text("hello"));
    assert_eq!(response.header().status().code(), 20);
    assert_eq!(response.header().meta().as_str(), "text/plain");

    let mime: mime::Mime = "image/png".parse().unwrap();
    let response = Response::success(&mime, Body::from_bytes(vec![0x89]));
    assert_eq!(response.header().meta().as_str(), "image/png");
}

#[test]
fn prompt_and_error_constructors_mirror_the_headers() {
    let response = Response::input("Name?").unwrap();
    assert_eq!(response.header().status().code(), 10);

    let response = Response::input_lossy("Name?\nmore");
    assert_eq!(response.header().meta().as_str(), "Name?");

    let response = Response::redirect_temporary_lossy("gemini://h/new");
    assert_eq!(response.header().status().code(), 30);

    let response = Response::bad_request_lossy("no");
    assert_eq!(response.header().status().code(), 59);

    let response = Response::client_certificate_required();
    assert_eq!(response.header().status().code(), 60);

    let response = Response::certificate_not_authorized();
    assert_eq!(response.header().status().code(), 61);
}

#[test]
fn empty_meta_is_valid() {
    let meta = Meta::empty();
    assert_eq!(meta.as_str(), "");
    assert_eq!(Meta::default().as_str(), "");
}
