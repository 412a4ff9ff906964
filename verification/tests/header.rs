use twinstar::gemini_mime;
use twinstar::ResponseHeader;

#[test]
fn named_constructors_pick_status_and_meta() {
    let header = ResponseHeader::not_found();
    assert_eq!(header.status().code(), 51);
    assert_eq!(header.meta().as_str(), "Not found");

    let header = ResponseHeader::client_certificate_required();
    assert_eq!(header.status().code(), 60);
    assert_eq!(header.meta().as_str(), "No certificate provided");

    let header = ResponseHeader::certificate_not_authorized();
    assert_eq!(header.status().code(), 61);
    assert_eq!(
        header.meta().as_str(),
        "Your certificate is not authorized to view this content",
    );

    let header = ResponseHeader::bad_request_lossy("what was that?");
    assert_eq!(header.status().code(), 59);
    assert_eq!(header.meta().as_str(), "what was that?");

    let header = ResponseHeader::server_error_lossy("broken");
    assert_eq!(header.status().code(), 50);
    assert_eq!(header.meta().as_str(), "broken");
}

#[test]
fn input_rejects_invalid_prompts() {
    let header = ResponseHeader::input("What is your name?").unwrap();
    assert_eq!(header.status().code(), 10);
    assert_eq!(header.meta().as_str(), "What is your name?");

    assert!(ResponseHeader::input("two\nlines").is_err());

    let header = ResponseHeader::input_lossy("two\nlines");
    assert_eq!(header.status().code(), 10);
    assert_eq!(header.meta().as_str(), "two");
}

#[test]
fn server_error_rejects_invalid_reasons() {
    let header = ResponseHeader::server_error("").unwrap();
    assert_eq!(header.status().code(), 50);
    assert_eq!(header.meta().as_str(), "");

    assert!(ResponseHeader::server_error("a\nb").is_err());
}

#[test]
fn success_uses_the_mime_as_meta() {
    let mime: mime::Mime = "text/gemini".parse().unwrap();
    let header = ResponseHeader::success(&mime);
    assert_eq!(header.status().code(), 20);
    assert_eq!(header.meta().as_str(), "text/gemini");

    let header = ResponseHeader::success_from_str("image/png");
    assert_eq!(header.status().code(), 20);
    assert_eq!(header.meta().as_str(), "image/png");
}

#[test]
fn redirect_uses_the_location_as_meta() {
    let header = ResponseHeader::redirect_temporary_lossy("gemini://example.org/else");
    assert_eq!(header.status().code(), 30);
    assert_eq!(header.meta().as_str(), "gemini://example.org/else");

    let header = ResponseHeader::redirect_temporary_lossy("://not a uri");
    assert_eq!(header.status().code(), 59);
    assert_eq!(header.meta().as_str(), "Invalid redirect location");
}

#[test]
fn gemini_mime_parses() {
    let mime = gemini_mime().unwrap();
    assert_eq!(mime.as_ref(), "text/gemini");
}
