use twinstar::codec::frame_request_line;
use twinstar::codec::parse_request_line;
use twinstar::codec::plan_send_timeouts;
use twinstar::codec::serialize_response_header;
use twinstar::Body;
use twinstar::GemError;
use twinstar::Response;
use twinstar::ResponseHeader;

#[test]
fn request_line_of_max_length_is_accepted() {
    let mut line: Vec<u8> = vec![b'a'; 1024];
    line.push(b'\r');
    line.push(b'\n');
    let uri = frame_request_line(&line).unwrap();
    assert_eq!(uri.len(), 1024);
    assert!(uri.iter().all(|b| *b == b'a'));
}

#[test]
fn request_line_over_the_limit_is_too_long() {
    // A client that sent 1025 bytes and CRLF: the reader stops after 1026
    // bytes, before the line feed arrives.
    let mut line: Vec<u8> = vec![b'a'; 1025];
    line.push(b'\r');
    assert_eq!(line.len(), 1026);
    assert!(matches!(frame_request_line(&line), Err(GemError::UriTooLong)));
}

#[test]
fn request_line_without_crlf_is_bad_framing() {
    let line: Vec<u8> = vec![b'a'; 1000];
    assert!(matches!(frame_request_line(&line), Err(GemError::BadFraming)));

    // exactly at the URI limit, but the client never finished the line
    let line: Vec<u8> = vec![b'a'; 1024];
    assert!(matches!(frame_request_line(&line), Err(GemError::BadFraming)));

    let mut line: Vec<u8> = b"gemini://h/".to_vec();
    line.push(b'\n');
    assert!(matches!(frame_request_line(&line), Err(GemError::BadFraming)));
}

#[test]
fn request_line_parses_to_a_request() {
    let line: Vec<u8> = b"gemini://h/\r\n".to_vec();
    let request = parse_request_line(&line).unwrap();
    assert!(request.input().is_none());
    assert!(request.certificate().is_none());
}

#[test]
fn request_line_query_becomes_the_input() {
    let line: Vec<u8> = b"gemini://h/echo?hello%20world\r\n".to_vec();
    let request = parse_request_line(&line).unwrap();
    assert_eq!(request.input(), Some("hello world"));
    assert_eq!(request.path_segments(), vec!["echo"]);
}

#[test]
fn request_line_with_bad_uri_is_invalid() {
    let line: Vec<u8> = b"gemini://h/%zz\r\n".to_vec();
    assert!(matches!(parse_request_line(&line), Err(GemError::InvalidUri)));
}

#[test]
fn request_line_with_undecodable_query_is_invalid() {
    let line: Vec<u8> = b"gemini://h/echo?%ff\r\n".to_vec();
    assert!(matches!(parse_request_line(&line), Err(GemError::InvalidRequest)));
}

#[test]
fn not_found_header_serializes_exactly() {
    let bytes = serialize_response_header(Response::not_found().header());
    assert_eq!(bytes, b"51 Not found\r\n".to_vec());
}

#[test]
fn certificate_required_header_serializes_exactly() {
    let bytes = serialize_response_header(&ResponseHeader::client_certificate_required());
    assert_eq!(bytes, b"60 No certificate provided\r\n".to_vec());
}

#[test]
fn handler_failure_header_serializes_exactly() {
    // What the engine sends when a handler panics or fails: status 50 with
    // an empty meta.
    let response = Response::server_error("").unwrap();
    let bytes = serialize_response_header(response.header());
    assert_eq!(bytes, b"50 \r\n".to_vec());
}

#[test]
fn success_header_and_body_serialize_exactly() {
    let mut response = Response::success_gemini(Body::from_text("you said: hello world"));
    let bytes = serialize_response_header(response.header());
    assert_eq!(bytes, b"20 text/gemini\r\n".to_vec());
    match response.take_body() {
        Some(Body::Bytes(body)) => assert_eq!(body, b"you said: hello world".to_vec()),
        _ => panic!("expected an in-memory body"),
    }
    assert!(response.take_body().is_none());
}

#[test]
fn simple_responses_get_one_base_deadline() {
    let header = ResponseHeader::success_from_str("text/gemini");
    let plan = plan_send_timeouts(&header, true, 1000, Some(30000));
    assert_eq!(plan.overall, Some(1000));
    assert_eq!(plan.header, None);
    assert_eq!(plan.body, None);

    let plan = plan_send_timeouts(&ResponseHeader::not_found(), false, 1000, Some(30000));
    assert_eq!(plan.overall, Some(1000));
}

#[test]
fn complex_responses_get_an_extra_body_deadline() {
    let header = ResponseHeader::success_from_str("image/png");
    let plan = plan_send_timeouts(&header, true, 1000, Some(30000));
    assert_eq!(plan.overall, None);
    assert_eq!(plan.header, Some(1000));
    assert_eq!(plan.body, Some(30000));

    // without a body, or without a configured extended budget, the simple
    // deadline applies
    let plan = plan_send_timeouts(&header, false, 1000, Some(30000));
    assert_eq!(plan.overall, Some(1000));
    let plan = plan_send_timeouts(&header, true, 1000, None);
    assert_eq!(plan.overall, Some(1000));
}
