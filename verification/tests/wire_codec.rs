use minihttp::request::{HttpRequest, ParseError};
use minihttp::response::{
    respond_with_200_ok, respond_with_404_not_found, respond_with_octet_stream,
    respond_with_text_content,
};

fn parse(bytes: &[u8]) -> Result<HttpRequest, ParseError> {
    HttpRequest::new(&bytes.to_vec())
}

#[test]
fn parses_request_line_tokens() {
    let req = parse(b"GET /index.html HTTP/1.1\r\n\r\n").unwrap();
    assert_eq!(req.http_method, b"GET".to_vec());
    assert_eq!(req.path, b"/index.html".to_vec());
    assert_eq!(req.http_version, b"HTTP/1.1".to_vec());
    assert_eq!(req.content_length, 0);
    assert!(req.body.is_empty());
}

#[test]
fn parses_recognized_headers() {
    let req = parse(
        b"GET / HTTP/1.1\r\nHost: localhost:4221\r\nUser-Agent: test-client/1.0\r\nAccept-Encoding: gzip\r\n\r\n",
    )
    .unwrap();
    assert_eq!(req.host, b"localhost:4221".to_vec());
    assert_eq!(req.user_agent, b"test-client/1.0".to_vec());
    assert_eq!(req.accept_encoding, b"gzip".to_vec());
}

#[test]
fn body_round_trips_byte_for_byte() {
    let req = parse(b"POST /submit HTTP/1.1\r\nContent-Length: 5\r\n\r\nhello").unwrap();
    assert_eq!(req.content_length, 5);
    assert_eq!(req.body, b"hello".to_vec());
}

#[test]
fn body_bytes_beyond_declared_length_are_ignored() {
    let req = parse(b"POST /submit HTTP/1.1\r\nContent-Length: 3\r\n\r\nhello").unwrap();
    assert_eq!(req.body, b"hel".to_vec());
}

#[test]
fn short_body_is_truncated_not_accepted() {
    let r = parse(b"POST /submit HTTP/1.1\r\nContent-Length: 10\r\n\r\nhello");
    assert_eq!(r.unwrap_err(), ParseError::TruncatedBody);
}

#[test]
fn missing_header_terminator_is_truncated() {
    let r = parse(b"GET / HTTP/1.1\r\nHost: x\r\n");
    assert_eq!(r.unwrap_err(), ParseError::TruncatedBody);
}

#[test]
fn request_line_with_too_few_tokens_is_malformed() {
    let r = parse(b"GET /only-two\r\n\r\n");
    assert_eq!(r.unwrap_err(), ParseError::MalformedRequestLine);
    let r = parse(b"\r\n\r\n");
    assert_eq!(r.unwrap_err(), ParseError::MalformedRequestLine);
}

#[test]
fn empty_input_is_malformed() {
    let r = parse(b"");
    assert_eq!(r.unwrap_err(), ParseError::MalformedRequestLine);
}

#[test]
fn repeated_content_length_keeps_the_last_value() {
    let req = parse(b"POST / HTTP/1.1\r\nContent-Length: 3\r\nContent-Length: 5\r\n\r\nhello").unwrap();
    assert_eq!(req.content_length, 5);
    assert_eq!(req.body, b"hello".to_vec());
}

#[test]
fn content_length_must_be_a_number() {
    let r = parse(b"POST / HTTP/1.1\r\nContent-Length: abc\r\n\r\n");
    assert_eq!(r.unwrap_err(), ParseError::InvalidContentLength);
    let r = parse(b"POST / HTTP/1.1\r\nContent-Length: \r\n\r\n");
    assert_eq!(r.unwrap_err(), ParseError::InvalidContentLength);
    let r = parse(b"POST / HTTP/1.1\r\nContent-Length: 12x\r\n\r\n");
    assert_eq!(r.unwrap_err(), ParseError::InvalidContentLength);
}

#[test]
fn oversized_content_length_is_invalid() {
    let r = parse(b"POST / HTTP/1.1\r\nContent-Length: 99999999999999999999999999\r\n\r\n");
    assert_eq!(r.unwrap_err(), ParseError::InvalidContentLength);
}

#[test]
fn unrecognized_headers_are_ignored() {
    let req = parse(b"GET / HTTP/1.1\r\nX-Custom: whatever\r\nHost: h\r\n\r\n").unwrap();
    assert_eq!(req.host, b"h".to_vec());
}

#[test]
fn header_names_match_case_sensitively() {
    let req = parse(b"GET / HTTP/1.1\r\nhost: lower\r\n\r\n").unwrap();
    assert!(req.host.is_empty());
}

#[test]
fn header_values_are_trimmed_of_surrounding_whitespace() {
    let req = parse(b"GET / HTTP/1.1\r\nUser-Agent:   spaced out  \r\n\r\n").unwrap();
    assert_eq!(req.user_agent, b"spaced out".to_vec());
}

#[test]
fn bare_line_feeds_are_tolerated() {
    let req = parse(b"GET /x HTTP/1.1\nHost: h\nContent-Length: 2\n\nok").unwrap();
    assert_eq!(req.path, b"/x".to_vec());
    assert_eq!(req.host, b"h".to_vec());
    assert_eq!(req.body, b"ok".to_vec());
}

#[test]
fn ok_response_is_status_line_and_blank_line() {
    assert_eq!(respond_with_200_ok(), b"HTTP/1.1 200 OK\r\n\r\n".to_vec());
}

#[test]
fn not_found_response_is_status_line_and_blank_line() {
    assert_eq!(
        respond_with_404_not_found(),
        b"HTTP/1.1 404 Not Found\r\n\r\n".to_vec()
    );
}

#[test]
fn text_response_declares_exact_length() {
    let r = respond_with_text_content(&b"abc123".to_vec());
    assert_eq!(
        r,
        b"HTTP/1.1 200 OK\r\nContent-Type: text/plain\r\nContent-Length: 6\r\n\r\nabc123".to_vec()
    );
}

#[test]
fn empty_text_response_has_length_zero() {
    let r = respond_with_text_content(&Vec::new());
    assert_eq!(
        r,
        b"HTTP/1.1 200 OK\r\nContent-Type: text/plain\r\nContent-Length: 0\r\n\r\n".to_vec()
    );
}

#[test]
fn text_response_length_uses_all_decimal_digits() {
    let body = vec![120u8; 1024];
    let r = respond_with_text_content(&body);
    let mut expected =
        b"HTTP/1.1 200 OK\r\nContent-Type: text/plain\r\nContent-Length: 1024\r\n\r\n".to_vec();
    expected.extend_from_slice(&body);
    assert_eq!(r, expected);
}

#[test]
fn octet_stream_response_carries_raw_bytes() {
    let r = respond_with_octet_stream(&b"hello".to_vec());
    assert_eq!(
        r,
        b"HTTP/1.1 200 OK\r\nContent-Type: application/octet-stream\r\nContent-Length: 5\r\n\r\nhello"
            .to_vec()
    );
}
