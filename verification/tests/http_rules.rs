use uptime_api::engine::handler::http::{
    build_request, parse_response, read_probe_response, status_code_from_text, HttpError, MAX_RESPONSE_SIZE,
};

#[test]
fn the_probe_request_asks_for_the_root_and_a_closed_connection() {
    assert_eq!(
        build_request("example.com"),
        "GET / HTTP/1.1\r\nHost: example.com\r\nUser-Agent: rust-uptimeapi\r\nConnection: close\r\n\r\n"
    );
}

#[test]
fn a_response_that_fills_the_buffer_is_too_large() {
    let mut buf = b"HTTP/1.1 200 OK\r\n\r\n".to_vec();
    buf.resize(MAX_RESPONSE_SIZE, b'x');
    assert_eq!(read_probe_response(buf, None).err(), Some(HttpError::TooLarge));
    let small = b"HTTP/1.1 204 No Content\r\n\r\n".to_vec();
    assert_eq!(read_probe_response(small, None).unwrap().status_code, 204);
}

#[test]
fn each_response_error_has_its_input() {
    assert_eq!(parse_response(b"HTTP/1.1 200 OK\r\n".to_vec(), None).err(), Some(HttpError::MissingSeparator));
    assert_eq!(parse_response(b"HTTP/1.1\r\n\r\n".to_vec(), None).err(), Some(HttpError::MalformedStatusLine));
    assert_eq!(parse_response(b"\r\n\r\nbody".to_vec(), None).err(), Some(HttpError::MalformedStatusLine));
    assert_eq!(parse_response(b"HTTP/1.1 abc OK\r\n\r\n".to_vec(), None).err(), Some(HttpError::InvalidStatusCode));
    assert_eq!(parse_response(b"HTTP/1.1 70000 OK\r\n\r\n".to_vec(), None).err(), Some(HttpError::InvalidStatusCode));
}

#[test]
fn status_code_is_read_as_rust_reads_a_u16() {
    let r = parse_response(b"HTTP/1.1 +301 Moved\r\nLocation: /\r\n\r\n".to_vec(), None).unwrap();
    assert_eq!(r.status_code, 301);
    let r = parse_response(b"HTTP/1.1\t 200\tOK\r\n\r\n".to_vec(), None).unwrap();
    assert_eq!(r.status_code, 200);
}

#[test]
fn the_body_starts_after_the_first_separator() {
    let r = parse_response(b"HTTP/1.1 200 OK\r\n\r\nA\r\n\r\nB".to_vec(), Some("A\r\n\r\nB")).unwrap();
    assert_eq!(r.content_hash, blake3::hash(b"A\r\n\r\nB").to_string());
    assert_eq!(r.content_matched, Some(true));
    let empty = parse_response(b"HTTP/1.1 200 OK\r\n\r\n".to_vec(), Some("")).unwrap();
    assert_eq!(empty.content_hash, blake3::hash(b"").to_string());
    assert_eq!(empty.content_matched, Some(true));
}

#[test]
fn the_hash_is_64_lowercase_hex_digits_of_the_body() {
    let r = parse_response(b"HTTP/1.1 200 OK\r\n\r\nbody".to_vec(), None).unwrap();
    assert_eq!(r.content_hash.len(), 64);
    assert!(r.content_hash.chars().all(|c| c.is_ascii_digit() || ('a'..='f').contains(&c)));
    assert_ne!(r.content_hash, "body");
}

#[test]
fn invalid_utf8_in_the_body_is_matched_after_replacement() {
    let r = parse_response(b"HTTP/1.1 200 OK\r\n\r\nhello \xff world".to_vec(), Some("hello \u{FFFD} world")).unwrap();
    assert_eq!(r.content_matched, Some(true));
    let r = parse_response(b"HTTP/1.1 200 OK\r\n\r\nhello \xff world".to_vec(), Some("hello world")).unwrap();
    assert_eq!(r.content_matched, Some(false));
}

#[test]
fn status_code_comes_from_the_first_line_of_the_header_text() {
    let code = |s: &str| status_code_from_text(&s.chars().collect());
    assert_eq!(code("HTTP/1.1 200 OK\r\nX-Status: 500"), Ok(200));
    assert_eq!(code("HTTP/2 404"), Ok(404));
    assert_eq!(code("\u{FFFD}\u{FFFD} 503 Busy"), Ok(503));
    assert_eq!(code(""), Err(HttpError::MalformedStatusLine));
    assert_eq!(code("HTTP/1.1\r\n200 OK"), Err(HttpError::MalformedStatusLine));
    assert_eq!(code("\nHTTP/1.1 200 OK"), Err(HttpError::MalformedStatusLine));
    assert_eq!(code("HTTP/1.1 99999"), Err(HttpError::InvalidStatusCode));
}
