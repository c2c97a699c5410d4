use friday::codec::{encode_response, parse_content_length, parse_first_line, parse_request, reason, render};
use friday::{Error, IoFailure, Method};

#[test]
fn parses_request_line_headers_and_body() {
    let r = parse_request(b"POST /tasks HTTP/1.1\r\nContent-Length: 5\r\nHost: x\r\n\r\nhello").unwrap();
    assert_eq!(r.method, Method::POST);
    assert_eq!(r.path, "/tasks");
    assert_eq!(r.headers.get("Host"), Some(&"x".to_string()));
    assert_eq!(r.raw_body, Some("hello".to_string()));
}

#[test]
fn body_round_trips_through_parse_and_serialize() {
    let input = "PUT /tasks/dump HTTP/1.1\r\nContent-Length: 13\r\n\r\n{\"task\":\"ä\"}";
    assert_eq!("{\"task\":\"ä\"}".len(), 13);
    let r = parse_request(input.as_bytes()).unwrap();
    let body = r.raw_body.unwrap();
    let out = encode_response(200, &body);
    let expected_body = "{\"task\":\"ä\"}".as_bytes();
    assert!(out.ends_with(expected_body));
    assert_eq!(out, b"HTTP/1.1 200 OK\nContent-Length: 13\n\n{\"task\":\"\xc3\xa4\"}".to_vec());
}

#[test]
fn later_duplicate_header_wins() {
    let r = parse_request(b"GET / HTTP/1.1\nA: 1\nA: 2\n\n").unwrap();
    assert_eq!(r.headers.get("A"), Some(&"2".to_string()));
}

#[test]
fn header_names_keep_their_case() {
    let r = parse_request(b"GET / HTTP/1.1\r\nContent-Type: text/plain\r\n\r\n").unwrap();
    assert_eq!(r.headers.get("Content-Type"), Some(&"text/plain".to_string()));
    assert_eq!(r.headers.get("content-type"), None);
}

#[test]
fn header_value_split_on_first_colon_and_trimmed() {
    let r = parse_request(b"GET / HTTP/1.1\r\nHost:  localhost:8080 \r\n\r\n").unwrap();
    assert_eq!(r.headers.get("Host"), Some(&"localhost:8080".to_string()));
}

#[test]
fn header_line_without_colon_gives_empty_pair() {
    let r = parse_request(b"GET / HTTP/1.1\r\nnocolon\r\n\r\n").unwrap();
    assert_eq!(r.headers.get(""), Some(&"".to_string()));
}

#[test]
fn chunked_transfer_encoding_is_refused() {
    let r = parse_request(b"POST / HTTP/1.1\r\nTransfer-Encoding: chunked\r\n\r\n5\r\nhello\r\n0\r\n\r\n");
    assert_eq!(r.unwrap_err(), Error::UnsupportedTransferEncoding);
    let r = parse_request(b"POST / HTTP/1.1\r\nTransfer-Encoding: chunked\r\nContent-Length: 2\r\n\r\nok");
    assert_eq!(r.unwrap_err(), Error::UnsupportedTransferEncoding);
}

#[test]
fn wrong_token_count_is_malformed() {
    assert_eq!(parse_request(b"GET /\r\n\r\n").unwrap_err(), Error::MalformedRequest);
    assert_eq!(parse_request(b"GET / HTTP/1.1 extra\r\n\r\n").unwrap_err(), Error::MalformedRequest);
    assert_eq!(parse_request(b"").unwrap_err(), Error::MalformedRequest);
}

#[test]
fn methods_are_case_sensitive() {
    assert_eq!(parse_request(b"get / HTTP/1.1\r\n\r\n").unwrap_err(), Error::UnsupportedMethod);
    assert_eq!(parse_request(b"TRACE / HTTP/1.1\r\n\r\n").unwrap_err(), Error::UnsupportedMethod);
    for (token, m) in [
        ("GET", Method::GET),
        ("POST", Method::POST),
        ("PUT", Method::PUT),
        ("PATCH", Method::PATCH),
        ("DELETE", Method::DELETE),
    ] {
        let line = format!("{token} /x HTTP/1.1");
        let (method, path) = parse_first_line(line.as_bytes()).unwrap();
        assert_eq!(method, m);
        assert_eq!(path, "/x");
        assert_eq!(m.name(), token);
    }
}

#[test]
fn no_content_length_means_no_body() {
    let r = parse_request(b"GET / HTTP/1.1\r\n\r\ntrailing bytes").unwrap();
    assert_eq!(r.raw_body, None);
}

#[test]
fn unparsable_content_length_counts_as_zero() {
    let r = parse_request(b"POST / HTTP/1.1\r\nContent-Length: abc\r\n\r\nxyz").unwrap();
    assert_eq!(r.raw_body, Some(String::new()));
}

#[test]
fn short_body_is_an_io_error() {
    let r = parse_request(b"POST / HTTP/1.1\r\nContent-Length: 10\r\n\r\nabc");
    assert_eq!(r.unwrap_err(), Error::IO(IoFailure::UnexpectedEof));
}

#[test]
fn invalid_utf8_body_is_replaced() {
    let r = parse_request(b"POST / HTTP/1.1\r\nContent-Length: 2\r\n\r\na\xff").unwrap();
    assert_eq!(r.raw_body, Some("a\u{FFFD}".to_string()));
}

#[test]
fn invalid_utf8_path_is_an_io_error() {
    let r = parse_request(b"GET /\xff HTTP/1.1\r\n\r\n");
    assert_eq!(r.unwrap_err(), Error::IO(IoFailure::InvalidData));
}

#[test]
fn content_length_values() {
    assert_eq!(parse_content_length(b"42"), 42);
    assert_eq!(parse_content_length(b"+7"), 7);
    assert_eq!(parse_content_length(b""), 0);
    assert_eq!(parse_content_length(b"+"), 0);
    assert_eq!(parse_content_length(b"-1"), 0);
    assert_eq!(parse_content_length(b"1 2"), 0);
    assert_eq!(parse_content_length(b"99999999999999999999999999"), 0);
    assert_eq!(parse_content_length(b"18446744073709551615"), usize::MAX);
}

#[test]
fn reason_phrases() {
    assert_eq!(reason(200), "OK");
    assert_eq!(reason(400), "Bad Request");
    assert_eq!(reason(404), "Not Found");
    assert_eq!(reason(500), "Internal Server Error");
    assert_eq!(reason(501), "Not Implemented");
    assert_eq!(reason(418), "OK");
}

#[test]
fn response_bytes_are_exact() {
    assert_eq!(render(404, b"nope"), b"HTTP/1.1 404 Not Found\nContent-Length: 4\n\nnope".to_vec());
    assert_eq!(encode_response(500, ""), b"HTTP/1.1 500 Internal Server Error\nContent-Length: 0\n\n".to_vec());
    assert_eq!(encode_response(200, "é"), "HTTP/1.1 200 OK\nContent-Length: 2\n\né".as_bytes().to_vec());
}
