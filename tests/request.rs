use rust_http::{parse_request, parse_request_bytes, Method, ParseError};

#[test]
fn request_line_headers_and_body_round_trip() {
    let r = parse_request("PUT /items/7 HTTP/1.1\r\nHeader: v\r\n\r\n{\"a\":1}").unwrap();
    assert_eq!(r.method, "PUT");
    assert_eq!(r.path, "/items/7");
    assert_eq!(r._headers, vec!["Header: v".to_string()]);
    assert_eq!(r.body, "{\"a\":1}");
    assert_eq!(r.cookie, None);
}

#[test]
fn body_keeps_later_blank_lines() {
    let r = parse_request("POST /x HTTP/1.1\r\nHeader: v\r\n\r\nline1\r\n\r\nline2").unwrap();
    assert_eq!(r.body, "line1\r\n\r\nline2");
}

#[test]
fn cookie_header_yields_session_token() {
    let r = parse_request("GET / HTTP/1.1\r\nHost: a\r\nCookie: sessionId=abc123\r\n\r\n").unwrap();
    assert_eq!(r.cookie, Some("abc123".to_string()));
}

#[test]
fn no_cookie_header_yields_none() {
    let r = parse_request("GET / HTTP/1.1\r\nHost: a\r\nX-Cookie: sessionId=zzz\r\n\r\n").unwrap();
    assert_eq!(r.cookie, None);
}

#[test]
fn only_first_cookie_header_counts_and_value_is_trimmed() {
    let r = parse_request(
        "GET / HTTP/1.1\r\nCookie: sessionId=  tok  =rest\r\nCookie: sessionId=second\r\n\r\n",
    )
    .unwrap();
    assert_eq!(r.cookie, Some("tok".to_string()));
    let none = parse_request("GET / HTTP/1.1\r\nCookie: plain\r\nCookie: sessionId=x\r\n\r\n").unwrap();
    assert_eq!(none.cookie, None);
}

#[test]
fn missing_head_is_refused() {
    assert_eq!(parse_request("").unwrap_err(), ParseError::NoHeaders);
    assert_eq!(parse_request("\r\n\r\nbody").unwrap_err(), ParseError::NoHeaders);
}

#[test]
fn blank_request_line_is_refused() {
    assert_eq!(parse_request("   \r\nHost: a\r\n\r\n").unwrap_err(), ParseError::NoMethod);
}

#[test]
fn method_only_gives_empty_path() {
    let r = parse_request("DELETE").unwrap();
    assert_eq!(r.method, "DELETE");
    assert_eq!(r.path, "");
    assert!(r._headers.is_empty());
    assert_eq!(r.body, "");
}

#[test]
fn words_split_on_any_whitespace() {
    let r = parse_request(" \tGET\u{a0}/p  HTTP/1.1\nA: b\n\n").unwrap();
    assert_eq!(r.method, "GET");
    assert_eq!(r.path, "/p");
    assert_eq!(r._headers, vec!["A: b".to_string(), "".to_string()]);
}

#[test]
fn bytes_are_decoded_lossily() {
    let r = parse_request_bytes(b"GET /caf\xc3\xa9 HTTP/1.1\r\n\r\n\xff").unwrap();
    assert_eq!(r.path, "/café");
    assert_eq!(r.body, "\u{fffd}");
}

#[test]
fn methods_are_classified_case_sensitively() {
    assert_eq!(Method::of("GET"), Method::Get);
    assert_eq!(Method::of("POST"), Method::Post);
    assert_eq!(Method::of("PUT"), Method::Put);
    assert_eq!(Method::of("DELETE"), Method::Delete);
    assert_eq!(Method::of("PATCH"), Method::Patch);
    assert_eq!(Method::of("get"), Method::Other);
    assert_eq!(Method::of("OPTIONS"), Method::Other);
    assert_eq!(Method::of(""), Method::Other);
}
