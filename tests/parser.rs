use http_core::headers::Headers;
use http_core::method::HTTPMethod;
use http_core::request::{parse, parse_request_line, parse_str, ParseError};

#[test]
fn get_without_headers_or_body() {
    let q = parse(b"GET /x HTTP/1.1\r\n\r\n").unwrap();
    assert_eq!(q.line.method, HTTPMethod::GET);
    assert_eq!(q.line.uri, "/x");
    assert_eq!(q.line.version, "HTTP/1.1");
    assert!(q.headers.is_empty());
    assert_eq!(q.headers.len(), 0);
    assert_eq!(q.body, None);
}

#[test]
fn unknown_method_is_refused() {
    let e = parse(b"FOO /x HTTP/1.1\r\n\r\n").unwrap_err();
    assert_eq!(e, ParseError::UnknownMethod("FOO".to_string()));
}

#[test]
fn two_tokens_is_a_malformed_request_line() {
    let e = parse(b"GET /x\r\n\r\n").unwrap_err();
    assert_eq!(e, ParseError::MalformedRequestLine("GET /x".to_string()));
}

#[test]
fn four_tokens_is_a_malformed_request_line() {
    let e = parse(b"GET /x HTTP/1.1 extra\r\n\r\n").unwrap_err();
    assert!(matches!(e, ParseError::MalformedRequestLine(_)));
}

#[test]
fn empty_buffer_is_a_malformed_request_line() {
    let e = parse(b"").unwrap_err();
    assert_eq!(e, ParseError::MalformedRequestLine(String::new()));
}

#[test]
fn invalid_utf8_is_an_encoding_error() {
    let e = parse(&[0x47, 0x45, 0x54, 0x20, 0xff, 0x0d, 0x0a]).unwrap_err();
    assert_eq!(e, ParseError::Encoding);
}

#[test]
fn line_without_colon_is_skipped() {
    let q = parse(b"GET / HTTP/1.1\r\nA: 1\r\nnot-a-header-no-colon\r\nB: 2\r\n\r\n").unwrap();
    assert_eq!(q.headers.len(), 2);
    assert_eq!(q.headers.get("A").unwrap(), "1");
    assert_eq!(q.headers.get("B").unwrap(), "2");
    assert!(q.headers.get("not-a-header-no-colon").is_none());
}

#[test]
fn duplicate_header_keeps_last_value() {
    let q = parse(b"GET / HTTP/1.1\r\nX: 1\r\nX: 2\r\n\r\n").unwrap();
    assert_eq!(q.headers.len(), 1);
    assert_eq!(q.headers.get("X").unwrap(), "2");
}

#[test]
fn header_keys_are_case_sensitive() {
    let q = parse(b"GET / HTTP/1.1\r\nX: 1\r\nx: 2\r\n\r\n").unwrap();
    assert_eq!(q.headers.len(), 2);
    assert_eq!(q.headers.get("X").unwrap(), "1");
    assert_eq!(q.headers.get("x").unwrap(), "2");
}

#[test]
fn header_split_on_first_colon_and_trimmed() {
    let q = parse(b"GET / HTTP/1.1\r\n  Host :  example.com:8080  \r\n\r\n").unwrap();
    assert_eq!(q.headers.get("Host").unwrap(), "example.com:8080");
}

#[test]
fn structural_round_trip() {
    let q = parse(b"POST /submit HTTP/1.0\r\nK1: V1\r\n\r\nhello world").unwrap();
    assert_eq!(q.line.method, HTTPMethod::POST);
    assert_eq!(q.line.uri, "/submit");
    assert_eq!(q.line.version, "HTTP/1.0");
    assert_eq!(q.headers.len(), 1);
    assert_eq!(q.headers.get("K1").unwrap(), "V1");
    assert_eq!(q.body.as_deref(), Some("hello world"));
}

#[test]
fn round_trip_of_every_method() {
    let names = ["GET", "POST", "PUT", "PATCH", "DELETE", "HEAD", "OPTIONS"];
    for name in names {
        let text = format!("{} /r HTTP/1.1\r\nK: V\r\n\r\nb", name);
        let q = parse(text.as_bytes()).unwrap();
        assert_eq!(q.line.method.as_str(), name);
        assert_eq!(q.line.uri, "/r");
        assert_eq!(q.headers.get("K").unwrap(), "V");
        assert_eq!(q.body.as_deref(), Some("b"));
    }
}

#[test]
fn body_keeps_inner_crlf() {
    let q = parse(b"PUT /f HTTP/1.1\r\n\r\nline1\r\n\r\nline2\r\n").unwrap();
    assert!(q.headers.is_empty());
    assert_eq!(q.body.as_deref(), Some("line1\r\n\r\nline2\r\n"));
}

#[test]
fn request_line_only_has_no_body() {
    let q = parse(b"DELETE /item/7 HTTP/1.1").unwrap();
    assert_eq!(q.line.method, HTTPMethod::DELETE);
    assert!(q.headers.is_empty());
    assert_eq!(q.body, None);
}

#[test]
fn headers_without_blank_line_end_at_input_end() {
    let q = parse(b"GET / HTTP/1.1\r\nA: 1\r\nB: 2").unwrap();
    assert_eq!(q.headers.len(), 2);
    assert_eq!(q.headers.get("B").unwrap(), "2");
    assert_eq!(q.body, None);
}

#[test]
fn bare_lf_is_not_a_line_end() {
    let e = parse(b"GET / HTTP/1.1\nHost: a\n\n").unwrap_err();
    assert!(matches!(e, ParseError::MalformedRequestLine(_)));
}

#[test]
fn method_is_case_insensitive() {
    assert_eq!(HTTPMethod::from_str("get"), Ok(HTTPMethod::GET));
    assert_eq!(HTTPMethod::from_str("Get"), Ok(HTTPMethod::GET));
    assert_eq!(HTTPMethod::from_str("oPtIoNs"), Ok(HTTPMethod::OPTIONS));
    assert_eq!(HTTPMethod::from_str("GETS"), Err(()));
    assert_eq!(HTTPMethod::from_str(""), Err(()));
    let q = parse(b"patch /p HTTP/1.1\r\n\r\n").unwrap();
    assert_eq!(q.line.method, HTTPMethod::PATCH);
}

#[test]
fn request_line_tokens_split_on_whitespace_runs() {
    let l = parse_request_line("  HEAD\t /a/b   HTTP/2 ").unwrap();
    assert_eq!(l.method, HTTPMethod::HEAD);
    assert_eq!(l.uri, "/a/b");
    assert_eq!(l.version, "HTTP/2");
    let e = parse_request_line("BREW /pot HTTP/1.1").unwrap_err();
    assert_eq!(e, ParseError::UnknownMethod("BREW".to_string()));
}

#[test]
fn unicode_whitespace_separates_tokens() {
    let l = parse_request_line("GET\u{a0}/x\u{3000}HTTP/1.1").unwrap();
    assert_eq!(l.uri, "/x");
    assert_eq!(l.version, "HTTP/1.1");
}

#[test]
fn parse_str_matches_parse() {
    let q = parse_str("OPTIONS * HTTP/1.1\r\nAccept: */*\r\n\r\n").unwrap();
    assert_eq!(q.line.method, HTTPMethod::OPTIONS);
    assert_eq!(q.line.uri, "*");
    assert_eq!(q.headers.get("Accept").unwrap(), "*/*");
}

#[test]
fn headers_insert_and_get() {
    let mut h = Headers::new();
    assert!(h.is_empty());
    h.insert("a".to_string(), "1".to_string());
    h.insert("b".to_string(), "2".to_string());
    h.insert("a".to_string(), "3".to_string());
    assert_eq!(h.len(), 2);
    assert_eq!(h.get("a").unwrap(), "3");
    assert_eq!(h.get("b").unwrap(), "2");
    assert!(h.get("c").is_none());
}
