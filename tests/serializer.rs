use http_core::request::parse;
use http_core::response::{
    serialize, Response, ResponseBody, ResponseHeaders, ResponseStatus, Timestamp,
    MAX_UNIX_SECONDS, MIN_UNIX_SECONDS,
};

fn response_at(date: Timestamp, body: Option<&str>) -> Response {
    Response {
        status: ResponseStatus {
            version: "HTTP/1.1".to_string(),
            code: 200,
            message: "OK".to_string(),
        },
        headers: ResponseHeaders {
            server: "RustServer/0.1".to_string(),
            date,
            content_type: "application/json".to_string(),
        },
        body: body.map(|c| ResponseBody { content: c.to_string() }),
    }
}

#[test]
fn fixed_response_exact_bytes() {
    let r = response_at(Timestamp::from_unix(0).unwrap(), Some("{\"a\":1}"));
    let expected = "HTTP/1.1 200 OK\r\nServer: RustServer/0.1\r\nDate: Thu, 1 Jan 1970 00:00:00 +0000\r\nContent-Length: 7\r\nContent-Type: application/json\r\n\r\n{\"a\":1}";
    assert_eq!(r.to_string(), expected);
    assert_eq!(serialize(&r), expected.as_bytes().to_vec());
}

#[test]
fn absent_body_gives_zero_length_and_no_trailing_bytes() {
    let r = response_at(Timestamp::from_unix(0).unwrap(), None);
    assert_eq!(r.content_length(), 0);
    let text = r.to_string();
    assert!(text.contains("\r\nContent-Length: 0\r\n"));
    assert!(text.ends_with("Content-Type: application/json\r\n\r\n"));
}

#[test]
fn content_length_counts_utf8_bytes() {
    let r = response_at(Timestamp::from_unix(0).unwrap(), Some("h\u{e9}llo \u{1f600}"));
    assert_eq!(r.content_length(), 11);
    assert!(r.to_string().contains("\r\nContent-Length: 11\r\n"));
}

#[test]
fn status_code_rendered_in_decimal() {
    let mut r = response_at(Timestamp::from_unix(0).unwrap(), None);
    r.status.code = 404;
    r.status.message = "Not Found".to_string();
    assert!(r.to_string().starts_with("HTTP/1.1 404 Not Found\r\n"));
}

#[test]
fn echo_announces_exact_body_length() {
    let q = parse("POST /e HTTP/1.1\r\nX: y\r\n\r\nd\u{e9}j\u{e0} vu".as_bytes()).unwrap();
    let r = q.response_echo("srv", Timestamp::from_unix(86400).unwrap());
    let bytes = serialize(&r);
    let text = String::from_utf8(bytes).unwrap();
    let (head, body) = text.split_once("\r\n\r\n").unwrap();
    assert_eq!(body, "d\u{e9}j\u{e0} vu");
    assert!(head.contains("\r\nContent-Length: 9\r\n"));
    assert!(head.starts_with("HTTP/1.1 200 OK\r\nServer: srv\r\nDate: Fri, 2 Jan 1970 00:00:00 +0000\r\n"));
}

#[test]
fn echo_of_bodiless_request_has_no_body() {
    let q = parse(b"GET / HTTP/1.1\r\n\r\n").unwrap();
    let r = q.response_echo("srv", Timestamp::from_unix(0).unwrap());
    assert!(r.body.is_none());
    assert!(r.to_string().ends_with("Content-Length: 0\r\nContent-Type: text/plain; charset=utf-8\r\n\r\n"));
}

#[test]
fn serialization_differs_only_in_date() {
    let a = response_at(Timestamp::from_unix(0).unwrap(), Some("x")).to_string();
    let b = response_at(Timestamp::from_unix(0).unwrap(), Some("x")).to_string();
    assert_eq!(a, b);
    let c = response_at(Timestamp::from_unix(1_000_000_000).unwrap(), Some("x")).to_string();
    assert!(c.contains("Date: Sun, 9 Sep 2001 01:46:40 +0000\r\n"));
    assert_eq!(
        a.replace("Thu, 1 Jan 1970 00:00:00 +0000", "D"),
        c.replace("Sun, 9 Sep 2001 01:46:40 +0000", "D")
    );
}

#[test]
fn date_of_now_lies_within_serialization() {
    let before = chrono::Utc::now().timestamp();
    let r = response_at(Timestamp::now().unwrap(), Some("x"));
    let text = r.to_string();
    let after = chrono::Utc::now().timestamp();
    let line = text.lines().find(|l| l.starts_with("Date: ")).unwrap();
    let stamped = chrono::DateTime::parse_from_rfc2822(&line["Date: ".len()..]).unwrap().timestamp();
    assert!(before <= stamped && stamped <= after);
}

#[test]
fn timestamp_range_edges() {
    assert!(Timestamp::from_unix(MIN_UNIX_SECONDS).is_some());
    assert!(Timestamp::from_unix(MAX_UNIX_SECONDS).is_some());
    assert!(Timestamp::from_unix(MIN_UNIX_SECONDS - 1).is_none());
    assert!(Timestamp::from_unix(MAX_UNIX_SECONDS + 1).is_none());
    assert_eq!(Timestamp::from_unix(42).unwrap().unix_seconds(), 42);
    assert_eq!(
        Timestamp::from_unix(MAX_UNIX_SECONDS).unwrap().to_rfc2822(),
        "Fri, 31 Dec 9999 23:59:59 +0000"
    );
    assert_eq!(
        Timestamp::from_unix(MIN_UNIX_SECONDS).unwrap().to_rfc2822(),
        "Sat, 1 Jan 0000 00:00:00 +0000"
    );
}
