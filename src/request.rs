//! The request parser: raw bytes to a `Request`, or a typed `ParseError`.
use vstd::prelude::*;
use vstd::string::StrSliceExecFns;
use vstd::utf8::{decode_utf8, encode_utf8, encode_utf8_decode_utf8, encode_utf8_valid_utf8, valid_utf8};
use crate::headers::Headers;
use crate::method::{HTTPMethod, lemma_method_name_round_trip, method_name, method_of};
use crate::text::{
    chars_of, crlf_at, find_char, find_crlf, index_of, is_ws, lemma_index_of_at,
    lemma_next_crlf_at, lemma_next_crlf_bounds, lemma_skip_ws_at, lemma_token_end_at,
    lemma_trim_plain, next_crlf, split_words, trim, trim_range, words, words_from,
};

verus! {

/// The parsed first line of a request.
#[derive(Debug)]
pub struct RequestLine {
    pub method: HTTPMethod,
    pub uri: String,
    pub version: String,
}

/// A parsed request: request line, header mapping and optional body.
#[derive(Debug)]
pub struct Request {
    pub line: RequestLine,
    pub headers: Headers,
    pub body: Option<String>,
}

/// Why a buffer is not a request. Each failure carries the offending text.
#[derive(Debug, PartialEq, Eq)]
pub enum ParseError {
    /// The buffer is not valid UTF-8.
    Encoding,
    /// The request line does not hold exactly three tokens; carries the line.
    MalformedRequestLine(String),
    /// The first token is not a known method; carries the token.
    UnknownMethod(String),
}

/// A request as a value of the specification.
pub struct RequestModel {
    pub method: HTTPMethod,
    pub uri: Seq<char>,
    pub version: Seq<char>,
    pub headers: Map<Seq<char>, Seq<char>>,
    pub body: Option<Seq<char>>,
}

/// A parse failure as a value of the specification.
pub enum ParseFailure {
    Encoding,
    MalformedRequestLine(Seq<char>),
    UnknownMethod(Seq<char>),
}

impl View for Request {
    type V = RequestModel;

    open spec fn view(&self) -> RequestModel {
        RequestModel {
            method: self.line.method,
            uri: self.line.uri@,
            version: self.line.version@,
            headers: self.headers@,
            body: match self.body {
                Some(b) => Some(b@),
                None => None,
            },
        }
    }
}

impl View for ParseError {
    type V = ParseFailure;

    open spec fn view(&self) -> ParseFailure {
        match self {
            ParseError::Encoding => ParseFailure::Encoding,
            ParseError::MalformedRequestLine(l) => ParseFailure::MalformedRequestLine(l@),
            ParseError::UnknownMethod(t) => ParseFailure::UnknownMethod(t@),
        }
    }
}

/// The request line `line` read as method, target and version.
pub open spec fn request_line_of(line: Seq<char>) -> Result<
    (HTTPMethod, Seq<char>, Seq<char>),
    ParseFailure,
> {
    let w = words(line);
    if w.len() != 3 {
        Err(ParseFailure::MalformedRequestLine(line))
    } else {
        match method_of(w[0]) {
            Some(m) => Ok((m, w[1], w[2])),
            None => Err(ParseFailure::UnknownMethod(w[0])),
        }
    }
}

/// The mapping `m` after the header line `line`: split on its first colon,
/// key and value trimmed; a line without a colon leaves `m` as it is.
pub open spec fn apply_header_line(m: Map<Seq<char>, Seq<char>>, line: Seq<char>) -> Map<
    Seq<char>,
    Seq<char>,
> {
    let c = index_of(line, 0, ':');
    if c >= line.len() {
        m
    } else {
        m.insert(trim(line.subrange(0, c)), trim(line.subrange(c + 1, line.len() as int)))
    }
}

/// Reads the header lines of `t` from the line that starts at `p`, into `m`,
/// up to the first empty line or the end of `t`. Gives the mapping and where
/// the body starts.
pub open spec fn header_scan(t: Seq<char>, p: int, m: Map<Seq<char>, Seq<char>>) -> (
    Map<Seq<char>, Seq<char>>,
    int,
)
    decreases t.len() - p,
{
    if p < 0 || p > t.len() {
        (m, t.len() as int)
    } else {
        let e = next_crlf(t, p);
        let line = t.subrange(p, e);
        if e <= p {
            (m, if e < t.len() { e + 2 } else { t.len() as int })
        } else if e >= t.len() {
            (apply_header_line(m, line), t.len() as int)
        } else {
            proof {
                lemma_next_crlf_bounds(t, p);
            }
            header_scan(t, e + 2, apply_header_line(m, line))
        }
    }
}

/// The request that the text `t` holds: the request line up to the first
/// CRLF, header lines up to the first empty line, and the rest as body
/// (`None` where the rest is empty).
pub open spec fn parse_text(t: Seq<char>) -> Result<RequestModel, ParseFailure> {
    let e0 = next_crlf(t, 0);
    match request_line_of(t.subrange(0, e0)) {
        Err(f) => Err(f),
        Ok(l) => {
            let hs = if e0 < t.len() {
                header_scan(t, e0 + 2, Map::empty())
            } else {
                (Map::empty(), t.len() as int)
            };
            let rest = t.subrange(hs.1, t.len() as int);
            Ok(
                RequestModel {
                    method: l.0,
                    uri: l.1,
                    version: l.2,
                    headers: hs.0,
                    body: if rest.len() == 0 {
                        None
                    } else {
                        Some(rest)
                    },
                },
            )
        },
    }
}

/// The request that the bytes `b` hold, where they are UTF-8.
pub open spec fn parse_bytes(b: Seq<u8>) -> Result<RequestModel, ParseFailure> {
    if valid_utf8(b) {
        parse_text(decode_utf8(b))
    } else {
        Err(ParseFailure::Encoding)
    }
}

/// A parse outcome as a value of the specification.
pub open spec fn outcome_view(r: Result<Request, ParseError>) -> Result<RequestModel, ParseFailure> {
    match r {
        Ok(q) => Ok(q@),
        Err(e) => Err(e@),
    }
}

/// Relies on std::str::from_utf8: `Ok` exactly on valid UTF-8, holding the
/// characters that the bytes encode.
#[verifier::external_body]
fn decode_text(buffer: &[u8]) -> (r: Option<&str>)
    ensures
        r is Some <==> valid_utf8(buffer@),
        r matches Some(s) ==> s@ == decode_utf8(buffer@),
{
    std::str::from_utf8(buffer).ok()
}

/// Splits a request line on runs of whitespace into method, target and
/// version.
pub fn parse_request_line(raw: &str) -> (r: Result<RequestLine, ParseError>)
    ensures
        match (r, request_line_of(raw@)) {
            (Ok(l), Ok(s)) => l.method == s.0 && l.uri@ == s.1 && l.version@ == s.2,
            (Err(e), Err(f)) => e@ == f,
            _ => false,
        },
{
    let t = chars_of(raw);
    let spans = split_words(&t);
    if spans.len() != 3 {
        return Err(ParseError::MalformedRequestLine(raw.to_owned()));
    }
    let tok = raw.substring_char(spans[0].0, spans[0].1);
    let method = match HTTPMethod::from_str(tok) {
        Ok(m) => m,
        Err(()) => {
            return Err(ParseError::UnknownMethod(tok.to_owned()));
        },
    };
    let uri = raw.substring_char(spans[1].0, spans[1].1).to_owned();
    let version = raw.substring_char(spans[2].0, spans[2].1).to_owned();
    Ok(RequestLine { method, uri, version })
}

/// Parses decoded request text: the request line, then header lines up to
/// the first empty line, then the rest as body.
pub fn parse_str(text: &str) -> (r: Result<Request, ParseError>)
    ensures
        outcome_view(r) == parse_text(text@),
        r matches Ok(q) ==> q.headers.wf(),
{
    let t = chars_of(text);
    let e0 = find_crlf(&t, 0);
    proof {
        lemma_next_crlf_bounds(t@, 0);
    }
    let line = match parse_request_line(text.substring_char(0, e0)) {
        Ok(l) => l,
        Err(e) => {
            return Err(e);
        },
    };
    let mut headers = Headers::new();
    let mut body_start: usize = t.len();
    if e0 < t.len() {
        let mut p: usize = e0 + 2;
        loop
            invariant
                e0 + 2 <= p <= t.len(),
                e0 < t.len(),
                t@ == text@,
                headers.wf(),
                header_scan(t@, p as int, headers@) == header_scan(
                    t@,
                    e0 + 2,
                    Map::empty(),
                ),
            ensures
                headers.wf(),
                body_start <= t.len(),
                header_scan(t@, e0 + 2, Map::empty()) == (headers@, body_start as int),
            decreases t.len() - p,
        {
            let e = find_crlf(&t, p);
            proof {
                lemma_next_crlf_bounds(t@, p as int);
            }
            if e == p {
                body_start = if e < t.len() {
                    e + 2
                } else {
                    t.len()
                };
                break;
            }
            let ghost m0 = headers@;
            let ghost ln = t@.subrange(p as int, e as int);
            let c = find_char(&t, p, e, ':');
            if c < e {
                let (ka, kb) = trim_range(&t, p, c);
                let (va, vb) = trim_range(&t, c + 1, e);
                let key = text.substring_char(ka, kb).to_owned();
                let value = text.substring_char(va, vb).to_owned();
                proof {
                    assert(ln.subrange(0, c - p) =~= t@.subrange(p as int, c as int));
                    assert(ln.subrange(c - p + 1, ln.len() as int) =~= t@.subrange(
                        c + 1,
                        e as int,
                    ));
                }
                headers.insert(key, value);
            }
            assert(headers@ == apply_header_line(m0, ln));
            if e >= t.len() {
                body_start = t.len();
                break;
            }
            p = e + 2;
        }
    }
    let rest = text.substring_char(body_start, t.len());
    let body = if rest.unicode_len() == 0 {
        None
    } else {
        Some(rest.to_owned())
    };
    Ok(Request { line, headers, body })
}

/// Parses one complete request from the bytes of one read.
pub fn parse(buffer: &[u8]) -> (r: Result<Request, ParseError>)
    ensures
        outcome_view(r) == parse_bytes(buffer@),
        r matches Ok(q) ==> q.headers.wf(),
{
    match decode_text(buffer) {
        Some(text) => parse_str(text),
        None => Err(ParseError::Encoding),
    }
}

/// Non-empty and free of whitespace: a token of the request line.
pub open spec fn plain_token(s: Seq<char>) -> bool {
    s.len() > 0 && forall|k: int| 0 <= k < s.len() ==> !is_ws(s[k])
}

/// Non-empty, without whitespace at either end and without a carriage
/// return: a header key or value that trimming keeps whole.
pub open spec fn header_field(s: Seq<char>) -> bool {
    &&& s.len() > 0
    &&& !is_ws(s[0])
    &&& !is_ws(s.last())
    &&& forall|k: int| 0 <= k < s.len() ==> s[k] != '\r'
}

/// The text `"<METHOD> <uri> <version>\r\n<key>: <value>\r\n\r\n<body>"`.
pub open spec fn one_header_request(
    m: HTTPMethod,
    uri: Seq<char>,
    version: Seq<char>,
    key: Seq<char>,
    value: Seq<char>,
    body: Seq<char>,
) -> Seq<char> {
    method_name(m) + seq![' '] + uri + seq![' '] + version + seq!['\r', '\n'] + key + seq![
        ':',
        ' ',
    ] + value + seq!['\r', '\n', '\r', '\n'] + body
}

proof fn lemma_method_name_plain(m: HTTPMethod)
    ensures
        plain_token(method_name(m)),
{
    let n = method_name(m);
    assert forall|k: int| 0 <= k < n.len() implies !is_ws(n[k]) by {
        match m {
            HTTPMethod::GET => {},
            HTTPMethod::POST => {},
            HTTPMethod::DELETE => {},
            HTTPMethod::HEAD => {},
            HTTPMethod::PUT => {},
            HTTPMethod::PATCH => {},
            HTTPMethod::OPTIONS => {},
        }
    }
}

proof fn lemma_request_line_round_trip(
    m: HTTPMethod,
    uri: Seq<char>,
    version: Seq<char>,
)
    requires
        plain_token(uri),
        plain_token(version),
    ensures
        request_line_of(method_name(m) + seq![' '] + uri + seq![' '] + version) == Ok::<
            (HTTPMethod, Seq<char>, Seq<char>),
            ParseFailure,
        >((m, uri, version)),
{
    let name = method_name(m);
    lemma_method_name_plain(m);
    lemma_method_name_round_trip(m);
    let l = name + seq![' '] + uri + seq![' '] + version;
    let a = name.len() as int;
    let b = a + 1 + uri.len();
    let n = l.len() as int;
    assert(l[a] == ' ' && l[b] == ' ');
    assert(forall|k: int| 0 <= k < a ==> l[k] == name[k]);
    assert(forall|k: int| a + 1 <= k < b ==> l[k] == uri[k - a - 1]);
    assert(forall|k: int| b + 1 <= k < n ==> l[k] == version[k - b - 1]);
    lemma_skip_ws_at(l, 0, 0);
    lemma_token_end_at(l, 0, a);
    lemma_skip_ws_at(l, a, a + 1);
    lemma_token_end_at(l, a + 1, b);
    lemma_skip_ws_at(l, b, b + 1);
    lemma_token_end_at(l, b + 1, n);
    assert(l.subrange(0, a) =~= name);
    assert(l.subrange(a + 1, b) =~= uri);
    assert(l.subrange(b + 1, n) =~= version);
    assert(words_from(l, n) == Seq::<Seq<char>>::empty());
    assert(words_from(l, b) == seq![version] + words_from(l, n));
    assert(words_from(l, a) == seq![uri] + words_from(l, b));
    assert(words_from(l, 0) == seq![name] + words_from(l, a));
    assert(words(l) =~= seq![name, uri, version]);
}

/// Parsing a well-formed request with one header gives back its method,
/// target, version, header and body; the body is `None` where it is empty.
pub proof fn lemma_parse_round_trip(
    m: HTTPMethod,
    uri: Seq<char>,
    version: Seq<char>,
    key: Seq<char>,
    value: Seq<char>,
    body: Seq<char>,
)
    requires
        plain_token(uri),
        plain_token(version),
        header_field(key),
        header_field(value),
        forall|k: int| 0 <= k < key.len() ==> key[k] != ':',
    ensures
        parse_bytes(encode_utf8(one_header_request(m, uri, version, key, value, body))) == Ok::<
            RequestModel,
            ParseFailure,
        >(
            RequestModel {
                method: m,
                uri,
                version,
                headers: Map::empty().insert(key, value),
                body: if body.len() == 0 {
                    None
                } else {
                    Some(body)
                },
            },
        ),
{
    let t = one_header_request(m, uri, version, key, value, body);
    encode_utf8_valid_utf8(t);
    encode_utf8_decode_utf8(t);
    lemma_method_name_plain(m);
    let l = method_name(m) + seq![' '] + uri + seq![' '] + version;
    let h = key + seq![':', ' '] + value;
    assert(t =~= l + seq!['\r', '\n'] + h + seq!['\r', '\n', '\r', '\n'] + body);
    let n0 = l.len() as int;
    let p1 = n0 + 2;
    let e1 = p1 + h.len();
    let p2 = e1 + 2;
    let kl = key.len() as int;
    // the request line
    assert forall|k: int| 0 <= k < n0 implies t[k] != '\r' by {
        assert(t[k] == l[k]);
        assert(!is_ws(l[k]) || l[k] == ' ');
    }
    assert(crlf_at(t, n0));
    lemma_next_crlf_at(t, 0, n0);
    assert(t.subrange(0, n0) =~= l);
    lemma_request_line_round_trip(m, uri, version);
    // the header line
    assert forall|k: int| p1 <= k < e1 implies t[k] != '\r' by {
        assert(t[k] == h[k - p1]);
    }
    assert(crlf_at(t, e1));
    lemma_next_crlf_at(t, p1, e1);
    assert(t.subrange(p1, e1) =~= h);
    assert(h[kl] == ':');
    lemma_index_of_at(h, 0, kl, ':');
    assert(h.subrange(0, kl) =~= Seq::<char>::empty() + key);
    lemma_trim_plain(Seq::<char>::empty(), key);
    assert(h.subrange(kl + 1, h.len() as int) =~= seq![' '] + value);
    lemma_trim_plain(seq![' '], value);
    let hm = Map::<Seq<char>, Seq<char>>::empty().insert(key, value);
    assert(apply_header_line(Map::empty(), h) == hm);
    // the blank line
    assert(crlf_at(t, p2));
    lemma_next_crlf_at(t, p2, p2);
    assert(header_scan(t, p2, hm) == (hm, p2 + 2));
    assert(header_scan(t, p1, Map::empty()) == (hm, p2 + 2));
    assert(t.subrange(p2 + 2, t.len() as int) =~= body);
}

} // verus!
