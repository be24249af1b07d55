//! The response model and its serializer to wire-format bytes.
use vstd::prelude::*;
use vstd::string::{StrSliceExecFns, StringExecFns};
use vstd::utf8::encode_utf8;
use crate::request::{ParseFailure, Request, RequestModel, parse_bytes};

verus! {

/// The first second of year 0, in seconds since the Unix epoch.
pub const MIN_UNIX_SECONDS: i64 = -62167219200;

/// The last second of year 9999, in seconds since the Unix epoch.
pub const MAX_UNIX_SECONDS: i64 = 253402300799;

/// The Date header's text for an instant, given in seconds since the Unix epoch.
pub uninterp spec fn rfc2822_of(secs: int) -> Seq<char>;

/// Relies on chrono's `DateTime::<Utc>::from_timestamp`, which gives `Some` for
/// every second of years 0 to 9999, and `DateTime::to_rfc2822`, which renders
/// such a date without failing; its text depends on the instant alone.
#[verifier::external_body]
fn rfc2822_text(secs: i64) -> (r: String)
    requires
        MIN_UNIX_SECONDS <= secs <= MAX_UNIX_SECONDS,
    ensures
        r@ == rfc2822_of(secs as int),
{
    chrono::DateTime::from_timestamp(secs, 0).expect("second in years 0 to 9999").to_rfc2822()
}

/// Relies on chrono's `Utc::now` and `DateTime::timestamp`: the current time,
/// in whole seconds since the Unix epoch. Nothing is promised of its value.
#[verifier::external_body]
fn unix_now() -> (r: i64) {
    chrono::Utc::now().timestamp()
}

/// An instant, in whole seconds since the Unix epoch, within the years 0 to
/// 9999 that the Date header can render.
#[derive(Debug, Clone, Copy, PartialEq, Eq)]
pub struct Timestamp {
    secs: i64,
}

impl View for Timestamp {
    type V = int;

    closed spec fn view(&self) -> int {
        self.secs as int
    }
}

impl Timestamp {
    #[verifier::type_invariant]
    spec fn inv(&self) -> bool {
        MIN_UNIX_SECONDS <= self.secs <= MAX_UNIX_SECONDS
    }

    /// The instant `secs` seconds after the Unix epoch; `None` outside years 0 to 9999.
    pub fn from_unix(secs: i64) -> (r: Option<Timestamp>)
        ensures
            r is Some <==> MIN_UNIX_SECONDS <= secs <= MAX_UNIX_SECONDS,
            r matches Some(t) ==> t@ == secs,
    {
        if MIN_UNIX_SECONDS <= secs && secs <= MAX_UNIX_SECONDS {
            Some(Timestamp { secs })
        } else {
            None
        }
    }

    /// The current instant, where the clock reads a time in years 0 to 9999.
    pub fn now() -> (r: Option<Timestamp>)
        ensures
            r matches Some(t) ==> MIN_UNIX_SECONDS <= t@ <= MAX_UNIX_SECONDS,
    {
        Timestamp::from_unix(unix_now())
    }

    /// Seconds since the Unix epoch.
    pub fn unix_seconds(&self) -> (r: i64)
        ensures
            r == self@,
            MIN_UNIX_SECONDS <= r <= MAX_UNIX_SECONDS,
    {
        proof {
            use_type_invariant(self);
        }
        self.secs
    }

    /// The RFC 2822 text of this instant, as the Date header carries it.
    pub fn to_rfc2822(&self) -> (r: String)
        ensures
            r@ == rfc2822_of(self@),
    {
        proof {
            use_type_invariant(self);
        }
        rfc2822_text(self.secs)
    }
}

/// The status line of a response.
#[derive(Debug)]
pub struct ResponseStatus {
    pub version: String,
    pub code: u16,
    pub message: String,
}

/// The fixed headers of a response. Content-Length is not held here: the
/// serializer takes it from the body.
#[derive(Debug)]
pub struct ResponseHeaders {
    pub server: String,
    pub date: Timestamp,
    pub content_type: String,
}

/// The payload of a response.
#[derive(Debug)]
pub struct ResponseBody {
    pub content: String,
}

/// A complete response.
#[derive(Debug)]
pub struct Response {
    pub status: ResponseStatus,
    pub headers: ResponseHeaders,
    pub body: Option<ResponseBody>,
}

/// The character of a decimal digit.
pub open spec fn digit_char(d: nat) -> char {
    if d == 0 {
        '0'
    } else if d == 1 {
        '1'
    } else if d == 2 {
        '2'
    } else if d == 3 {
        '3'
    } else if d == 4 {
        '4'
    } else if d == 5 {
        '5'
    } else if d == 6 {
        '6'
    } else if d == 7 {
        '7'
    } else if d == 8 {
        '8'
    } else {
        '9'
    }
}

/// `n` in decimal, without leading zeros.
pub open spec fn decimal(n: nat) -> Seq<char>
    decreases n,
{
    if n < 10 {
        seq![digit_char(n)]
    } else {
        decimal(n / 10) + seq![digit_char(n % 10)]
    }
}

/// The text of the body, empty where there is none.
pub open spec fn body_text(r: Response) -> Seq<char> {
    match r.body {
        Some(b) => b.content@,
        None => Seq::empty(),
    }
}

/// The byte length of the body's UTF-8 encoding.
pub open spec fn body_len(r: Response) -> nat {
    encode_utf8(body_text(r)).len()
}

pub open spec fn status_line(r: Response) -> Seq<char> {
    r.status.version@ + " "@ + decimal(r.status.code as nat) + " "@ + r.status.message@ + "\r\n"@
}

pub open spec fn server_line(r: Response) -> Seq<char> {
    "Server: "@ + r.headers.server@ + "\r\n"@
}

pub open spec fn date_line(r: Response) -> Seq<char> {
    "Date: "@ + rfc2822_of(r.headers.date@) + "\r\n"@
}

pub open spec fn content_length_line(n: nat) -> Seq<char> {
    "Content-Length: "@ + decimal(n) + "\r\n"@
}

pub open spec fn content_type_line(r: Response) -> Seq<char> {
    "Content-Type: "@ + r.headers.content_type@ + "\r\n"@
}

/// The header block: status line, the four headers in fixed order, and the
/// blank line that ends it.
pub open spec fn head_text(r: Response) -> Seq<char> {
    status_line(r) + server_line(r) + date_line(r) + content_length_line(body_len(r))
        + content_type_line(r) + "\r\n"@
}

/// The wire text of a response: header block, then the body verbatim.
pub open spec fn response_text(r: Response) -> Seq<char> {
    head_text(r) + body_text(r)
}

fn digit_str(d: u64) -> (r: &'static str)
    requires
        d < 10,
    ensures
        r@ == seq![digit_char(d as nat)],
{
    proof {
        reveal_strlit("0");
        reveal_strlit("1");
        reveal_strlit("2");
        reveal_strlit("3");
        reveal_strlit("4");
        reveal_strlit("5");
        reveal_strlit("6");
        reveal_strlit("7");
        reveal_strlit("8");
        reveal_strlit("9");
    }
    let r = if d == 0 {
        "0"
    } else if d == 1 {
        "1"
    } else if d == 2 {
        "2"
    } else if d == 3 {
        "3"
    } else if d == 4 {
        "4"
    } else if d == 5 {
        "5"
    } else if d == 6 {
        "6"
    } else if d == 7 {
        "7"
    } else if d == 8 {
        "8"
    } else {
        "9"
    };
    assert(r@ =~= seq![digit_char(d as nat)]);
    r
}

/// Appends `n` in decimal to `s`.
fn push_decimal(s: &mut String, n: u64)
    ensures
        final(s)@ == old(s)@ + decimal(n as nat),
    decreases n,
{
    if n >= 10 {
        push_decimal(s, n / 10);
    }
    s.append(digit_str(n % 10));
    assert(final(s)@ =~= old(s)@ + decimal(n as nat));
}

impl Response {
    /// The Content-Length that this response announces: the byte length of
    /// its body, 0 where it has none.
    pub fn content_length(&self) -> (r: usize)
        ensures
            r == body_len(*self),
    {
        match &self.body {
            Some(b) => b.content.as_str().as_bytes().len(),
            None => {
                assert(encode_utf8(Seq::<char>::empty()).len() == 0);
                0
            },
        }
    }

    /// The wire text of this response.
    pub fn to_string(&self) -> (r: String)
        ensures
            r@ == response_text(*self),
    {
        let mut buf = String::new();
        buf.append(self.status.version.as_str());
        buf.append(" ");
        push_decimal(&mut buf, self.status.code as u64);
        buf.append(" ");
        buf.append(self.status.message.as_str());
        buf.append("\r\n");
        buf.append("Server: ");
        buf.append(self.headers.server.as_str());
        buf.append("\r\n");
        buf.append("Date: ");
        let date = self.headers.date.to_rfc2822();
        buf.append(date.as_str());
        buf.append("\r\n");
        buf.append("Content-Length: ");
        let n = self.content_length();
        push_decimal(&mut buf, n as u64);
        buf.append("\r\n");
        buf.append("Content-Type: ");
        buf.append(self.headers.content_type.as_str());
        buf.append("\r\n");
        buf.append("\r\n");
        match &self.body {
            Some(b) => buf.append(b.content.as_str()),
            None => {},
        }
        assert(buf@ =~= response_text(*self));
        buf
    }
}

/// The bytes to write back for `response`: the UTF-8 encoding of its wire text.
pub fn serialize(response: &Response) -> (r: Vec<u8>)
    ensures
        r@ == encode_utf8(response_text(*response)),
{
    let s = response.to_string();
    s.as_str().as_bytes_vec()
}

/// `r` is the echo of `q`: `HTTP/1.1 200 OK`, from `server` at `date`, as
/// `text/plain; charset=utf-8`, with the request's body as its own.
pub open spec fn echoes(q: Request, server: Seq<char>, date: Timestamp, r: Response) -> bool {
    &&& r.status.version@ == "HTTP/1.1"@
    &&& r.status.code == 200
    &&& r.status.message@ == "OK"@
    &&& r.headers.server@ == server
    &&& r.headers.date == date
    &&& r.headers.content_type@ == "text/plain; charset=utf-8"@
    &&& match q.body {
        Some(b) => r.body matches Some(rb) && rb.content@ == b@,
        None => r.body is None,
    }
}

impl Request {
    /// A `200 OK` response that carries this request's body back.
    pub fn response_echo(&self, server: &str, date: Timestamp) -> (r: Response)
        ensures
            echoes(*self, server@, date, r),
    {
        let body = match &self.body {
            Some(b) => Some(ResponseBody { content: b.as_str().to_owned() }),
            None => None,
        };
        Response {
            status: ResponseStatus {
                version: "HTTP/1.1".to_owned(),
                code: 200,
                message: "OK".to_owned(),
            },
            headers: ResponseHeaders {
                server: server.to_owned(),
                date,
                content_type: "text/plain; charset=utf-8".to_owned(),
            },
            body,
        }
    }
}

/// For every buffer that parses to a request with a body, the serialized echo
/// of that request announces as Content-Length exactly the byte length of the
/// body, and the body follows the header block verbatim.
pub proof fn lemma_echo_announces_body_length(
    buffer: Seq<u8>,
    q: Request,
    server: Seq<char>,
    date: Timestamp,
    r: Response,
)
    requires
        parse_bytes(buffer) == Ok::<RequestModel, ParseFailure>(q@),
        q@.body is Some,
        echoes(q, server, date, r),
    ensures
        response_text(r) == status_line(r) + server_line(r) + date_line(r) + content_length_line(
            encode_utf8(q@.body->0).len(),
        ) + content_type_line(r) + "\r\n"@ + q@.body->0,
{
}

/// A response without a body announces `Content-Length: 0`, and nothing
/// follows the blank line that ends its header block.
pub proof fn lemma_no_body_serialization(r: Response)
    requires
        r.body is None,
    ensures
        response_text(r) == status_line(r) + server_line(r) + date_line(r) + content_length_line(0)
            + content_type_line(r) + "\r\n"@,
        content_length_line(0) == "Content-Length: "@ + seq!['0'] + "\r\n"@,
{
    assert(encode_utf8(Seq::<char>::empty()).len() == 0);
    assert(response_text(r) =~= head_text(r));
}

/// Two responses that differ at most in their date serialize to the same
/// text, but for the Date line.
pub proof fn lemma_serialization_differs_only_in_date(r1: Response, r2: Response)
    requires
        r1.status.version@ == r2.status.version@,
        r1.status.code == r2.status.code,
        r1.status.message@ == r2.status.message@,
        r1.headers.server@ == r2.headers.server@,
        r1.headers.content_type@ == r2.headers.content_type@,
        body_text(r1) == body_text(r2),
    ensures
        ({
            let before = status_line(r1) + server_line(r1);
            let after = content_length_line(body_len(r1)) + content_type_line(r1) + "\r\n"@
                + body_text(r1);
            &&& response_text(r1) == before + date_line(r1) + after
            &&& response_text(r2) == before + date_line(r2) + after
        }),
{
    let before = status_line(r1) + server_line(r1);
    let after = content_length_line(body_len(r1)) + content_type_line(r1) + "\r\n"@ + body_text(
        r1,
    );
    assert(response_text(r1) =~= before + date_line(r1) + after);
    assert(response_text(r2) =~= before + date_line(r2) + after);
}

} // verus!
