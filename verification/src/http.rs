//! Core HTTP types and the wire layer: request methods, status codes,
//! requests and responses, and response formatting.

use vstd::prelude::*;
use vstd::utf8::{
    decode_utf8, encode_utf8, is_ascii_chars, is_ascii_chars_encode_utf8, valid_utf8,
};

use crate::error::{
    build_internal_server_error, build_not_found_error, is_internal_error, is_not_found, ParseError,
};
use crate::guess::{check_guess_with, guess_body_spec, guess_of_json, parse_guess};
use crate::utils::{
    append_bytes, append_str_bytes, count_leading, dec_digits, decode_text, digits_val,
    is_unicode_ws, is_ws_char, lemma_count_leading_is, lemma_dec_digits, str_eq, trim_null_bytes,
    trim_nuls_spec, trim_spec, trim_ws_str, u16_dec_digits, ws_pred, FileReadError,
};

verus! {

/// The request methods this server understands.
#[derive(PartialEq, Eq, Structural, Clone, Copy, Debug)]
pub enum HttpType {
    GET,
    POST,
}

/// The status vocabulary of the server.
#[derive(PartialEq, Eq, Structural, Clone, Copy, Debug)]
pub enum StatusCode {
    Okay,
    BadRequest,
    NotFound,
    InternalServerError,
}

impl StatusCode {
    /// The reason phrase sent on the status line for this status.
    pub open spec fn phrase_spec(self) -> Seq<char> {
        match self {
            StatusCode::Okay => "OK"@,
            StatusCode::NotFound => "Not Found"@,
            StatusCode::BadRequest => "Bad Request"@,
            StatusCode::InternalServerError => "InternalServerError"@,
        }
    }

    /// Reason phrase of the status, as written on the wire.
    pub fn phrase(&self) -> (r: &str)
        ensures
            r@ == self.phrase_spec(),
    {
        match self {
            StatusCode::Okay => "OK",
            StatusCode::NotFound => "Not Found",
            StatusCode::BadRequest => "Bad Request",
            StatusCode::InternalServerError => "InternalServerError",
        }
    }
}

/// A parsed request: its method, the path exactly as sent, and for POST
/// the text after the first blank-line separator.
pub struct Request {
    pub method: HttpType,
    pub path: String,
    pub data: Option<String>,
}

/// A response about to be put on the wire. Headers are kept in the order
/// they were inserted; the body is raw bytes.
pub struct Response {
    pub status_code: u16,
    pub status_line: StatusCode,
    pub headers: Vec<(String, String)>,
    pub body: Vec<u8>,
}

/// Whether `r` carries exactly this status code, reason, no headers, and body.
pub open spec fn is_resp(r: Response, code: u16, status: StatusCode, body: Seq<u8>) -> bool {
    &&& r.status_code == code
    &&& r.status_line == status
    &&& r.headers@.len() == 0
    &&& r.body@ == body
}

/// The wire bytes of one header line: `name: value` followed by CRLF.
pub open spec fn header_bytes(h: (String, String)) -> Seq<u8> {
    encode_utf8(h.0@) + encode_utf8(": "@) + encode_utf8(h.1@) + encode_utf8("\r\n"@)
}

/// The wire bytes of a header block, one line per header, in order.
pub open spec fn headers_bytes(hs: Seq<(String, String)>) -> Seq<u8>
    decreases hs.len(),
{
    if hs.len() == 0 {
        Seq::empty()
    } else {
        header_bytes(hs[0]) + headers_bytes(hs.drop_first())
    }
}

/// The wire bytes of the status line: `HTTP/1.1 {code} {reason}` and CRLF.
pub open spec fn status_line_bytes(code: u16, status: StatusCode) -> Seq<u8> {
    encode_utf8("HTTP/1.1 "@) + dec_digits(code as nat) + encode_utf8(" "@) + encode_utf8(
        status.phrase_spec(),
    ) + encode_utf8("\r\n"@)
}

/// The exact wire bytes of a response: status line, header lines, a blank
/// line, then the body verbatim. No Content-Length header is synthesized.
pub open spec fn format_spec(r: Response) -> Seq<u8> {
    status_line_bytes(r.status_code, r.status_line) + headers_bytes(r.headers@) + encode_utf8(
        "\r\n"@,
    ) + r.body@
}

/// Appending one header extends the header block by that header's line.
proof fn lemma_headers_bytes_push(hs: Seq<(String, String)>, h: (String, String))
    ensures
        headers_bytes(hs.push(h)) == headers_bytes(hs) + header_bytes(h),
    decreases hs.len(),
{
    if hs.len() == 0 {
        assert(hs.push(h).drop_first() =~= Seq::<(String, String)>::empty());
        assert(hs.push(h)[0] == h);
        assert(headers_bytes(hs.push(h).drop_first()) == Seq::<u8>::empty());
        assert(headers_bytes(hs.push(h)) =~= header_bytes(h));
        assert(headers_bytes(hs) + header_bytes(h) =~= header_bytes(h));
    } else {
        assert(hs.push(h).drop_first() =~= hs.drop_first().push(h));
        lemma_headers_bytes_push(hs.drop_first(), h);
        assert(headers_bytes(hs.push(h)) == header_bytes(hs[0]) + (headers_bytes(hs.drop_first())
            + header_bytes(h)));
        assert(header_bytes(hs[0]) + (headers_bytes(hs.drop_first()) + header_bytes(h)) =~= (
        header_bytes(hs[0]) + headers_bytes(hs.drop_first())) + header_bytes(h));
    }
}

impl Response {
    /// Serialize the response into its exact wire byte sequence.
    pub fn format(&self) -> (r: Vec<u8>)
        ensures
            r@ == format_spec(*self),
    {
        let mut out: Vec<u8> = Vec::new();
        append_str_bytes(&mut out, "HTTP/1.1 ");
        let digits = u16_dec_digits(self.status_code);
        append_bytes(&mut out, digits.as_slice());
        append_str_bytes(&mut out, " ");
        append_str_bytes(&mut out, self.status_line.phrase());
        append_str_bytes(&mut out, "\r\n");
        proof {
            assert(out@ =~= status_line_bytes(self.status_code, self.status_line));
        }
        let ghost sl = status_line_bytes(self.status_code, self.status_line);
        let mut i: usize = 0;
        while i < self.headers.len()
            invariant
                i <= self.headers@.len(),
                out@ == sl + headers_bytes(self.headers@.subrange(0, i as int)),
            decreases self.headers@.len() - i,
        {
            let ghost done = self.headers@.subrange(0, i as int);
            let k: &String = &self.headers[i].0;
            append_str_bytes(&mut out, k.as_str());
            append_str_bytes(&mut out, ": ");
            let v: &String = &self.headers[i].1;
            append_str_bytes(&mut out, v.as_str());
            append_str_bytes(&mut out, "\r\n");
            proof {
                lemma_headers_bytes_push(done, self.headers@[i as int]);
                assert(done.push(self.headers@[i as int]) =~= self.headers@.subrange(0, i + 1));
                assert(out@ =~= sl + headers_bytes(self.headers@.subrange(0, i + 1)));
            }
            i += 1;
        }
        proof {
            assert(self.headers@.subrange(0, self.headers@.len() as int) =~= self.headers@);
        }
        append_str_bytes(&mut out, "\r\n");
        append_bytes(&mut out, self.body.as_slice());
        proof {
            assert(out@ =~= format_spec(*self));
        }
        out
    }
}

/// The predicate selecting everything but a line feed.
pub open spec fn non_nl_pred() -> spec_fn(char) -> bool {
    |c: char| c != '\n'
}

/// The predicate selecting non-whitespace characters.
pub open spec fn non_ws_pred() -> spec_fn(char) -> bool {
    |c: char| !is_unicode_ws(c)
}

/// Index of the first line feed in `cs`, or its length if there is none.
pub open spec fn line_end(cs: Seq<char>) -> int {
    count_leading(cs, non_nl_pred())
}

/// The request line: everything before the first line feed.
pub open spec fn request_line(cs: Seq<char>) -> Seq<char> {
    cs.take(line_end(cs))
}

/// First non-whitespace position of `l` at or after `i`.
pub open spec fn skip_ws_from(l: Seq<char>, i: int) -> int {
    i + count_leading(l.skip(i), ws_pred())
}

/// First whitespace position of `l` at or after `i`.
pub open spec fn skip_tok_from(l: Seq<char>, i: int) -> int {
    i + count_leading(l.skip(i), non_ws_pred())
}

pub open spec fn tok0_start(l: Seq<char>) -> int {
    skip_ws_from(l, 0)
}

pub open spec fn tok0_end(l: Seq<char>) -> int {
    skip_tok_from(l, tok0_start(l))
}

pub open spec fn tok1_start(l: Seq<char>) -> int {
    skip_ws_from(l, tok0_end(l))
}

pub open spec fn tok1_end(l: Seq<char>) -> int {
    skip_tok_from(l, tok1_start(l))
}

pub open spec fn tok2_start(l: Seq<char>) -> int {
    skip_ws_from(l, tok1_end(l))
}

/// Whether the line splits into at least three whitespace-separated tokens.
pub open spec fn has_three_tokens(l: Seq<char>) -> bool {
    tok2_start(l) < l.len()
}

/// The first whitespace-separated token of the line: the method.
pub open spec fn tok0(l: Seq<char>) -> Seq<char> {
    l.subrange(tok0_start(l), tok0_end(l))
}

/// The second whitespace-separated token of the line: the path.
pub open spec fn tok1(l: Seq<char>) -> Seq<char> {
    l.subrange(tok1_start(l), tok1_end(l))
}

/// Whether the blank-line separator CR LF CR LF stands at position `j`.
pub open spec fn sep_at(cs: Seq<char>, j: int) -> bool {
    &&& 0 <= j
    &&& j + 4 <= cs.len()
    &&& cs[j] == '\r'
    &&& cs[j + 1] == '\n'
    &&& cs[j + 2] == '\r'
    &&& cs[j + 3] == '\n'
}

/// Position of the first blank-line separator at or after `i`, or -1.
pub open spec fn sep_scan(cs: Seq<char>, i: int) -> int
    decreases cs.len() - i,
    when 0 <= i
{
    if i + 4 > cs.len() {
        -1
    } else if sep_at(cs, i) {
        i
    } else {
        sep_scan(cs, i + 1)
    }
}

/// Everything after the first blank-line separator, or empty if there is
/// none: the body a POST request carries.
pub open spec fn post_body(cs: Seq<char>) -> Seq<char> {
    let j = sep_scan(cs, 0);
    if j >= 0 {
        cs.skip(j + 4)
    } else {
        Seq::empty()
    }
}

/// Why parsing `buf` fails, or `None` when it succeeds: the buffer must
/// decode as text, its request line must hold at least three tokens, and
/// the first must be exactly "GET" or "POST".
pub open spec fn parse_error_of(buf: Seq<u8>) -> Option<ParseError> {
    if !valid_utf8(buf) {
        Some(ParseError::InvalidEncoding)
    } else {
        let l = request_line(decode_utf8(buf));
        if !has_three_tokens(l) {
            Some(ParseError::MalformedRequestLine)
        } else if tok0(l) != "GET"@ && tok0(l) != "POST"@ {
            Some(ParseError::UnsupportedMethod)
        } else {
            None
        }
    }
}

/// What a successfully parsed request holds: the method named by the first
/// token, the path verbatim from the second, and for POST exactly the text
/// after the first blank-line separator.
pub open spec fn parsed_request(buf: Seq<u8>, req: Request) -> bool {
    let cs = decode_utf8(buf);
    let l = request_line(cs);
    &&& req.method == (if tok0(l) == "GET"@ {
        HttpType::GET
    } else {
        HttpType::POST
    })
    &&& req.path@ == tok1(l)
    &&& (req.method == HttpType::GET ==> req.data is None)
    &&& (req.method == HttpType::POST ==> req.data is Some && req.data.unwrap()@ == post_body(cs))
}

/// A skip-while-whitespace scan result pins down `skip_ws_from`.
proof fn lemma_skip_ws_is(l: Seq<char>, from: int, r: int)
    requires
        0 <= from <= r <= l.len(),
        forall|j: int| from <= j < r ==> is_unicode_ws(l[j]),
        r < l.len() ==> !is_unicode_ws(l[r]),
    ensures
        skip_ws_from(l, from) == r,
{
    let t = l.skip(from);
    assert forall|j: int| 0 <= j < r - from implies (ws_pred())(t[j]) by {
        assert(t[j] == l[from + j]);
    }
    if r - from < t.len() {
        assert(t[r - from] == l[r]);
    }
    lemma_count_leading_is(t, ws_pred(), r - from);
}

/// A skip-while-token scan result pins down `skip_tok_from`.
proof fn lemma_skip_tok_is(l: Seq<char>, from: int, r: int)
    requires
        0 <= from <= r <= l.len(),
        forall|j: int| from <= j < r ==> !is_unicode_ws(l[j]),
        r < l.len() ==> is_unicode_ws(l[r]),
    ensures
        skip_tok_from(l, from) == r,
{
    let t = l.skip(from);
    assert forall|j: int| 0 <= j < r - from implies (non_ws_pred())(t[j]) by {
        assert(t[j] == l[from + j]);
    }
    if r - from < t.len() {
        assert(t[r - from] == l[r]);
    }
    lemma_count_leading_is(t, non_ws_pred(), r - from);
}

/// A left-to-right separator scan result pins down `sep_scan`.
proof fn lemma_sep_scan_from(cs: Seq<char>, i: int, n: int)
    requires
        0 <= i <= n,
        forall|j: int| i <= j < n ==> !sep_at(cs, j),
        sep_at(cs, n) || n + 4 > cs.len(),
    ensures
        sep_scan(cs, i) == if sep_at(cs, n) {
            n
        } else {
            -1
        },
    decreases n - i,
{
    if i + 4 > cs.len() {
        assert(!sep_at(cs, n));
    } else if i < n {
        assert(!sep_at(cs, i));
        lemma_sep_scan_from(cs, i + 1, n);
    }
}

/// Scan forward from `from` to the first non-whitespace character before `end`.
fn scan_ws(s: &str, from: usize, end: usize) -> (r: usize)
    requires
        from <= end <= s@.len(),
    ensures
        from <= r <= end,
        forall|j: int| from <= j < r ==> is_unicode_ws(s@[j]),
        r < end ==> !is_unicode_ws(s@[r as int]),
{
    let mut i = from;
    loop
        invariant
            from <= i <= end <= s@.len(),
            forall|j: int| from <= j < i ==> is_unicode_ws(s@[j]),
        ensures
            from <= i <= end,
            forall|j: int| from <= j < i ==> is_unicode_ws(s@[j]),
            i < end ==> !is_unicode_ws(s@[i as int]),
        decreases end - i,
    {
        if i < end {
            if is_ws_char(s.get_char(i)) {
                i += 1;
            } else {
                break;
            }
        } else {
            break;
        }
    }
    i
}

/// Scan forward from `from` to the first whitespace character before `end`.
fn scan_tok(s: &str, from: usize, end: usize) -> (r: usize)
    requires
        from <= end <= s@.len(),
    ensures
        from <= r <= end,
        forall|j: int| from <= j < r ==> !is_unicode_ws(s@[j]),
        r < end ==> is_unicode_ws(s@[r as int]),
{
    let mut i = from;
    loop
        invariant
            from <= i <= end <= s@.len(),
            forall|j: int| from <= j < i ==> !is_unicode_ws(s@[j]),
        ensures
            from <= i <= end,
            forall|j: int| from <= j < i ==> !is_unicode_ws(s@[j]),
            i < end ==> is_unicode_ws(s@[i as int]),
        decreases end - i,
    {
        if i < end {
            if !is_ws_char(s.get_char(i)) {
                i += 1;
            } else {
                break;
            }
        } else {
            break;
        }
    }
    i
}

/// Turn a raw buffer into a request, or say exactly why it cannot be one.
pub fn parse_request(buffer: &[u8]) -> (r: Result<Request, ParseError>)
    ensures
        match r {
            Err(e) => parse_error_of(buffer@) == Some(e),
            Ok(req) => parse_error_of(buffer@) is None && parsed_request(buffer@, req),
        },
{
    let s = match decode_text(buffer) {
        Some(s) => s,
        None => {
            return Err(ParseError::InvalidEncoding);
        },
    };
    let ghost cs = s@;
    let len = s.unicode_len();
    let mut e: usize = 0;
    loop
        invariant
            0 <= e <= len,
            len == cs.len(),
            s@ == cs,
            forall|j: int| 0 <= j < e ==> cs[j] != '\n',
        ensures
            0 <= e <= len,
            forall|j: int| 0 <= j < e ==> cs[j] != '\n',
            e < len ==> cs[e as int] == '\n',
        decreases len - e,
    {
        if e < len {
            if s.get_char(e) != '\n' {
                e += 1;
            } else {
                break;
            }
        } else {
            break;
        }
    }
    proof {
        assert forall|j: int| 0 <= j < e implies (non_nl_pred())(cs[j]) by {}
        lemma_count_leading_is(cs, non_nl_pred(), e as int);
    }
    let ghost l = request_line(cs);
    proof {
        assert(l =~= cs.take(e as int));
        assert(l.len() == e);
    }
    let t0s = scan_ws(s, 0, e);
    let t0e = scan_tok(s, t0s, e);
    let t1s = scan_ws(s, t0e, e);
    let t1e = scan_tok(s, t1s, e);
    let t2s = scan_ws(s, t1e, e);
    proof {
        assert forall|j: int| 0 <= j < e implies l[j] == cs[j] by {}
        lemma_skip_ws_is(l, 0, t0s as int);
        lemma_skip_tok_is(l, t0s as int, t0e as int);
        lemma_skip_ws_is(l, t0e as int, t1s as int);
        lemma_skip_tok_is(l, t1s as int, t1e as int);
        lemma_skip_ws_is(l, t1e as int, t2s as int);
    }
    if t2s == e {
        return Err(ParseError::MalformedRequestLine);
    }
    let m = s.substring_char(t0s, t0e);
    proof {
        assert(m@ =~= tok0(l));
    }
    let method: HttpType = if str_eq(m, "GET") {
        HttpType::GET
    } else if str_eq(m, "POST") {
        proof {
            reveal_strlit("GET");
            reveal_strlit("POST");
            assert("GET"@.len() == 3 && "POST"@.len() == 4);
        }
        HttpType::POST
    } else {
        return Err(ParseError::UnsupportedMethod);
    };
    let path: String = s.substring_char(t1s, t1e).to_owned();
    proof {
        assert(path@ =~= tok1(l));
    }
    let mut data: Option<String> = None;
    if let HttpType::POST = method {
        let mut i: usize = 0;
        loop
            invariant
                0 <= i <= len,
                len == cs.len(),
                s@ == cs,
                forall|j: int| 0 <= j < i ==> !sep_at(cs, j),
            ensures
                0 <= i <= len,
                forall|j: int| 0 <= j < i ==> !sep_at(cs, j),
                i + 4 <= len ==> sep_at(cs, i as int),
            decreases len - i,
        {
            if len >= 4 && i <= len - 4 {
                if s.get_char(i) == '\r' && s.get_char(i + 1) == '\n' && s.get_char(i + 2) == '\r'
                    && s.get_char(i + 3) == '\n' {
                    break;
                } else {
                    proof {
                        assert(!sep_at(cs, i as int));
                    }
                    i += 1;
                }
            } else {
                break;
            }
        }
        if len >= 4 && i <= len - 4 {
            let b = s.substring_char(i + 4, len);
            proof {
                lemma_sep_scan_from(cs, 0, i as int);
                assert(b@ =~= post_body(cs));
            }
            data = Some(b.to_owned());
        } else {
            proof {
                lemma_sep_scan_from(cs, 0, i as int);
            }
            data = Some(String::new());
        }
    }
    Ok(Request { method, path, data })
}

/// The static assets a GET request can route to.
#[derive(PartialEq, Eq, Structural, Clone, Copy, Debug)]
pub enum Asset {
    Index,
    MainJs,
    Favicon,
    Styles,
    NotFound,
}

/// The fixed routing table: an exact match of the trimmed path against the
/// known static paths; everything else routes to the Not-Found asset.
pub open spec fn route_spec(path: Seq<char>) -> Asset {
    let t = trim_spec(path);
    if t == "/"@ {
        Asset::Index
    } else if t == "/main.js"@ {
        Asset::MainJs
    } else if t == "/favicon.ico"@ {
        Asset::Favicon
    } else if t == "/styles.css"@ {
        Asset::Styles
    } else {
        Asset::NotFound
    }
}

/// Route a GET path to its asset by exact match on the trimmed path.
pub fn route_get(path: &str) -> (a: Asset)
    ensures
        a == route_spec(path@),
{
    let t = trim_ws_str(path);
    if str_eq(t, "/") {
        Asset::Index
    } else if str_eq(t, "/main.js") {
        Asset::MainJs
    } else if str_eq(t, "/favicon.ico") {
        Asset::Favicon
    } else if str_eq(t, "/styles.css") {
        Asset::Styles
    } else {
        Asset::NotFound
    }
}

/// What answering a GET yields, given the file collaborator's answer for
/// the routed asset: 200 with the file's bytes, the canonical Not-Found
/// response on its not-found failure, the canonical Internal-Server-Error
/// response on any other failure.
pub open spec fn get_resp_spec(file: Result<Vec<u8>, FileReadError>, r: Response) -> bool {
    match file {
        Ok(c) => is_resp(r, 200, StatusCode::Okay, c@),
        Err(FileReadError::FileNotFound(_)) => is_not_found(r),
        Err(FileReadError::IOError) => is_internal_error(r),
    }
}

/// Build the GET response from the file collaborator's answer.
pub fn handle_get(file: Result<Vec<u8>, FileReadError>) -> (r: Response)
    ensures
        get_resp_spec(file, r),
{
    match file {
        Ok(contents) => Response {
            status_code: 200,
            status_line: StatusCode::Okay,
            headers: Vec::new(),
            body: contents,
        },
        Err(FileReadError::FileNotFound(_)) => build_not_found_error(),
        Err(FileReadError::IOError) => build_internal_server_error(),
    }
}

/// What answering a POST yields: only path "/" is served, and only with a
/// body whose cleaned text decodes as a guess payload; the reply carries
/// the exact guess-result bytes for the drawn secret.
pub open spec fn post_resp_spec(
    path: Seq<char>,
    data: Option<Seq<char>>,
    secret: u8,
    r: Response,
) -> bool {
    if trim_spec(path) != "/"@ {
        is_not_found(r)
    } else {
        match data {
            None => is_internal_error(r),
            Some(d) => {
                let cleaned = trim_spec(trim_nuls_spec(d));
                match guess_of_json(cleaned) {
                    None => is_internal_error(r),
                    Some(g) => is_resp(r, 200, StatusCode::Okay, guess_body_spec(g, secret)),
                }
            },
        }
    }
}

/// The characters of an optional body text.
pub open spec fn data_view(d: Option<String>) -> Option<Seq<char>> {
    match d {
        Some(s) => Some(s@),
        None => None,
    }
}

/// Answer a POST request, comparing the decoded guess against the secret
/// the caller drew.
pub fn handle_post(req: Request, secret: u8) -> (r: Response)
    requires
        1 <= secret <= 100,
    ensures
        post_resp_spec(req.path@, data_view(req.data), secret, r),
{
    let t = trim_ws_str(req.path.as_str());
    if !str_eq(t, "/") {
        build_not_found_error()
    } else {
        match &req.data {
            None => build_internal_server_error(),
            Some(d) => {
                let cleaned = trim_null_bytes(d.as_str());
                match parse_guess(cleaned.as_str()) {
                    Some(g) => Response {
                        status_code: 200,
                        status_line: StatusCode::Okay,
                        headers: Vec::new(),
                        body: check_guess_with(g.data, secret),
                    },
                    None => build_internal_server_error(),
                }
            },
        }
    }
}

/// What the dispatcher asks of its caller next: read this asset and hand
/// the answer to `handle_get`, or send this finished response.
pub enum Step {
    Read(Asset),
    Done(Response),
}

/// What dispatching a request buffer yields: a parse failure resolves to
/// the canonical Internal-Server-Error response, a GET becomes a read of
/// the routed asset, and a POST is answered outright.
pub open spec fn response_step_spec(buf: Seq<u8>, secret: u8, s: Step) -> bool {
    match parse_error_of(buf) {
        Some(_) => match s {
            Step::Done(r) => is_internal_error(r),
            Step::Read(_) => false,
        },
        None => {
            let cs = decode_utf8(buf);
            let l = request_line(cs);
            if tok0(l) == "GET"@ {
                s == Step::Read(route_spec(tok1(l)))
            } else {
                match s {
                    Step::Done(r) => post_resp_spec(tok1(l), Some(post_body(cs)), secret, r),
                    Step::Read(_) => false,
                }
            }
        },
    }
}

/// Parse and dispatch one request buffer with the secret the caller drew.
pub fn handle_response(buffer: &[u8], secret: u8) -> (s: Step)
    requires
        1 <= secret <= 100,
    ensures
        response_step_spec(buffer@, secret, s),
{
    let req = match parse_request(buffer) {
        Ok(req) => req,
        Err(_) => {
            return Step::Done(build_internal_server_error());
        },
    };
    match req.method {
        HttpType::GET => Step::Read(route_get(req.path.as_str())),
        HttpType::POST => Step::Done(handle_post(req, secret)),
    }
}

/// Two formattings of equal responses are byte-identical: formatting is a
/// function of the response value alone.
pub proof fn lemma_format_idempotent(a: Response, b: Response, x: Seq<u8>, y: Seq<u8>)
    requires
        a == b,
        x == format_spec(a),
        y == format_spec(b),
    ensures
        x == y,
{
}

/// A file served for a GET yields status 200 with the file's bytes as the
/// body, whatever asset was routed.
pub proof fn lemma_served_file(file: Result<Vec<u8>, FileReadError>, r: Response)
    requires
        get_resp_spec(file, r),
        file is Ok,
    ensures
        r.status_code == 200,
        r.body@ == file.unwrap()@,
{
}

/// A GET path inside the static table routes to its own asset, and the
/// file served for it comes back verbatim under status 200.
pub proof fn lemma_known_path_served(
    path: Seq<char>,
    file: Result<Vec<u8>, FileReadError>,
    r: Response,
)
    requires
        trim_spec(path) == "/"@ || trim_spec(path) == "/main.js"@ || trim_spec(path)
            == "/favicon.ico"@ || trim_spec(path) == "/styles.css"@,
        file is Ok,
        get_resp_spec(file, r),
    ensures
        route_spec(path) != Asset::NotFound,
        r.status_code == 200,
        r.body@ == file.unwrap()@,
{
}

/// A GET path outside the static table routes to the Not-Found asset, and
/// the collaborator's not-found failure for it yields status 404 with the
/// literal body "Not Found".
pub proof fn lemma_unknown_path_not_found(
    path: Seq<char>,
    file: Result<Vec<u8>, FileReadError>,
    r: Response,
)
    requires
        trim_spec(path) != "/"@,
        trim_spec(path) != "/main.js"@,
        trim_spec(path) != "/favicon.ico"@,
        trim_spec(path) != "/styles.css"@,
        file matches Err(FileReadError::FileNotFound(_)),
        get_resp_spec(file, r),
    ensures
        route_spec(path) == Asset::NotFound,
        r.status_code == 404,
        r.body@ == encode_utf8("Not Found"@),
{
}

/// A well-formed guess posted to "/" is answered 200 with the exact reply
/// bytes, whose message is "equal" precisely when the guess hit the secret.
pub proof fn lemma_guess_answered(
    path: Seq<char>,
    data: Option<Seq<char>>,
    secret: u8,
    r: Response,
    g: u8,
)
    requires
        post_resp_spec(path, data, secret, r),
        trim_spec(path) == "/"@,
        data is Some,
        guess_of_json(trim_spec(trim_nuls_spec(data.unwrap()))) == Some(g),
    ensures
        r.status_code == 200,
        r.body@ == guess_body_spec(g, secret),
        (crate::guess::guess_message(g, secret) == "equal"@) <==> g == secret,
{
    crate::guess::lemma_guess_message_equal_iff(g, secret);
}

/// A POST body that does not decode as a guess payload is answered 500
/// with the literal body "Internal Server Error".
pub proof fn lemma_bad_payload_500(path: Seq<char>, data: Option<Seq<char>>, secret: u8, r: Response)
    requires
        post_resp_spec(path, data, secret, r),
        trim_spec(path) == "/"@,
        data is Some,
        guess_of_json(trim_spec(trim_nuls_spec(data.unwrap()))) is None,
    ensures
        r.status_code == 500,
        r.body@ == encode_utf8("Internal Server Error"@),
{
}

/// A POST to any path other than "/" is answered 404.
pub proof fn lemma_post_wrong_path_404(
    path: Seq<char>,
    data: Option<Seq<char>>,
    secret: u8,
    r: Response,
)
    requires
        post_resp_spec(path, data, secret, r),
        trim_spec(path) != "/"@,
    ensures
        r.status_code == 404,
{
}

/// A buffer that fails to parse — bad encoding, a short request line, or
/// an unknown method — is answered 500.
pub proof fn lemma_parse_failure_500(buf: Seq<u8>, secret: u8, s: Step)
    requires
        response_step_spec(buf, secret, s),
        parse_error_of(buf) is Some,
    ensures
        match s {
            Step::Done(r) => r.status_code == 500 && r.body@ == encode_utf8(
                "Internal Server Error"@,
            ),
            Step::Read(_) => false,
        },
{
}

/// The predicate selecting everything but an ASCII space byte.
pub open spec fn non_sp_byte() -> spec_fn(u8) -> bool {
    |x: u8| x != 0x20
}

/// The predicate selecting everything but an ASCII carriage-return byte.
pub open spec fn non_cr_byte() -> spec_fn(u8) -> bool {
    |x: u8| x != 0x0D
}

/// The status code read back from formatted wire bytes: the decimal value
/// of the bytes between the first space and the second.
pub open spec fn parsed_code(b: Seq<u8>) -> int {
    let de = 9 + count_leading(b.skip(9), non_sp_byte());
    digits_val(b.subrange(9, de))
}

/// The reason read back from formatted wire bytes: the bytes after the
/// second space, up to the first carriage return.
pub open spec fn parsed_reason(b: Seq<u8>) -> Seq<u8> {
    let de = 9 + count_leading(b.skip(9), non_sp_byte());
    let re = de + 1 + count_leading(b.skip(de + 1), non_cr_byte());
    b.subrange(de + 1, re)
}

/// Whether the bytes CR LF CR LF stand at position `j`.
pub open spec fn sep_at_bytes(bs: Seq<u8>, j: int) -> bool {
    &&& 0 <= j
    &&& j + 4 <= bs.len()
    &&& bs[j] == 0x0D
    &&& bs[j + 1] == 0x0A
    &&& bs[j + 2] == 0x0D
    &&& bs[j + 3] == 0x0A
}

/// Position of the first CR LF CR LF at or after `i`, or -1.
pub open spec fn sep_scan_bytes(bs: Seq<u8>, i: int) -> int
    decreases bs.len() - i,
    when 0 <= i
{
    if i + 4 > bs.len() {
        -1
    } else if sep_at_bytes(bs, i) {
        i
    } else {
        sep_scan_bytes(bs, i + 1)
    }
}

/// The body read back from formatted wire bytes: everything after the
/// first blank line.
pub open spec fn parsed_body(bs: Seq<u8>) -> Seq<u8> {
    let j = sep_scan_bytes(bs, 0);
    if j >= 0 {
        bs.skip(j + 4)
    } else {
        Seq::empty()
    }
}

/// A left-to-right byte separator scan result pins down `sep_scan_bytes`.
proof fn lemma_sep_scan_bytes_from(bs: Seq<u8>, i: int, n: int)
    requires
        0 <= i <= n,
        forall|j: int| i <= j < n ==> !sep_at_bytes(bs, j),
        sep_at_bytes(bs, n) || n + 4 > bs.len(),
    ensures
        sep_scan_bytes(bs, i) == if sep_at_bytes(bs, n) {
            n
        } else {
            -1
        },
    decreases n - i,
{
    if i + 4 > bs.len() {
        assert(!sep_at_bytes(bs, n));
    } else if i < n {
        assert(!sep_at_bytes(bs, i));
        lemma_sep_scan_bytes_from(bs, i + 1, n);
    }
}

/// Every reason phrase is ASCII and its bytes hold no carriage return.
proof fn lemma_phrase_bytes(st: StatusCode)
    ensures
        is_ascii_chars(st.phrase_spec()),
        encode_utf8(st.phrase_spec()).len() == st.phrase_spec().len(),
        forall|i: int|
            0 <= i < encode_utf8(st.phrase_spec()).len() ==> #[trigger] encode_utf8(
                st.phrase_spec(),
            )[i] != 0x0D,
{
    reveal_strlit("OK");
    reveal_strlit("Not Found");
    reveal_strlit("Bad Request");
    reveal_strlit("InternalServerError");
    let p = st.phrase_spec();
    assert(is_ascii_chars(p));
    is_ascii_chars_encode_utf8(p);
    assert forall|i: int| 0 <= i < encode_utf8(p).len() implies #[trigger] encode_utf8(p)[i]
        != 0x0D by {
        assert(encode_utf8(p)[i] == p[i] as u8);
        assert(p[i] != '\r');
    }
}

/// Round trip of the status line: re-parsing formatted wire bytes recovers
/// the status code and the exact reason bytes, for any response.
pub proof fn lemma_format_status_round_trip(r: Response)
    ensures
        parsed_code(format_spec(r)) == r.status_code,
        parsed_reason(format_spec(r)) == encode_utf8(r.status_line.phrase_spec()),
{
    let b = format_spec(r);
    let a = encode_utf8("HTTP/1.1 "@);
    let d = dec_digits(r.status_code as nat);
    let sp = encode_utf8(" "@);
    let p = encode_utf8(r.status_line.phrase_spec());
    let c = encode_utf8("\r\n"@);
    let h = headers_bytes(r.headers@);
    reveal_strlit("HTTP/1.1 ");
    reveal_strlit(" ");
    reveal_strlit("\r\n");
    assert(is_ascii_chars("HTTP/1.1 "@));
    assert(is_ascii_chars(" "@));
    assert(is_ascii_chars("\r\n"@));
    is_ascii_chars_encode_utf8("HTTP/1.1 "@);
    is_ascii_chars_encode_utf8(" "@);
    is_ascii_chars_encode_utf8("\r\n"@);
    lemma_dec_digits(r.status_code as nat);
    lemma_phrase_bytes(r.status_line);
    assert(a.len() == 9);
    assert(sp.len() == 1 && sp[0] == 0x20);
    assert(c.len() == 2 && c[0] == 0x0D && c[1] == 0x0A);
    let sl = a + d + sp + p + c;
    let rest = h + c + r.body@;
    assert(b =~= sl + rest);
    let t = b.skip(9);
    assert forall|j: int| 0 <= j < d.len() implies (non_sp_byte())(t[j]) by {
        assert(t[j] == b[9 + j]);
        assert(sl[9 + j] == d[j]);
        assert(b[9 + j] == sl[9 + j]);
        assert(0x30 <= d[j] <= 0x39);
    }
    assert(sl[9 + d.len() as int] == sp[0]);
    assert(t[d.len() as int] == b[9 + d.len() as int]);
    assert(b[9 + d.len() as int] == sl[9 + d.len() as int]);
    lemma_count_leading_is(t, non_sp_byte(), d.len() as int);
    let de: int = 9 + d.len() as int;
    assert(b.subrange(9, de) =~= d);
    let u = b.skip(de + 1);
    assert forall|j: int| 0 <= j < p.len() implies (non_cr_byte())(u[j]) by {
        assert(u[j] == b[de + 1 + j]);
        assert(sl[de + 1 + j] == p[j]);
        assert(b[de + 1 + j] == sl[de + 1 + j]);
    }
    assert(sl[de + 1 + p.len()] == c[0]);
    assert(u[p.len() as int] == b[de + 1 + p.len()]);
    assert(b[de + 1 + p.len()] == sl[de + 1 + p.len()]);
    lemma_count_leading_is(u, non_cr_byte(), p.len() as int);
    assert(b.subrange(de + 1, de + 1 + p.len()) =~= p);
}

/// Round trip of the body: for a response without headers, the bytes after
/// the first blank line of the formatted output are exactly the body, even
/// when the body is arbitrary binary data.
pub proof fn lemma_format_body_round_trip(r: Response)
    requires
        r.headers@.len() == 0,
    ensures
        parsed_body(format_spec(r)) == r.body@,
{
    let b = format_spec(r);
    let a = encode_utf8("HTTP/1.1 "@);
    let d = dec_digits(r.status_code as nat);
    let sp = encode_utf8(" "@);
    let p = encode_utf8(r.status_line.phrase_spec());
    let c = encode_utf8("\r\n"@);
    reveal_strlit("HTTP/1.1 ");
    reveal_strlit(" ");
    reveal_strlit("\r\n");
    assert(is_ascii_chars("HTTP/1.1 "@));
    assert(is_ascii_chars(" "@));
    assert(is_ascii_chars("\r\n"@));
    is_ascii_chars_encode_utf8("HTTP/1.1 "@);
    is_ascii_chars_encode_utf8(" "@);
    is_ascii_chars_encode_utf8("\r\n"@);
    lemma_dec_digits(r.status_code as nat);
    lemma_phrase_bytes(r.status_line);
    assert(a.len() == 9);
    assert(sp.len() == 1 && sp[0] == 0x20);
    assert(c.len() == 2 && c[0] == 0x0D && c[1] == 0x0A);
    assert(headers_bytes(r.headers@) == Seq::<u8>::empty());
    let sl = a + d + sp + p + c;
    assert(b =~= sl + c + r.body@);
    let lpos: int = 9 + d.len() as int + 1 + p.len() as int;
    assert(sl[lpos] == c[0]);
    assert(sl[lpos + 1] == c[1]);
    assert(b[lpos] == 0x0D);
    assert(b[lpos + 1] == 0x0A);
    assert(b[lpos + 2] == c[0]);
    assert(b[lpos + 3] == c[1]);
    assert(sep_at_bytes(b, lpos));
    assert forall|j: int| 0 <= j < lpos implies !sep_at_bytes(b, j) by {
        assert(b[j] == sl[j]);
        if j < 9 {
            assert(sl[j] == a[j]);
            assert(a[j] != 0x0D);
        } else if j < 9 + d.len() {
            assert(sl[j] == d[j - 9]);
            assert(0x30 <= d[j - 9] <= 0x39);
        } else if j == 9 + d.len() {
            assert(sl[j] == sp[0]);
        } else {
            assert(sl[j] == p[j - (9 + d.len() + 1)]);
        }
        assert(b[j] != 0x0D);
    }
    lemma_sep_scan_bytes_from(b, 0, lpos);
    assert(b.skip(lpos + 4) =~= r.body@);
}

} // verus!
