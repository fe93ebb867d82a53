//! Reading a request head: httparse's result, the parsed header with its
//! header map, the receive step that feeds it, and the path checks.
use crate::buffer::{
    buffer_as_slice, buffer_put_slice, buffer_split_to, buffer_with_capacity, bytes_mut_contents,
};
use crate::http::headers::{entry_views, pairs_map, HeaderMap};
use crate::text::{
    contains_double_dot, contains_seq, decode_utf8_lossy, find_char, parse_u16, spec_parse_u16,
    utf8_lossy,
};
use bytes::BytesMut;
use vstd::prelude::*;
use vstd::string::*;

verus! {

/// Why httparse refused a request head, one variant for each of `httparse::Error`'s.
#[derive(Debug, Clone, Copy, PartialEq, Eq, Structural)]
pub enum HeadError {
    /// Invalid byte in a header name.
    HeaderName,
    /// Invalid byte in a header value.
    HeaderValue,
    /// Invalid byte in a new line.
    NewLine,
    /// Invalid byte in a response status.
    Status,
    /// Invalid byte where a token is required.
    Token,
    /// More headers than the 64 slots hold.
    TooManyHeaders,
    /// Invalid byte in the HTTP version.
    Version,
}

/// One header line as httparse hands it out.
#[derive(Debug)]
pub struct RawHeader {
    pub name: String,
    pub value: Vec<u8>,
}

/// A request head as httparse hands it out.
#[derive(Debug)]
pub struct RawRequest {
    pub method: Option<String>,
    pub path: Option<String>,
    pub headers: Vec<RawHeader>,
}

/// A raw header line as values: the name, and the value's bytes.
pub open spec fn raw_header_view(h: RawHeader) -> (Seq<char>, Seq<u8>) {
    (h.name@, h.value@)
}

/// A raw request head as values.
pub struct RawRequestView {
    pub method: Option<Seq<char>>,
    pub path: Option<Seq<char>>,
    pub headers: Seq<(Seq<char>, Seq<u8>)>,
}

impl View for RawRequest {
    type V = RawRequestView;

    open spec fn view(&self) -> RawRequestView {
        RawRequestView {
            method: match self.method {
                Some(m) => Some(m@),
                None => None,
            },
            path: match self.path {
                Some(p) => Some(p@),
                None => None,
            },
            headers: self.headers@.map_values(|h: RawHeader| raw_header_view(h)),
        }
    }
}

/// What httparse makes of the bytes received so far.
pub enum HeadParse {
    /// A whole head, `consumed` bytes long.
    Complete { consumed: usize, request: RawRequest },
    /// Not enough bytes yet.
    Partial,
    /// The bytes are not a request head.
    Invalid { error: HeadError },
}

/// What httparse makes of the bytes received so far, as values.
pub enum HeadParseView {
    Complete { consumed: nat, request: RawRequestView },
    Partial,
    Invalid { error: HeadError },
}

impl View for HeadParse {
    type V = HeadParseView;

    open spec fn view(&self) -> HeadParseView {
        match self {
            HeadParse::Complete { consumed, request } => HeadParseView::Complete {
                consumed: *consumed as nat,
                request: request@,
            },
            HeadParse::Partial => HeadParseView::Partial,
            HeadParse::Invalid { error } => HeadParseView::Invalid { error: *error },
        }
    }
}

/// `httparse::Error`, which only `head_error` looks into.
#[verifier::external_type_specification]
#[verifier::external_body]
pub struct ExHttparseError(httparse::Error);

/// Tells the variants of `httparse::Error` apart, one arm each. Nothing is
/// stated here: the variant that a parse gives is part of `httparse_request`,
/// which `parse_request_head` states of its whole result.
#[verifier::external_body]
fn head_error(e: httparse::Error) -> HeadError {
    match e {
        httparse::Error::HeaderName => HeadError::HeaderName,
        httparse::Error::HeaderValue => HeadError::HeaderValue,
        httparse::Error::NewLine => HeadError::NewLine,
        httparse::Error::Status => HeadError::Status,
        httparse::Error::Token => HeadError::Token,
        httparse::Error::TooManyHeaders => HeadError::TooManyHeaders,
        httparse::Error::Version => HeadError::Version,
    }
}

/// What `httparse::Request::parse` makes of `buf`, with room for 64 headers.
pub uninterp spec fn httparse_request(buf: Seq<u8>) -> HeadParseView;

/// `httparse::Request::parse` with 64 header slots. On success its
/// documentation gives the offset of the body, which lies within `buf`.
/// A refused head comes back with the variant of the `httparse::Error` it gave.
#[verifier::external_body]
fn parse_request_head(buf: &[u8]) -> (r: HeadParse)
    ensures
        r@ == httparse_request(buf@),
        r matches HeadParse::Complete { consumed, .. } ==> consumed <= buf@.len(),
{
    let mut slots = [httparse::EMPTY_HEADER; 64];
    let mut req = httparse::Request::new(&mut slots);
    match req.parse(buf) {
        Ok(httparse::Status::Complete(consumed)) => HeadParse::Complete { consumed, request: RawRequest {
            method: req.method.map(|m| m.to_string()),
            path: req.path.map(|p| p.to_string()),
            headers: req.headers.iter().map(|h| RawHeader { name: h.name.to_string(), value: h.value.to_vec() }).collect(),
        } },
        Ok(httparse::Status::Partial) => HeadParse::Partial,
        Err(e) => HeadParse::Invalid { error: head_error(e) },
    }
}

/// The name-value pairs that a parsed header keeps: headers with an empty
/// name are dropped, and values are decoded as UTF-8, lossily.
pub open spec fn header_pairs(raw: Seq<(Seq<char>, Seq<u8>)>) -> Seq<(Seq<char>, Seq<char>)>
    decreases raw.len(),
{
    if raw.len() == 0 {
        seq![]
    } else {
        let rest = header_pairs(raw.drop_last());
        if raw.last().0.len() == 0 {
            rest
        } else {
            rest.push((raw.last().0, utf8_lossy(raw.last().1)))
        }
    }
}

/// A request head: method, path and headers. The body stays empty.
#[derive(Debug)]
pub struct ParsedHeader {
    pub headers: HeaderMap,
    pub method: String,
    pub path: String,
    pub body: BytesMut,
}

/// A parsed header as values.
pub struct ParsedHeaderView {
    pub headers: Map<Seq<char>, Seq<char>>,
    pub method: Seq<char>,
    pub path: Seq<char>,
    pub body: Seq<u8>,
}

impl View for ParsedHeader {
    type V = ParsedHeaderView;

    open spec fn view(&self) -> ParsedHeaderView {
        ParsedHeaderView {
            headers: self.headers@,
            method: self.method@,
            path: self.path@,
            body: bytes_mut_contents(self.body),
        }
    }
}

/// The parsed header that a raw head gives: method `GET` and path `/` when
/// missing, the header pairs collected into a map, and an empty body.
pub open spec fn parsed_from_raw(req: RawRequestView) -> ParsedHeaderView {
    ParsedHeaderView {
        headers: pairs_map(header_pairs(req.headers)),
        method: match req.method {
            Some(m) => m,
            None => "GET"@,
        },
        path: match req.path {
            Some(p) => p,
            None => "/"@,
        },
        body: Seq::empty(),
    }
}

impl ParsedHeader {
    /// Builds the parsed header of a raw request head.
    pub fn from(req: RawRequest) -> (parsed: ParsedHeader)
        ensures
            parsed@ == parsed_from_raw(req@),
    {
        let ghost raw = req@.headers;
        let method = match req.method {
            Some(m) => m,
            None => String::from_str("GET"),
        };
        let path = match req.path {
            Some(p) => p,
            None => String::from_str("/"),
        };
        let mut pairs: Vec<(String, String)> = Vec::new();
        let n = req.headers.len();
        let mut i: usize = 0;
        while i < n
            invariant
                0 <= i <= n,
                n == req.headers@.len(),
                raw == req@.headers,
                entry_views(pairs@) =~= header_pairs(raw.subrange(0, i as int)),
            decreases n - i,
        {
            let h = &req.headers[i];
            proof {
                let sub = raw.subrange(0, i + 1);
                assert(sub.drop_last() =~= raw.subrange(0, i as int));
                assert(sub.last() == raw_header_view(req.headers@[i as int]));
            }
            if h.name.unicode_len() != 0 {
                let value = decode_utf8_lossy(h.value.as_slice());
                pairs.push((h.name.clone(), value));
            }
            i = i + 1;
        }
        assert(raw.subrange(0, n as int) =~= raw);
        let headers = HeaderMap::collect(pairs);
        ParsedHeader { headers, method, path, body: buffer_with_capacity(0) }
    }
}

/// The `Content-Length` of a parsed header as a `u16`; zero when the header is
/// missing or does not parse.
pub open spec fn content_length(headers: Map<Seq<char>, Seq<char>>) -> u16 {
    if headers.contains_key("Content-Length"@) {
        match spec_parse_u16(headers["Content-Length"@]) {
            Some(v) => v,
            None => 0,
        }
    } else {
        0
    }
}

/// The outcome of one read while a request head is awaited.
pub enum RequestStep {
    /// The read brought nothing: the peer closed the connection.
    Aborted,
    /// The head is not whole yet.
    Partial,
    /// The head is whole.
    Complete { request: ParsedHeader },
    /// The bytes are not a request head.
    Malformed { error: HeadError },
    /// The head announces no body, yet `left_over` bytes follow it and their
    /// count, taken modulo 2^16, is not zero.
    UnexpectedBody { left_over: usize },
}

/// Takes in what one read brought (`chunk`) and tries to parse the request head
/// from the bytes received so far. A whole head leaves the buffer; what
/// follows it stays.
pub fn request_receive(buf: &mut BytesMut, chunk: &[u8]) -> (step: RequestStep)
    requires
        bytes_mut_contents(*old(buf)).len() + chunk@.len() <= isize::MAX,
    ensures
        ({
            let s = bytes_mut_contents(*old(buf)) + chunk@;
            if chunk@.len() == 0 {
                step is Aborted && bytes_mut_contents(*final(buf)) == bytes_mut_contents(*old(buf))
            } else {
                match httparse_request(s) {
                    HeadParseView::Partial => step is Partial && bytes_mut_contents(*final(buf)) == s,
                    HeadParseView::Invalid { error } => step == RequestStep::Malformed { error }
                        && bytes_mut_contents(*final(buf)) == s,
                    HeadParseView::Complete { consumed, request } => {
                        let parsed = parsed_from_raw(request);
                        let rest = s.subrange(consumed as int, s.len() as int);
                        &&& bytes_mut_contents(*final(buf)) == rest
                        &&& if content_length(parsed.headers) == 0 && rest.len() % 65536 != 0 {
                            step == RequestStep::UnexpectedBody { left_over: rest.len() as usize }
                        } else {
                            step matches RequestStep::Complete { request: r } && r@ == parsed
                        }
                    },
                }
            }
        }),
{
    if chunk.len() == 0 {
        return RequestStep::Aborted;
    }
    let ghost s = bytes_mut_contents(*buf) + chunk@;
    buffer_put_slice(buf, chunk);
    let head = parse_request_head(buffer_as_slice(buf));
    match head {
        HeadParse::Partial => RequestStep::Partial,
        HeadParse::Invalid { error } => RequestStep::Malformed { error },
        HeadParse::Complete { consumed, request } => {
            let parsed = ParsedHeader::from(request);
            let len: u16 = match parsed.headers.get("Content-Length") {
                Some(v) => match parse_u16(v.as_str()) {
                    Some(l) => l,
                    None => 0,
                },
                None => 0,
            };
            let _head_bytes = buffer_split_to(buf, consumed);
            let left_over = buffer_as_slice(buf).len();
            if len == 0 && left_over % 65536 != 0 {
                return RequestStep::UnexpectedBody { left_over };
            }
            RequestStep::Complete { request: parsed }
        },
    }
}

/// Refuses a path that holds `..`, with status 403.
pub fn check_path(path: &str) -> (r: Result<&str, i16>)
    ensures
        match r {
            Ok(p) => p@ == path@ && !contains_seq(path@, seq!['.', '.']),
            Err(code) => code == 403 && contains_seq(path@, seq!['.', '.']),
        },
{
    if contains_double_dot(path) {
        Err(403)
    } else {
        Ok(path)
    }
}

/// The characters of `s` before its first `c`; all of `s` when it holds no `c`.
pub open spec fn before_first(s: Seq<char>, c: char) -> Seq<char>
    decreases s.len(),
{
    if s.len() == 0 {
        s
    } else if s[0] == c {
        Seq::empty()
    } else {
        seq![s[0]] + before_first(s.drop_first(), c)
    }
}

proof fn lemma_before_first(s: Seq<char>, c: char, k: int)
    requires
        0 <= k <= s.len(),
        forall|j: int| 0 <= j < k ==> s[j] != c,
        k == s.len() || s[k] == c,
    ensures
        before_first(s, c) == s.subrange(0, k),
    decreases s.len(),
{
    if s.len() > 0 && k > 0 {
        lemma_before_first(s.drop_first(), c, k - 1);
        assert(s.subrange(0, k) =~= seq![s[0]] + s.drop_first().subrange(0, k - 1));
    } else if s.len() > 0 {
        assert(s.subrange(0, 0) =~= Seq::<char>::empty());
    } else {
        assert(s.subrange(0, 0) =~= s);
    }
}

/// The part of a request target before its query string.
pub fn erase_query_params(uri: &str) -> (path: &str)
    ensures
        path@ == before_first(uri@, '?'),
{
    match find_char(uri, '?') {
        Some(i) => {
            proof {
                lemma_before_first(uri@, '?', i as int);
            }
            uri.substring_char(0, i)
        },
        None => {
            proof {
                lemma_before_first(uri@, '?', uri@.len() as int);
                assert(uri@.subrange(0, uri@.len() as int) =~= uri@);
            }
            uri
        },
    }
}


/// The part before the first `c` holds no `c` and starts the text.
pub proof fn lemma_before_first_prefix(s: Seq<char>, c: char)
    ensures
        before_first(s, c).len() <= s.len(),
        before_first(s, c) == s.subrange(0, before_first(s, c).len() as int),
        forall|j: int| 0 <= j < before_first(s, c).len() ==> #[trigger] before_first(s, c)[j] != c,
        before_first(s, c).len() < s.len() ==> s[before_first(s, c).len() as int] == c,
    decreases s.len(),
{
    if s.len() > 0 && s[0] != c {
        lemma_before_first_prefix(s.drop_first(), c);
        let r = before_first(s.drop_first(), c);
        assert(before_first(s, c) =~= seq![s[0]] + r);
        assert(s.subrange(0, r.len() as int + 1) =~= seq![s[0]] + s.drop_first().subrange(0, r.len() as int));
        assert forall|j: int| 0 <= j < before_first(s, c).len() implies #[trigger] before_first(s, c)[j]
            != c by {
            if j > 0 {
                assert(before_first(s, c)[j] == r[j - 1]);
            }
        }
    } else if s.len() > 0 {
        assert(s.subrange(0, 0) =~= Seq::<char>::empty());
    } else {
        assert(s.subrange(0, 0) =~= s);
    }
}

/// Erasing the query string twice is erasing it once.
pub proof fn lemma_erase_query_idempotent(uri: Seq<char>)
    ensures
        before_first(before_first(uri, '?'), '?') == before_first(uri, '?'),
{
    let p = before_first(uri, '?');
    lemma_before_first_prefix(uri, '?');
    lemma_before_first(p, '?', p.len() as int);
    assert(p.subrange(0, p.len() as int) =~= p);
}

} // verus!
