//! HTTP/1.1 request parsing (request line, headers, Content-Length and
//! chunked bodies) and response serialisation.
use vstd::prelude::*;
use vstd::slice::slice_subrange;
use vstd::string::StringSliceAdditionalSpecFns;
use crate::text::{dec_digits, decimal_bytes};
use crate::scan::{
    SimdCrlfFinder, SimdDelimiterFinder, SimdTokenValidator, SimdWhitespaceSkipper, crlf_at,
    find_byte_from, find_crlf_from, is_token, is_ws, leading_ws, lemma_byte_on_tail,
    lemma_crlf_on_tail, lemma_find_byte_from, lemma_find_crlf_from,
};

verus! {

/// The ways an HTTP/1.1 request can fail to parse. Only `IncompleteRequest`
/// is recoverable: the caller may try again once more bytes have arrived.
#[derive(Debug, Clone, Copy, PartialEq, Eq, Structural)]
pub enum Http1ParseError {
    InvalidMethod,
    InvalidUri,
    InvalidVersion,
    InvalidHeader,
    InvalidHeaderName,
    InvalidHeaderValue,
    InvalidChunkSize,
    InvalidContentLength,
    TooManyHeaders,
    RequestTooLarge,
    IncompleteRequest,
    MalformedRequest,
}

impl Http1ParseError {
    /// A short human-readable description.
    pub fn message(&self) -> (r: &'static str) {
        match self {
            Http1ParseError::InvalidMethod => "Invalid HTTP method",
            Http1ParseError::InvalidUri => "Invalid URI",
            Http1ParseError::InvalidVersion => "Invalid HTTP version",
            Http1ParseError::InvalidHeader => "Invalid header format",
            Http1ParseError::InvalidHeaderName => "Invalid header name",
            Http1ParseError::InvalidHeaderValue => "Invalid header value",
            Http1ParseError::InvalidChunkSize => "Invalid chunk size",
            Http1ParseError::InvalidContentLength => "Invalid content length",
            Http1ParseError::TooManyHeaders => "Too many headers",
            Http1ParseError::RequestTooLarge => "Request too large",
            Http1ParseError::IncompleteRequest => "Incomplete request",
            Http1ParseError::MalformedRequest => "Malformed request",
        }
    }
}

/// The nine request methods.
#[derive(Debug, Clone, Copy, PartialEq, Eq, Hash, Structural)]
pub enum Method {
    Get,
    Head,
    Post,
    Put,
    Delete,
    Connect,
    Options,
    Trace,
    Patch,
}

/// The method whose name is exactly `s`.
pub open spec fn method_of(s: Seq<u8>) -> Option<Method> {
    if s == seq![71u8, 69u8, 84u8] {
        Some(Method::Get)
    } else if s == seq![80u8, 85u8, 84u8] {
        Some(Method::Put)
    } else if s == seq![72u8, 69u8, 65u8, 68u8] {
        Some(Method::Head)
    } else if s == seq![80u8, 79u8, 83u8, 84u8] {
        Some(Method::Post)
    } else if s == seq![80u8, 65u8, 84u8, 67u8, 72u8] {
        Some(Method::Patch)
    } else if s == seq![84u8, 82u8, 65u8, 67u8, 69u8] {
        Some(Method::Trace)
    } else if s == seq![68u8, 69u8, 76u8, 69u8, 84u8, 69u8] {
        Some(Method::Delete)
    } else if s == seq![67u8, 79u8, 78u8, 78u8, 69u8, 67u8, 84u8] {
        Some(Method::Connect)
    } else if s == seq![79u8, 80u8, 84u8, 73u8, 79u8, 78u8, 83u8] {
        Some(Method::Options)
    } else {
        None
    }
}

/// Byte-for-byte equality of two slices.
pub fn bytes_equal(s: &[u8], lit: &[u8]) -> (r: bool)
    ensures
        r == (s@ == lit@),
{
    if s.len() != lit.len() {
        return false;
    }
    let mut i: usize = 0;
    while i < s.len()
        invariant
            i <= s@.len(),
            s@.len() == lit@.len(),
            forall|j: int| 0 <= j < i ==> s@[j] == lit@[j],
        decreases s@.len() - i,
    {
        if s[i] != lit[i] {
            return false;
        }
        i = i + 1;
    }
    assert(s@ =~= lit@);
    true
}

impl Method {
    /// Looks a method up by its exact name, dispatching on the length first.
    pub fn from_bytes(bytes: &[u8]) -> (r: Result<Method, Http1ParseError>)
        ensures
            r == match method_of(bytes@) {
                Some(m) => Ok::<Method, Http1ParseError>(m),
                None => Err(Http1ParseError::InvalidMethod),
            },
    {
        let n = bytes.len();
        if n == 3 {
            if bytes_equal(bytes, &[71u8, 69u8, 84u8]) {
                return Ok(Method::Get);
            }
            if bytes_equal(bytes, &[80u8, 85u8, 84u8]) {
                return Ok(Method::Put);
            }
        } else if n == 4 {
            if bytes_equal(bytes, &[72u8, 69u8, 65u8, 68u8]) {
                return Ok(Method::Head);
            }
            if bytes_equal(bytes, &[80u8, 79u8, 83u8, 84u8]) {
                return Ok(Method::Post);
            }
        } else if n == 5 {
            if bytes_equal(bytes, &[80u8, 65u8, 84u8, 67u8, 72u8]) {
                return Ok(Method::Patch);
            }
            if bytes_equal(bytes, &[84u8, 82u8, 65u8, 67u8, 69u8]) {
                return Ok(Method::Trace);
            }
        } else if n == 6 {
            if bytes_equal(bytes, &[68u8, 69u8, 76u8, 69u8, 84u8, 69u8]) {
                return Ok(Method::Delete);
            }
        } else if n == 7 {
            if bytes_equal(bytes, &[67u8, 79u8, 78u8, 78u8, 69u8, 67u8, 84u8]) {
                return Ok(Method::Connect);
            }
            if bytes_equal(bytes, &[79u8, 80u8, 84u8, 73u8, 79u8, 78u8, 83u8]) {
                return Ok(Method::Options);
            }
        }
        Err(Http1ParseError::InvalidMethod)
    }
}

/// Protocol version of a request.
#[derive(Debug, Clone, Copy, PartialEq, Eq, Structural)]
pub struct Version {
    pub major: u8,
    pub minor: u8,
}

/// `HTTP/` followed by digit, `.`, digit, where the pair is 1.0, 1.1, 2.0 or 0.9.
pub open spec fn version_of(s: Seq<u8>) -> Option<Version> {
    if s.len() == 8 && s.take(5) == seq![72u8, 84u8, 84u8, 80u8, 47u8] && s[6] == 46u8 && 48u8
        <= s[5] <= 57u8 && 48u8 <= s[7] <= 57u8 {
        let major = (s[5] - 48) as u8;
        let minor = (s[7] - 48) as u8;
        if (major == 1 && minor == 0) || (major == 1 && minor == 1) || (major == 2 && minor == 0)
            || (major == 0 && minor == 9) {
            Some(Version { major, minor })
        } else {
            None
        }
    } else {
        None
    }
}

/// Relies on std::str::from_utf8, which succeeds exactly on valid UTF-8.
#[verifier::external_body]
fn is_utf8(b: &[u8]) -> (r: bool)
    ensures
        r == vstd::utf8::valid_utf8(b@),
{
    std::str::from_utf8(b).is_ok()
}

/// One header field: the name as sent and the value with surrounding
/// spaces and tabs removed.
#[derive(Debug, Clone)]
pub struct Header {
    pub name: Vec<u8>,
    pub value: Vec<u8>,
}

impl View for Header {
    type V = (Seq<u8>, Seq<u8>);

    open spec fn view(&self) -> (Seq<u8>, Seq<u8>) {
        (self.name@, self.value@)
    }
}

/// The number of trailing spaces and tabs of `s`.
pub open spec fn trailing_ws(s: Seq<u8>) -> nat
    decreases s.len(),
{
    if s.len() > 0 && is_ws(s.last()) {
        1 + trailing_ws(s.drop_last())
    } else {
        0
    }
}

/// `s` with leading and trailing spaces and tabs removed.
pub open spec fn trim_ws(s: Seq<u8>) -> Seq<u8> {
    let t = s.subrange(leading_ws(s) as int, s.len() as int);
    t.subrange(0, t.len() - trailing_ws(t))
}

/// A header value may not hold NUL, CR or LF.
pub open spec fn is_field_value(s: Seq<u8>) -> bool {
    forall|i: int| 0 <= i < s.len() ==> s[i] != 0u8 && s[i] != 13u8 && s[i] != 10u8
}

/// One header line (without its CRLF): a token, a colon, and a value.
pub open spec fn header_of(line: Seq<u8>) -> Result<(Seq<u8>, Seq<u8>), Http1ParseError> {
    match find_byte_from(line, 58u8, 0) {
        None => Err(Http1ParseError::InvalidHeader),
        Some(c) => {
            let name = line.take(c);
            let value = trim_ws(line.subrange(c + 1, line.len() as int));
            if !is_token(name) {
                Err(Http1ParseError::InvalidHeaderName)
            } else if !is_field_value(value) {
                Err(Http1ParseError::InvalidHeaderValue)
            } else {
                Ok((name, value))
            }
        },
    }
}


/// A header list as plain byte sequences.
pub open spec fn headers_view(v: Seq<Header>) -> Seq<(Seq<u8>, Seq<u8>)> {
    v.map_values(|h: Header| h@)
}

/// The request line: method, a single space, the target, a single space and
/// the version, ended by the first CRLF of `s`. `limit` bounds the position
/// of the end of the head.
pub open spec fn request_line_of(s: Seq<u8>, limit: int) -> Result<
    (Method, Seq<u8>, Version, int),
    Http1ParseError,
> {
    match find_crlf_from(s, 0) {
        None => if s.len() > limit {
            Err(Http1ParseError::RequestTooLarge)
        } else {
            Err(Http1ParseError::IncompleteRequest)
        },
        Some(k) => if k + 2 > limit {
            Err(Http1ParseError::RequestTooLarge)
        } else {
            let line = s.take(k);
            match find_byte_from(line, 32u8, 0) {
                None => Err(Http1ParseError::MalformedRequest),
                Some(m) => match method_of(line.take(m)) {
                    None => Err(Http1ParseError::InvalidMethod),
                    Some(method) => match find_byte_from(line, 32u8, m + 1) {
                        None => Err(Http1ParseError::MalformedRequest),
                        Some(u) => {
                            let uri = line.subrange(m + 1, u);
                            if !vstd::utf8::valid_utf8(uri) {
                                Err(Http1ParseError::InvalidUri)
                            } else {
                                match version_of(line.subrange(u + 1, k)) {
                                    None => Err(Http1ParseError::InvalidVersion),
                                    Some(v) => Ok((method, uri, v, k + 2)),
                                }
                            }
                        },
                    },
                },
            }
        },
    }
}

/// Header lines starting at `off`, up to and including the empty line that
/// ends them. `acc` holds the headers read so far; each line must end at or
/// before `limit` and at most `max_count` headers are accepted.
pub open spec fn header_lines_of(
    s: Seq<u8>,
    off: int,
    limit: int,
    max_count: int,
    acc: Seq<(Seq<u8>, Seq<u8>)>,
) -> Result<(Seq<(Seq<u8>, Seq<u8>)>, int), Http1ParseError>
    decreases s.len() - off,
{
    match find_crlf_from(s, off) {
        None => if s.len() > limit {
            Err(Http1ParseError::RequestTooLarge)
        } else {
            Err(Http1ParseError::IncompleteRequest)
        },
        Some(k) => if k < off || k + 2 > s.len() {
            Err(Http1ParseError::MalformedRequest)
        } else if k + 2 > limit {
            Err(Http1ParseError::RequestTooLarge)
        } else if k == off {
            Ok((acc, k + 2))
        } else {
            match header_of(s.subrange(off, k)) {
                Err(e) => Err(e),
                Ok(h) => if acc.len() + 1 > max_count {
                    Err(Http1ParseError::TooManyHeaders)
                } else {
                    header_lines_of(s, k + 2, limit, max_count, acc.push(h))
                },
            }
        },
    }
}

pub open spec fn lower_byte(b: u8) -> u8 {
    if 65u8 <= b <= 90u8 {
        (b + 32) as u8
    } else {
        b
    }
}

/// `a` equals the lowercase name `lower` when ASCII case is ignored.
pub open spec fn eq_ci(a: Seq<u8>, lower: Seq<u8>) -> bool {
    a.len() == lower.len() && forall|i: int| 0 <= i < a.len() ==> lower_byte(a[i]) == lower[i]
}

pub open spec fn transfer_encoding_name() -> Seq<u8> {
    seq![116u8, 114u8, 97u8, 110u8, 115u8, 102u8, 101u8, 114u8, 45u8, 101u8, 110u8, 99u8, 111u8, 100u8, 105u8, 110u8, 103u8]
}

pub open spec fn content_length_name() -> Seq<u8> {
    seq![99u8, 111u8, 110u8, 116u8, 101u8, 110u8, 116u8, 45u8, 108u8, 101u8, 110u8, 103u8, 116u8, 104u8]
}

pub open spec fn chunked_name() -> Seq<u8> {
    seq![99u8, 104u8, 117u8, 110u8, 107u8, 101u8, 100u8]
}

/// The position just after the last comma of `v`, or 0 when it has none.
pub open spec fn after_last_comma(v: Seq<u8>) -> int
    decreases v.len(),
{
    if v.len() == 0 {
        0
    } else if v.last() == 44u8 {
        v.len() as int
    } else {
        after_last_comma(v.drop_last())
    }
}

/// The last comma-separated coding of a Transfer-Encoding value.
pub open spec fn last_coding(v: Seq<u8>) -> Seq<u8> {
    trim_ws(v.subrange(after_last_comma(v), v.len() as int))
}

pub open spec fn is_chunked_header(h: (Seq<u8>, Seq<u8>)) -> bool {
    eq_ci(h.0, transfer_encoding_name()) && eq_ci(last_coding(h.1), chunked_name())
}

pub open spec fn is_content_length_header(h: (Seq<u8>, Seq<u8>)) -> bool {
    eq_ci(h.0, content_length_name())
}

pub open spec fn any_chunked(hs: Seq<(Seq<u8>, Seq<u8>)>) -> bool {
    exists|i: int| 0 <= i < hs.len() && is_chunked_header(hs[i])
}

/// The index of the first Content-Length header at or after `i`.
pub open spec fn first_content_length(hs: Seq<(Seq<u8>, Seq<u8>)>, i: int) -> Option<int>
    decreases hs.len() - i,
{
    if i < 0 || i >= hs.len() {
        None
    } else if is_content_length_header(hs[i]) {
        Some(i)
    } else {
        first_content_length(hs, i + 1)
    }
}

pub open spec fn is_digit(b: u8) -> bool {
    48u8 <= b <= 57u8
}

pub open spec fn all_digits(s: Seq<u8>) -> bool {
    s.len() > 0 && forall|i: int| 0 <= i < s.len() ==> is_digit(s[i])
}

/// The number written by the digits of `s` in base `base`.
pub open spec fn radix_value(s: Seq<u8>, base: nat) -> nat
    decreases s.len(),
{
    if s.len() == 0 {
        0
    } else {
        radix_value(s.drop_last(), base) * base + hex_digit_value(s.last())
    }
}

/// The number written in decimal by `s`.
pub open spec fn dec_value(s: Seq<u8>) -> nat {
    radix_value(s, 10)
}

pub open spec fn is_hex_digit(b: u8) -> bool {
    (48u8 <= b <= 57u8) || (65u8 <= b <= 70u8) || (97u8 <= b <= 102u8)
}

pub open spec fn hex_digit_value(b: u8) -> nat {
    if 48u8 <= b <= 57u8 {
        (b - 48) as nat
    } else if 65u8 <= b <= 70u8 {
        (b - 55) as nat
    } else {
        (b - 87) as nat
    }
}

pub open spec fn all_hex(s: Seq<u8>) -> bool {
    s.len() > 0 && forall|i: int| 0 <= i < s.len() ==> is_hex_digit(s[i])
}

/// The number written in hexadecimal by `s`.
pub open spec fn hex_value(s: Seq<u8>) -> nat {
    radix_value(s, 16)
}

/// The size field of a chunk-size line: what precedes any `;` extension,
/// without surrounding spaces and tabs.
pub open spec fn chunk_size_field(line: Seq<u8>) -> Seq<u8> {
    match find_byte_from(line, 59u8, 0) {
        Some(c) => trim_ws(line.take(c)),
        None => trim_ws(line),
    }
}

/// The bound on the end of a trailer block that starts at `start`.
pub open spec fn trailer_limit(start: int, max_header_size: int) -> int {
    if max_header_size <= usize::MAX - start {
        start + max_header_size
    } else {
        usize::MAX as int
    }
}

/// A chunked body from `off` on: chunks until the zero-size one, then the
/// trailer headers and the empty line. `acc` holds the payload decoded so
/// far; the whole payload may not exceed `max_body`.
pub open spec fn chunks_of(
    s: Seq<u8>,
    off: int,
    max_body: int,
    max_header_size: int,
    max_count: int,
    acc: Seq<u8>,
) -> Result<(Seq<u8>, Seq<(Seq<u8>, Seq<u8>)>, int), Http1ParseError>
    decreases s.len() - off,
{
    match find_crlf_from(s, off) {
        None => Err(Http1ParseError::IncompleteRequest),
        Some(k) => if k < off || k + 2 > s.len() {
            Err(Http1ParseError::MalformedRequest)
        } else {
            let field = chunk_size_field(s.subrange(off, k));
            if !all_hex(field) {
                Err(Http1ParseError::InvalidChunkSize)
            } else {
                let n = hex_value(field) as int;
                if n == 0 {
                    match header_lines_of(
                        s,
                        k + 2,
                        trailer_limit(k + 2, max_header_size),
                        max_count,
                        seq![],
                    ) {
                        Ok((t, e)) => Ok((acc, t, e)),
                        Err(e) => Err(e),
                    }
                } else if acc.len() + n > max_body {
                    Err(Http1ParseError::RequestTooLarge)
                } else if k + 2 + n + 2 > s.len() {
                    Err(Http1ParseError::IncompleteRequest)
                } else if !crlf_at(s, k + 2 + n) {
                    Err(Http1ParseError::MalformedRequest)
                } else {
                    chunks_of(
                        s,
                        k + 2 + n + 2,
                        max_body,
                        max_header_size,
                        max_count,
                        acc + s.subrange(k + 2, k + 2 + n),
                    )
                }
            }
        },
    }
}

/// A parsed request as plain values.
pub struct RequestView {
    pub method: Method,
    pub uri: Seq<u8>,
    pub version: Version,
    pub headers: Seq<(Seq<u8>, Seq<u8>)>,
    pub body: Option<Seq<u8>>,
    pub trailers: Seq<(Seq<u8>, Seq<u8>)>,
}

/// What parsing `s` yields: the request and the number of bytes it occupies,
/// or the first error met. The head (request line, headers and the empty
/// line) may hold at most `max_header_size` bytes, at most `max_headers`
/// headers, and a body at most `max_request_size` bytes.
pub open spec fn request_of(
    max_headers: int,
    max_header_size: int,
    max_request_size: int,
    s: Seq<u8>,
) -> Result<(RequestView, int), Http1ParseError> {
    if s.len() == 0 {
        Err(Http1ParseError::IncompleteRequest)
    } else {
        match request_line_of(s, max_header_size) {
            Err(e) => Err(e),
            Ok((method, uri, version, e1)) => match header_lines_of(
                s,
                e1,
                max_header_size,
                max_headers,
                seq![],
            ) {
                Err(e) => Err(e),
                Ok((hs, e2)) => {
                    let req = RequestView {
                        method,
                        uri,
                        version,
                        headers: hs,
                        body: None,
                        trailers: seq![],
                    };
                    if any_chunked(hs) {
                        if first_content_length(hs, 0).is_some() {
                            Err(Http1ParseError::MalformedRequest)
                        } else {
                            match chunks_of(
                                s,
                                e2,
                                max_request_size,
                                max_header_size,
                                max_headers,
                                seq![],
                            ) {
                                Err(e) => Err(e),
                                Ok((b, t, e3)) => Ok(
                                    (RequestView { body: Some(b), trailers: t, ..req }, e3),
                                ),
                            }
                        }
                    } else {
                        match first_content_length(hs, 0) {
                            None => Ok((req, e2)),
                            Some(i) => {
                                let v = hs[i].1;
                                if !all_digits(v) {
                                    Err(Http1ParseError::InvalidContentLength)
                                } else if dec_value(v) > max_request_size {
                                    Err(Http1ParseError::RequestTooLarge)
                                } else if e2 + dec_value(v) > s.len() {
                                    Err(Http1ParseError::IncompleteRequest)
                                } else {
                                    Ok(
                                        (
                                            RequestView {
                                                body: Some(s.subrange(e2, e2 + dec_value(v))),
                                                ..req
                                            },
                                            e2 + dec_value(v),
                                        ),
                                    )
                                }
                            },
                        }
                    }
                },
            },
        }
    }
}


/// `r` carries the same outcome as `spec`, with the header as plain values.
pub open spec fn header_result_is(
    r: Result<Header, Http1ParseError>,
    spec: Result<(Seq<u8>, Seq<u8>), Http1ParseError>,
) -> bool {
    match r {
        Ok(h) => spec == Ok::<(Seq<u8>, Seq<u8>), Http1ParseError>(h@),
        Err(e) => spec == Err::<(Seq<u8>, Seq<u8>), Http1ParseError>(e),
    }
}

/// `s` without its leading and trailing spaces and tabs.
pub fn trim(s: &[u8]) -> (r: &[u8])
    ensures
        r@ == trim_ws(s@),
{
    let t = SimdWhitespaceSkipper::skip_whitespace(s);
    let e = trimmed_end(t);
    slice_subrange(t, 0, e)
}

/// HTTP/1.1 request parser with configurable limits.
#[derive(Debug, Clone, Copy)]
pub struct Http1Parser {
    pub max_headers: usize,
    pub max_header_size: usize,
    pub max_request_size: usize,
}

impl Http1Parser {
    /// Limits of 100 headers, an 8 KiB head and a 10 MiB body.
    pub fn new() -> (r: Self)
        ensures
            r.max_headers == 100,
            r.max_header_size == 8192,
            r.max_request_size == 10485760,
    {
        Http1Parser { max_headers: 100, max_header_size: 8192, max_request_size: 10485760 }
    }

    pub fn with_limits(max_headers: usize, max_header_size: usize, max_request_size: usize) -> (r:
        Self)
        ensures
            r.max_headers == max_headers,
            r.max_header_size == max_header_size,
            r.max_request_size == max_request_size,
    {
        Http1Parser { max_headers, max_header_size, max_request_size }
    }

    /// Parses `HTTP/x.y`.
    pub fn parse_version(&self, input: &[u8]) -> (r: Result<Version, Http1ParseError>)
        ensures
            r == match version_of(input@) {
                Some(v) => Ok::<Version, Http1ParseError>(v),
                None => Err(Http1ParseError::InvalidVersion),
            },
    {
        if input.len() != 8 {
            return Err(Http1ParseError::InvalidVersion);
        }
        let prefix = slice_subrange(input, 0, 5);
        if !bytes_equal(prefix, &[72u8, 84u8, 84u8, 80u8, 47u8]) {
            return Err(Http1ParseError::InvalidVersion);
        }
        let a = input[5];
        let b = input[7];
        if input[6] != 46u8 || a < 48u8 || a > 57u8 || b < 48u8 || b > 57u8 {
            return Err(Http1ParseError::InvalidVersion);
        }
        let major = a - 48;
        let minor = b - 48;
        if (major == 1 && minor == 0) || (major == 1 && minor == 1) || (major == 2 && minor == 0)
            || (major == 0 && minor == 9) {
            Ok(Version { major, minor })
        } else {
            Err(Http1ParseError::InvalidVersion)
        }
    }

    /// Parses one header line (without its CRLF).
    pub fn parse_header(&self, line: &[u8]) -> (r: Result<Header, Http1ParseError>)
        ensures
            header_result_is(r, header_of(line@)),
    {
        let colon_finder = SimdDelimiterFinder::new(58u8);
        let found = colon_finder.find_in(line);
        proof {
            lemma_byte_on_tail(line@, 58u8, 0, found);
            assert(line@.subrange(0, line@.len() as int) =~= line@);
            lemma_find_byte_from(line@, 58u8, 0);
        }
        let c = match found {
            None => {
                return Err(Http1ParseError::InvalidHeader);
            },
            Some(c) => c,
        };
        let n = line.len();
        assert(c < n);
        let name = slice_subrange(line, 0, c);
        let rest = slice_subrange(line, c + 1, n);
        let value = trim(rest);
        if !SimdTokenValidator::is_valid_token(name) {
            return Err(Http1ParseError::InvalidHeaderName);
        }
        if !is_field_value_exec(value) {
            return Err(Http1ParseError::InvalidHeaderValue);
        }
        Ok(Header { name: slice_to_vec(name), value: slice_to_vec(value) })
    }

    /// Parses the request line; returns the offset just past its CRLF.
    pub fn parse_request_line(&self, input: &[u8]) -> (r: Result<
        (Method, Vec<u8>, Version, usize),
        Http1ParseError,
    >)
        ensures
            match r {
                Ok((m, uri, v, e)) => request_line_of(input@, self.max_header_size as int) == Ok::<
                    (Method, Seq<u8>, Version, int),
                    Http1ParseError,
                >((m, uri@, v, e as int)),
                Err(e) => request_line_of(input@, self.max_header_size as int) == Err::<
                    (Method, Seq<u8>, Version, int),
                    Http1ParseError,
                >(e),
            },
    {
        let crlf = SimdCrlfFinder::new();
        let found = crlf.find_crlf(input);
        proof {
            lemma_crlf_on_tail(input@, 0, found);
            assert(input@.subrange(0, input@.len() as int) =~= input@);
            lemma_find_crlf_from(input@, 0);
        }
        let k = match found {
            None => {
                if input.len() > self.max_header_size {
                    return Err(Http1ParseError::RequestTooLarge);
                }
                return Err(Http1ParseError::IncompleteRequest);
            },
            Some(k) => k,
        };
        if k >= self.max_header_size || self.max_header_size - k < 2 {
            return Err(Http1ParseError::RequestTooLarge);
        }
        let line = slice_subrange(input, 0, k);
        let space = SimdDelimiterFinder::new(32u8);
        let fm = space.find_in(line);
        proof {
            lemma_byte_on_tail(line@, 32u8, 0, fm);
            assert(line@.subrange(0, line@.len() as int) =~= line@);
        }
        let m = match fm {
            None => {
                return Err(Http1ParseError::MalformedRequest);
            },
            Some(m) => m,
        };
        let method = match Method::from_bytes(slice_subrange(line, 0, m)) {
            Ok(x) => x,
            Err(e) => {
                return Err(e);
            },
        };
        let after = slice_subrange(line, m + 1, k);
        let fu = space.find_in(after);
        proof {
            lemma_byte_on_tail(line@, 32u8, m + 1, fu);
        }
        let u = match fu {
            None => {
                return Err(Http1ParseError::MalformedRequest);
            },
            Some(u) => m + 1 + u,
        };
        let uri = slice_subrange(line, m + 1, u);
        if !is_utf8(uri) {
            return Err(Http1ParseError::InvalidUri);
        }
        let version = match self.parse_version(slice_subrange(line, u + 1, k)) {
            Ok(v) => v,
            Err(e) => {
                return Err(e);
            },
        };
        Ok((method, slice_to_vec(uri), version, k + 2))
    }

    /// Parses header lines from `start` through the empty line that ends
    /// them; returns the headers and the offset just past that line.
    pub fn parse_headers(&self, input: &[u8], start: usize, limit: usize) -> (r: Result<
        (Vec<Header>, usize),
        Http1ParseError,
    >)
        requires
            start <= input@.len(),
        ensures
            match r {
                Ok((hs, e)) => header_lines_of(
                    input@,
                    start as int,
                    limit as int,
                    self.max_headers as int,
                    seq![],
                ) == Ok::<(Seq<(Seq<u8>, Seq<u8>)>, int), Http1ParseError>(
                    (headers_view(hs@), e as int),
                ),
                Err(e) => header_lines_of(
                    input@,
                    start as int,
                    limit as int,
                    self.max_headers as int,
                    seq![],
                ) == Err::<(Seq<(Seq<u8>, Seq<u8>)>, int), Http1ParseError>(e),
            },
    {
        let crlf = SimdCrlfFinder::new();
        let mut headers: Vec<Header> = Vec::new();
        let mut off = start;
        let ghost s = input@;
        let ghost lim = limit as int;
        let ghost mc = self.max_headers as int;
        assert(headers_view(headers@) =~= seq![]);
        loop
            invariant
                s == input@,
                lim == limit as int,
                mc == self.max_headers as int,
                off <= s.len(),
                headers@.len() <= mc,
                header_lines_of(s, start as int, lim, mc, seq![]) == header_lines_of(
                    s,
                    off as int,
                    lim,
                    mc,
                    headers_view(headers@),
                ),
            decreases s.len() - off,
        {
            let tail = slice_subrange(input, off, input.len());
            let found = crlf.find_crlf(tail);
            proof {
                lemma_crlf_on_tail(s, off as int, found);
                lemma_find_crlf_from(s, off as int);
            }
            let k = match found {
                None => {
                    if input.len() > limit {
                        return Err(Http1ParseError::RequestTooLarge);
                    }
                    return Err(Http1ParseError::IncompleteRequest);
                },
                Some(k0) => off + k0,
            };
            if k >= limit || limit - k < 2 {
                return Err(Http1ParseError::RequestTooLarge);
            }
            if k == off {
                return Ok((headers, k + 2));
            }
            let line = slice_subrange(input, off, k);
            let h = match self.parse_header(line) {
                Ok(h) => h,
                Err(e) => {
                    return Err(e);
                },
            };
            if headers.len() >= self.max_headers {
                return Err(Http1ParseError::TooManyHeaders);
            }
            let ghost before = headers@;
            headers.push(h);
            proof {
                assert(headers_view(headers@) =~= headers_view(before).push(h@));
            }
            off = k + 2;
        }
    }
}


proof fn lemma_radix_step(s: Seq<u8>, i: int, base: nat)
    requires
        0 <= i < s.len(),
    ensures
        radix_value(s.take(i + 1), base) == radix_value(s.take(i), base) * base + hex_digit_value(
            s[i],
        ),
{
    assert(s.take(i + 1).drop_last() =~= s.take(i));
}

proof fn lemma_radix_monotone(s: Seq<u8>, i: int, j: int, base: nat)
    requires
        0 <= i <= j <= s.len(),
        base >= 1,
    ensures
        radix_value(s.take(i), base) <= radix_value(s.take(j), base),
    decreases j - i,
{
    if i < j {
        lemma_radix_monotone(s, i, j - 1, base);
        lemma_radix_step(s, j - 1, base);
        let a = radix_value(s.take(j - 1), base);
        assert(a * base >= a) by (nonlinear_arith)
            requires
                base >= 1,
        ;
    }
}

/// Reads the digits of `s` in base `base` (10 or 16); `None` when the value
/// exceeds `cap`.
fn parse_radix_capped(s: &[u8], base: usize, cap: usize) -> (r: Option<usize>)
    requires
        (base == 10 && all_digits(s@)) || (base == 16 && all_hex(s@)),
    ensures
        match r {
            Some(v) => v == radix_value(s@, base as nat) && v <= cap,
            None => radix_value(s@, base as nat) > cap,
        },
{
    let mut acc: usize = 0;
    let mut i: usize = 0;
    let n = s.len();
    assert(s@.take(0) =~= seq![]);
    while i < n
        invariant
            n == s@.len(),
            i <= n,
            (base == 10 && all_digits(s@)) || (base == 16 && all_hex(s@)),
            acc == radix_value(s@.take(i as int), base as nat),
            acc <= cap,
        decreases n - i,
    {
        let b = s[i];
        let d: usize = if b <= 57u8 {
            (b - 48) as usize
        } else if b <= 70u8 {
            (b - 55) as usize
        } else {
            (b - 87) as usize
        };
        assert(d == hex_digit_value(b));
        assert(d < 16);
        proof {
            lemma_radix_step(s@, i as int, base as nat);
        }
        if d > cap {
            proof {
                assert(acc * base + d > cap) by (nonlinear_arith)
                    requires
                        d > cap,
                        base >= 10,
                ;
                lemma_radix_monotone(s@, i as int + 1, n as int, base as nat);
                assert(s@.take(n as int) =~= s@);
            }
            return None;
        }
        let q = (cap - d) / base;
        let ghost qi = q as int;
        let ghost ci = (cap - d) as int;
        let ghost bi = base as int;
        let ghost ai = acc as int;
        assert(qi == ci / bi);
        if acc > q {
            proof {
                assert(ai * bi > ci) by (nonlinear_arith)
                    requires
                        ai > qi,
                        qi == ci / bi,
                        bi >= 10,
                ;
                lemma_radix_monotone(s@, i as int + 1, n as int, base as nat);
                assert(s@.take(n as int) =~= s@);
            }
            return None;
        }
        assert(ai * bi <= ci) by (nonlinear_arith)
            requires
                ai <= qi,
                qi == ci / bi,
                bi >= 10,
                ci >= 0,
        ;
        acc = acc * base + d;
        i = i + 1;
    }
    assert(s@.take(n as int) =~= s@);
    Some(acc)
}

/// Compares `a` with a lowercase name, ignoring ASCII case.
pub fn eq_ignore_case(a: &[u8], lower: &[u8]) -> (r: bool)
    ensures
        r == eq_ci(a@, lower@),
{
    if a.len() != lower.len() {
        return false;
    }
    let mut i: usize = 0;
    while i < a.len()
        invariant
            i <= a@.len(),
            a@.len() == lower@.len(),
            forall|j: int| 0 <= j < i ==> lower_byte(a@[j]) == lower@[j],
        decreases a@.len() - i,
    {
        let b = a[i];
        let l = if b >= 65u8 && b <= 90u8 {
            b + 32
        } else {
            b
        };
        if l != lower[i] {
            return false;
        }
        i = i + 1;
    }
    true
}

proof fn lemma_after_last_comma_at(v: Seq<u8>, e: int)
    requires
        0 <= e <= v.len(),
        forall|j: int| e <= j < v.len() ==> v[j] != 44u8,
        e == 0 || v[e - 1] == 44u8,
    ensures
        after_last_comma(v) == e,
    decreases v.len(),
{
    if v.len() > 0 && v.last() != 44u8 {
        let t = v.drop_last();
        assert forall|j: int| e <= j < t.len() implies t[j] != 44u8 by {
            assert(t[j] == v[j]);
        }
        if e > 0 {
            assert(t[e - 1] == v[e - 1]);
        }
        lemma_after_last_comma_at(t, e);
    }
}

/// The last comma-separated coding of a Transfer-Encoding value.
fn last_coding_exec(v: &[u8]) -> (r: &[u8])
    ensures
        r@ == last_coding(v@),
{
    let n = v.len();
    let mut e = n;
    while e > 0 && v[e - 1] != 44u8
        invariant
            e <= n,
            n == v@.len(),
            forall|j: int| e <= j < n ==> v@[j] != 44u8,
        decreases e,
    {
        e = e - 1;
    }
    proof {
        lemma_after_last_comma_at(v@, e as int);
    }
    trim(slice_subrange(v, e, n))
}

fn transfer_encoding_lit() -> (r: [u8; 17])
    ensures
        r@ == transfer_encoding_name(),
{
    let r = [116u8, 114u8, 97u8, 110u8, 115u8, 102u8, 101u8, 114u8, 45u8, 101u8, 110u8, 99u8, 111u8, 100u8, 105u8, 110u8, 103u8];
    assert(r@ =~= transfer_encoding_name());
    r
}

fn content_length_lit() -> (r: [u8; 14])
    ensures
        r@ == content_length_name(),
{
    let r = [99u8, 111u8, 110u8, 116u8, 101u8, 110u8, 116u8, 45u8, 108u8, 101u8, 110u8, 103u8, 116u8, 104u8];
    assert(r@ =~= content_length_name());
    r
}

fn chunked_lit() -> (r: [u8; 7])
    ensures
        r@ == chunked_name(),
{
    let r = [99u8, 104u8, 117u8, 110u8, 107u8, 101u8, 100u8];
    assert(r@ =~= chunked_name());
    r
}

/// Whether some Transfer-Encoding header names `chunked` as its final coding.
pub fn is_chunked(headers: &Vec<Header>) -> (r: bool)
    ensures
        r == any_chunked(headers_view(headers@)),
{
    let te = transfer_encoding_lit();
    let ch = chunked_lit();
    let mut i: usize = 0;
    while i < headers.len()
        invariant
            i <= headers@.len(),
            te@ == transfer_encoding_name(),
            ch@ == chunked_name(),
            forall|j: int| 0 <= j < i ==> !is_chunked_header(#[trigger] headers@[j]@),
        decreases headers@.len() - i,
    {
        let h = &headers[i];
        if eq_ignore_case(h.name.as_slice(), te.as_slice()) && eq_ignore_case(
            last_coding_exec(h.value.as_slice()),
            ch.as_slice(),
        ) {
            proof {
                assert(headers_view(headers@)[i as int] == headers@[i as int]@);
            }
            return true;
        }
        i = i + 1;
    }
    proof {
        assert forall|j: int| 0 <= j < headers_view(headers@).len() implies !is_chunked_header(
            #[trigger] headers_view(headers@)[j],
        ) by {
            assert(headers_view(headers@)[j] == headers@[j]@);
        }
    }
    false
}

proof fn lemma_first_content_length(hs: Seq<(Seq<u8>, Seq<u8>)>, i: int)
    requires
        0 <= i,
    ensures
        match first_content_length(hs, i) {
            Some(k) => i <= k < hs.len() && is_content_length_header(hs[k]) && forall|j: int|
                i <= j < k ==> !is_content_length_header(#[trigger] hs[j]),
            None => forall|j: int| i <= j < hs.len() ==> !is_content_length_header(#[trigger] hs[j]),
        },
    decreases hs.len() - i,
{
    if i < hs.len() && !is_content_length_header(hs[i]) {
        lemma_first_content_length(hs, i + 1);
    }
}

/// The index of the first Content-Length header.
pub fn find_content_length(headers: &Vec<Header>) -> (r: Option<usize>)
    ensures
        match r {
            Some(k) => first_content_length(headers_view(headers@), 0) == Some(k as int),
            None => first_content_length(headers_view(headers@), 0) == None::<int>,
        },
{
    let cl = content_length_lit();
    let ghost hv = headers_view(headers@);
    let mut i: usize = 0;
    while i < headers.len()
        invariant
            i <= headers@.len(),
            hv == headers_view(headers@),
            cl@ == content_length_name(),
            forall|j: int| 0 <= j < i ==> !is_content_length_header(#[trigger] hv[j]),
        decreases headers@.len() - i,
    {
        assert(hv[i as int] == headers@[i as int]@);
        if eq_ignore_case(headers[i].name.as_slice(), cl.as_slice()) {
            proof {
                lemma_first_content_length(hv, 0);
                match first_content_length(hv, 0) {
                    Some(k) => {
                        if k < i {
                        } else if k > i {
                        }
                    },
                    None => {},
                }
            }
            return Some(i);
        }
        i = i + 1;
    }
    proof {
        lemma_first_content_length(hv, 0);
    }
    None
}


/// Appends the bytes of `s` to `v`.
pub fn append_bytes(v: &mut Vec<u8>, s: &[u8])
    ensures
        final(v)@ == old(v)@ + s@,
{
    let mut i: usize = 0;
    while i < s.len()
        invariant
            i <= s@.len(),
            v@ == old(v)@ + s@.take(i as int),
        decreases s@.len() - i,
    {
        v.push(s[i]);
        i = i + 1;
        assert(v@ =~= old(v)@ + s@.take(i as int));
    }
    assert(s@.take(s@.len() as int) =~= s@);
}

fn is_all_hex(s: &[u8]) -> (r: bool)
    ensures
        r == all_hex(s@),
{
    if s.len() == 0 {
        return false;
    }
    let mut i: usize = 0;
    while i < s.len()
        invariant
            i <= s@.len(),
            forall|j: int| 0 <= j < i ==> is_hex_digit(s@[j]),
        decreases s@.len() - i,
    {
        let b = s[i];
        if !((b >= 48u8 && b <= 57u8) || (b >= 65u8 && b <= 70u8) || (b >= 97u8 && b <= 102u8)) {
            return false;
        }
        i = i + 1;
    }
    true
}

fn is_all_digits(s: &[u8]) -> (r: bool)
    ensures
        r == all_digits(s@),
{
    if s.len() == 0 {
        return false;
    }
    let mut i: usize = 0;
    while i < s.len()
        invariant
            i <= s@.len(),
            forall|j: int| 0 <= j < i ==> is_digit(s@[j]),
        decreases s@.len() - i,
    {
        let b = s[i];
        if b < 48u8 || b > 57u8 {
            return false;
        }
        i = i + 1;
    }
    true
}

/// The size field of a chunk-size line.
fn chunk_size_field_exec(line: &[u8]) -> (r: &[u8])
    ensures
        r@ == chunk_size_field(line@),
{
    let semi = SimdDelimiterFinder::new(59u8);
    let found = semi.find_in(line);
    proof {
        lemma_byte_on_tail(line@, 59u8, 0, found);
        assert(line@.subrange(0, line@.len() as int) =~= line@);
    }
    match found {
        Some(c) => {
            let head = slice_subrange(line, 0, c);
            trim(head)
        },
        None => trim(line),
    }
}

/// A parsed HTTP/1.1 request. The body is the decoded payload: the
/// Content-Length bytes, or the concatenated chunks of a chunked body.
#[derive(Debug, Clone)]
pub struct Request {
    pub method: Method,
    pub uri: Vec<u8>,
    pub version: Version,
    pub headers: Vec<Header>,
    pub body: Option<Vec<u8>>,
    pub trailers: Vec<Header>,
}

impl View for Request {
    type V = RequestView;

    open spec fn view(&self) -> RequestView {
        RequestView {
            method: self.method,
            uri: self.uri@,
            version: self.version,
            headers: headers_view(self.headers@),
            body: match self.body {
                Some(b) => Some(b@),
                None => None,
            },
            trailers: headers_view(self.trailers@),
        }
    }
}

impl Http1Parser {
    /// Decodes a chunked body that starts at `start`, with its trailers;
    /// returns the payload, the trailers and the offset just past the body.
    pub fn extract_chunked_body(&self, input: &[u8], start: usize) -> (r: Result<
        (Vec<u8>, Vec<Header>, usize),
        Http1ParseError,
    >)
        requires
            start <= input@.len(),
        ensures
            match r {
                Ok((b, t, e)) => chunks_of(
                    input@,
                    start as int,
                    self.max_request_size as int,
                    self.max_header_size as int,
                    self.max_headers as int,
                    seq![],
                ) == Ok::<(Seq<u8>, Seq<(Seq<u8>, Seq<u8>)>, int), Http1ParseError>(
                    (b@, headers_view(t@), e as int),
                ),
                Err(e) => chunks_of(
                    input@,
                    start as int,
                    self.max_request_size as int,
                    self.max_header_size as int,
                    self.max_headers as int,
                    seq![],
                ) == Err::<(Seq<u8>, Seq<(Seq<u8>, Seq<u8>)>, int), Http1ParseError>(e),
            },
    {
        let crlf = SimdCrlfFinder::new();
        let mut body: Vec<u8> = Vec::new();
        let mut off = start;
        let ghost s = input@;
        let ghost mb = self.max_request_size as int;
        let ghost mh = self.max_header_size as int;
        let ghost mc = self.max_headers as int;
        loop
            invariant
                s == input@,
                mb == self.max_request_size as int,
                mh == self.max_header_size as int,
                mc == self.max_headers as int,
                off <= s.len(),
                body@.len() <= mb,
                chunks_of(s, start as int, mb, mh, mc, seq![]) == chunks_of(
                    s,
                    off as int,
                    mb,
                    mh,
                    mc,
                    body@,
                ),
            decreases s.len() - off,
        {
            let n_in = input.len();
            let tail = slice_subrange(input, off, n_in);
            let found = crlf.find_crlf(tail);
            proof {
                lemma_crlf_on_tail(s, off as int, found);
                lemma_find_crlf_from(s, off as int);
            }
            let k = match found {
                None => {
                    return Err(Http1ParseError::IncompleteRequest);
                },
                Some(k0) => off + k0,
            };
            let line = slice_subrange(input, off, k);
            let field = chunk_size_field_exec(line);
            if !is_all_hex(field) {
                return Err(Http1ParseError::InvalidChunkSize);
            }
            let room = self.max_request_size - body.len();
            let n = match parse_radix_capped(field, 16, room) {
                None => {
                    return Err(Http1ParseError::RequestTooLarge);
                },
                Some(n) => n,
            };
            if n == 0 {
                let limit = if self.max_header_size <= usize::MAX - (k + 2) {
                    k + 2 + self.max_header_size
                } else {
                    usize::MAX
                };
                return match self.parse_headers(input, k + 2, limit) {
                    Ok((t, e)) => Ok((body, t, e)),
                    Err(e) => Err(e),
                };
            }
            let data_start = k + 2;
            if n > n_in - data_start || n_in - data_start - n < 2 {
                return Err(Http1ParseError::IncompleteRequest);
            }
            let data_end = data_start + n;
            if input[data_end] != 13u8 || input[data_end + 1] != 10u8 {
                return Err(Http1ParseError::MalformedRequest);
            }
            append_bytes(&mut body, slice_subrange(input, data_start, data_end));
            off = data_end + 2;
        }
    }

    /// Parses one request from the start of `input`. On success returns the
    /// request and the number of bytes it occupies: the bytes after that
    /// belong to the next request.
    pub fn parse_request(&self, input: &[u8]) -> (r: Result<(Request, usize), Http1ParseError>)
        ensures
            match r {
                Ok((req, n)) => request_of(
                    self.max_headers as int,
                    self.max_header_size as int,
                    self.max_request_size as int,
                    input@,
                ) == Ok::<(RequestView, int), Http1ParseError>((req@, n as int)),
                Err(e) => request_of(
                    self.max_headers as int,
                    self.max_header_size as int,
                    self.max_request_size as int,
                    input@,
                ) == Err::<(RequestView, int), Http1ParseError>(e),
            },
    {
        if input.len() == 0 {
            return Err(Http1ParseError::IncompleteRequest);
        }
        let (method, uri, version, e1) = match self.parse_request_line(input) {
            Ok(x) => x,
            Err(e) => {
                return Err(e);
            },
        };
        proof {
            lemma_find_crlf_from(input@, 0);
        }
        let (headers, e2) = match self.parse_headers(input, e1, self.max_header_size) {
            Ok(x) => x,
            Err(e) => {
                return Err(e);
            },
        };
        proof {
            assert(e2 <= input@.len()) by {
                lemma_header_lines_end(
                    input@,
                    e1 as int,
                    self.max_header_size as int,
                    self.max_headers as int,
                    seq![],
                );
            }
        }
        let cl = find_content_length(&headers);
        if is_chunked(&headers) {
            if cl.is_some() {
                return Err(Http1ParseError::MalformedRequest);
            }
            let (body, trailers, e3) = match self.extract_chunked_body(input, e2) {
                Ok(x) => x,
                Err(e) => {
                    return Err(e);
                },
            };
            let req = Request { method, uri, version, headers, body: Some(body), trailers };
            return Ok((req, e3));
        }
        match cl {
            None => {
                let req = Request { method, uri, version, headers, body: None, trailers: Vec::new() };
                proof {
                    assert(req@.trailers =~= seq![]);
                }
                Ok((req, e2))
            },
            Some(i) => {
                proof {
                    lemma_first_content_length(headers_view(headers@), 0);
                }
                assert(headers_view(headers@)[i as int] == headers@[i as int]@);
                let v = headers[i].value.as_slice();
                if !is_all_digits(v) {
                    return Err(Http1ParseError::InvalidContentLength);
                }
                let n = match parse_radix_capped(v, 10, self.max_request_size) {
                    None => {
                        return Err(Http1ParseError::RequestTooLarge);
                    },
                    Some(n) => n,
                };
                let avail = input.len() - e2;
                if n > avail {
                    return Err(Http1ParseError::IncompleteRequest);
                }
                let body = slice_to_vec(slice_subrange(input, e2, e2 + n));
                let req = Request {
                    method,
                    uri,
                    version,
                    headers,
                    body: Some(body),
                    trailers: Vec::new(),
                };
                proof {
                    assert(req@.trailers =~= seq![]);
                }
                Ok((req, e2 + n))
            },
        }
    }
}


/// `HTTP/1.1 <code> <reason>\r\n`.
pub open spec fn status_line(code: u16, reason: Seq<u8>) -> Seq<u8> {
    seq![72u8, 84u8, 84u8, 80u8, 47u8, 49u8, 46u8, 49u8, 32u8] + dec_digits(code as nat) + seq![
        32u8,
    ] + reason + seq![13u8, 10u8]
}

/// `<name>: <value>\r\n`.
pub open spec fn header_line(name: Seq<u8>, value: Seq<u8>) -> Seq<u8> {
    name + seq![58u8, 32u8] + value + seq![13u8, 10u8]
}

/// The capitalised header name `Content-Length`.
pub open spec fn content_length_title() -> Seq<u8> {
    seq![67u8, 111u8, 110u8, 116u8, 101u8, 110u8, 116u8, 45u8, 76u8, 101u8, 110u8, 103u8, 116u8, 104u8]
}

/// Serialises a response: status line, header lines, blank line, body.
pub struct Http1ResponseBuilder {
    buffer: Vec<u8>,
    content_length_set: bool,
}

impl Http1ResponseBuilder {
    /// The bytes written so far.
    pub closed spec fn written(&self) -> Seq<u8> {
        self.buffer@
    }

    /// Whether a Content-Length header has been written.
    pub closed spec fn has_content_length(&self) -> bool {
        self.content_length_set
    }

    pub fn new() -> (r: Self)
        ensures
            r.written() == Seq::<u8>::empty(),
            !r.has_content_length(),
    {
        Http1ResponseBuilder { buffer: Vec::new(), content_length_set: false }
    }

    /// Writes the status line.
    pub fn status(&mut self, code: u16, reason: &str)
        ensures
            final(self).written() == old(self).written() + status_line(code, reason.spec_bytes()),
            final(self).has_content_length() == old(self).has_content_length(),
    {
        append_bytes(&mut self.buffer, &[72u8, 84u8, 84u8, 80u8, 47u8, 49u8, 46u8, 49u8, 32u8]);
        let digits = decimal_bytes(code as u64);
        append_bytes(&mut self.buffer, digits.as_slice());
        append_bytes(&mut self.buffer, &[32u8]);
        append_bytes(&mut self.buffer, reason.as_bytes());
        append_bytes(&mut self.buffer, &[13u8, 10u8]);
        proof {
            assert(self.buffer@ =~= old(self).buffer@ + status_line(code, reason.spec_bytes()));
        }
    }

    fn header_bytes(&mut self, name: &[u8], value: &[u8])
        ensures
            final(self).written() == old(self).written() + header_line(name@, value@),
            final(self).has_content_length() == (old(self).has_content_length() || eq_ci(
                name@,
                content_length_name(),
            )),
    {
        append_bytes(&mut self.buffer, name);
        append_bytes(&mut self.buffer, &[58u8, 32u8]);
        append_bytes(&mut self.buffer, value);
        append_bytes(&mut self.buffer, &[13u8, 10u8]);
        let cl = content_length_lit();
        if eq_ignore_case(name, cl.as_slice()) {
            self.content_length_set = true;
        }
        proof {
            assert(self.buffer@ =~= old(self).buffer@ + header_line(name@, value@));
        }
    }

    /// Writes one header line.
    pub fn header(&mut self, name: &str, value: &str)
        ensures
            final(self).written() == old(self).written() + header_line(
                name.spec_bytes(),
                value.spec_bytes(),
            ),
            final(self).has_content_length() == (old(self).has_content_length() || eq_ci(
                name.spec_bytes(),
                content_length_name(),
            )),
    {
        self.header_bytes(name.as_bytes(), value.as_bytes());
    }

    /// Ends the head and appends the body; when a body is given and no
    /// Content-Length was written, one giving the body's length comes first.
    /// Returns the whole response and leaves the builder empty.
    pub fn body(&mut self, body: Option<&[u8]>) -> (r: Vec<u8>)
        ensures
            r@ == old(self).written() + match body {
                Some(b) => if old(self).has_content_length() {
                    seq![13u8, 10u8] + b@
                } else {
                    header_line(content_length_title(), dec_digits(b@.len())) + seq![13u8, 10u8]
                        + b@
                },
                None => seq![13u8, 10u8],
            },
            final(self).written() == Seq::<u8>::empty(),
            !final(self).has_content_length(),
    {
        match body {
            Some(b) => {
                if !self.content_length_set {
                    let digits = decimal_bytes(b.len() as u64);
                    let title = [67u8, 111u8, 110u8, 116u8, 101u8, 110u8, 116u8, 45u8, 76u8, 101u8, 110u8, 103u8, 116u8, 104u8];
                    assert(title@ =~= content_length_title());
                    self.header_bytes(title.as_slice(), digits.as_slice());
                }
                append_bytes(&mut self.buffer, &[13u8, 10u8]);
                append_bytes(&mut self.buffer, b);
            },
            None => {
                append_bytes(&mut self.buffer, &[13u8, 10u8]);
            },
        }
        let mut out: Vec<u8> = Vec::new();
        std::mem::swap(&mut out, &mut self.buffer);
        self.content_length_set = false;
        proof {
            match body {
                Some(b) => {
                    if old(self).has_content_length() {
                        assert(out@ =~= old(self).written() + (seq![13u8, 10u8] + b@));
                    } else {
                        assert(out@ =~= old(self).written() + (header_line(
                            content_length_title(),
                            dec_digits(b@.len()),
                        ) + seq![13u8, 10u8] + b@));
                    }
                },
                None => {},
            }
        }
        out
    }
}

/// Whether the connection stays open after a request: HTTP/1.1 unless
/// `Connection: close`, HTTP/1.0 only with `Connection: keep-alive`.
pub open spec fn keep_alive_of(version: Version, hs: Seq<(Seq<u8>, Seq<u8>)>) -> bool {
    let close = exists|i: int|
        0 <= i < hs.len() && eq_ci(hs[i].0, connection_name()) && eq_ci(hs[i].1, close_name());
    let keep = exists|i: int|
        0 <= i < hs.len() && eq_ci(hs[i].0, connection_name()) && eq_ci(hs[i].1, keep_alive_name());
    if version.major == 1 && version.minor == 1 {
        !close
    } else if version.major == 1 && version.minor == 0 {
        keep
    } else {
        false
    }
}

pub open spec fn connection_name() -> Seq<u8> {
    seq![99u8, 111u8, 110u8, 110u8, 101u8, 99u8, 116u8, 105u8, 111u8, 110u8]
}

pub open spec fn close_name() -> Seq<u8> {
    seq![99u8, 108u8, 111u8, 115u8, 101u8]
}

pub open spec fn keep_alive_name() -> Seq<u8> {
    seq![107u8, 101u8, 101u8, 112u8, 45u8, 97u8, 108u8, 105u8, 118u8, 101u8]
}

/// Whether some header is `Connection` with the lowercase value `want`.
fn has_connection_value(headers: &Vec<Header>, want: &[u8]) -> (r: bool)
    ensures
        r == exists|i: int|
            0 <= i < headers_view(headers@).len() && eq_ci(
                headers_view(headers@)[i].0,
                connection_name(),
            ) && eq_ci(headers_view(headers@)[i].1, want@),
{
    let name = [99u8, 111u8, 110u8, 110u8, 101u8, 99u8, 116u8, 105u8, 111u8, 110u8];
    assert(name@ =~= connection_name());
    let ghost hv = headers_view(headers@);
    let mut i: usize = 0;
    while i < headers.len()
        invariant
            i <= headers@.len(),
            hv == headers_view(headers@),
            name@ == connection_name(),
            forall|j: int|
                0 <= j < i ==> !(eq_ci(#[trigger] hv[j].0, connection_name()) && eq_ci(
                    hv[j].1,
                    want@,
                )),
        decreases headers@.len() - i,
    {
        assert(hv[i as int] == headers@[i as int]@);
        if eq_ignore_case(headers[i].name.as_slice(), name.as_slice()) && eq_ignore_case(
            headers[i].value.as_slice(),
            want,
        ) {
            return true;
        }
        i = i + 1;
    }
    false
}

/// The keep-alive decision for a parsed request.
pub fn should_keep_alive(req: &Request) -> (r: bool)
    ensures
        r == keep_alive_of(req.version, headers_view(req.headers@)),
{
    let v = req.version;
    if v.major == 1 && v.minor == 1 {
        let close = [99u8, 108u8, 111u8, 115u8, 101u8];
        assert(close@ =~= close_name());
        !has_connection_value(&req.headers, close.as_slice())
    } else if v.major == 1 && v.minor == 0 {
        let keep = [107u8, 101u8, 101u8, 112u8, 45u8, 97u8, 108u8, 105u8, 118u8, 101u8];
        assert(keep@ =~= keep_alive_name());
        has_connection_value(&req.headers, keep.as_slice())
    } else {
        false
    }
}


/// A successful chunked body ends within the input.
pub proof fn lemma_chunks_end(
    s: Seq<u8>,
    off: int,
    max_body: int,
    max_header_size: int,
    max_count: int,
    acc: Seq<u8>,
)
    requires
        0 <= off,
        chunks_of(s, off, max_body, max_header_size, max_count, acc) is Ok,
    ensures
        chunks_of(s, off, max_body, max_header_size, max_count, acc)->Ok_0.2 <= s.len(),
    decreases s.len() - off,
{
    lemma_find_crlf_from(s, off);
    match find_crlf_from(s, off) {
        None => {},
        Some(k) => {
            if k >= off && k + 2 <= s.len() {
                let field = chunk_size_field(s.subrange(off, k));
                if all_hex(field) {
                    let n = hex_value(field) as int;
                    if n == 0 {
                        lemma_header_lines_end(
                            s,
                            k + 2,
                            trailer_limit(k + 2, max_header_size),
                            max_count,
                            seq![],
                        );
                    } else if acc.len() + n <= max_body && k + 2 + n + 2 <= s.len() && crlf_at(s, k + 2 + n) {
                        lemma_chunks_end(
                            s,
                            k + 2 + n + 2,
                            max_body,
                            max_header_size,
                            max_count,
                            acc + s.subrange(k + 2, k + 2 + n),
                        );
                    }
                }
            }
        },
    }
}

/// The bytes a parsed request occupies lie within the input.
pub proof fn lemma_request_within_input(
    max_headers: int,
    max_header_size: int,
    max_request_size: int,
    s: Seq<u8>,
)
    requires
        request_of(max_headers, max_header_size, max_request_size, s) is Ok,
    ensures
        request_of(max_headers, max_header_size, max_request_size, s)->Ok_0.1 <= s.len(),
{
    lemma_find_crlf_from(s, 0);
    match request_line_of(s, max_header_size) {
        Err(_) => {},
        Ok((m, u, v, e1)) => {
            assert(e1 >= 0);
            match header_lines_of(s, e1, max_header_size, max_headers, seq![]) {
                Err(_) => {},
                Ok((hs, e2)) => {
                    lemma_header_lines_end(s, e1, max_header_size, max_headers, seq![]);
                    if any_chunked(hs) && first_content_length(hs, 0) is None {
                        lemma_chunks_end(s, e2, max_request_size, max_header_size, max_headers, seq![]);
                    }
                },
            }
        },
    }
}


/// `s` and `t` hold the same first `k` bytes.
pub open spec fn agree_upto(s: Seq<u8>, t: Seq<u8>, k: int) -> bool {
    0 <= k <= s.len() && k <= t.len() && forall|i: int| 0 <= i < k ==> s[i] == t[i]
}

proof fn lemma_crlf_agree(s: Seq<u8>, t: Seq<u8>, i: int, k: int)
    requires
        0 <= i,
        find_crlf_from(s, i) == Some(k),
        agree_upto(s, t, k + 2),
    ensures
        find_crlf_from(t, i) == Some(k),
    decreases k - i,
{
    lemma_find_crlf_from(s, i);
    if i < k {
        assert(!crlf_at(s, i));
        assert(s[i] == t[i] && s[i + 1] == t[i + 1]);
        lemma_crlf_agree(s, t, i + 1, k);
    } else {
        assert(s[k] == t[k] && s[k + 1] == t[k + 1]);
    }
}

proof fn lemma_agree_subrange(s: Seq<u8>, t: Seq<u8>, a: int, b: int, k: int)
    requires
        agree_upto(s, t, k),
        0 <= a <= b <= k,
    ensures
        s.subrange(a, b) == t.subrange(a, b),
{
    assert(s.subrange(a, b) =~= t.subrange(a, b));
}

proof fn lemma_header_lines_agree(
    s: Seq<u8>,
    t: Seq<u8>,
    off: int,
    limit: int,
    max_count: int,
    acc: Seq<(Seq<u8>, Seq<u8>)>,
)
    requires
        0 <= off,
        header_lines_of(s, off, limit, max_count, acc) is Ok,
        agree_upto(s, t, header_lines_of(s, off, limit, max_count, acc)->Ok_0.1),
    ensures
        header_lines_of(t, off, limit, max_count, acc) == header_lines_of(s, off, limit, max_count, acc),
    decreases s.len() - off,
{
    let e = header_lines_of(s, off, limit, max_count, acc)->Ok_0.1;
    lemma_find_crlf_from(s, off);
    match find_crlf_from(s, off) {
        None => {},
        Some(k) => {
            if k < off || k + 2 > s.len() || k + 2 > limit {
            } else if k == off {
                lemma_crlf_agree(s, t, off, k);
            } else {
                match header_of(s.subrange(off, k)) {
                    Err(_) => {},
                    Ok(h) => {
                        if acc.len() + 1 <= max_count {
                            lemma_header_lines_end(s, k + 2, limit, max_count, acc.push(h));
                            lemma_crlf_agree(s, t, off, k);
                            lemma_agree_subrange(s, t, off, k, e);
                            lemma_header_lines_agree(s, t, k + 2, limit, max_count, acc.push(h));
                        }
                    },
                }
            }
        },
    }
}

proof fn lemma_chunks_lower(
    s: Seq<u8>,
    off: int,
    max_body: int,
    max_header_size: int,
    max_count: int,
    acc: Seq<u8>,
)
    requires
        0 <= off,
        chunks_of(s, off, max_body, max_header_size, max_count, acc) is Ok,
    ensures
        off + 2 <= chunks_of(s, off, max_body, max_header_size, max_count, acc)->Ok_0.2,
    decreases s.len() - off,
{
    lemma_find_crlf_from(s, off);
    match find_crlf_from(s, off) {
        None => {},
        Some(k) => {
            if k >= off && k + 2 <= s.len() {
                let field = chunk_size_field(s.subrange(off, k));
                if all_hex(field) {
                    let n = hex_value(field) as int;
                    if n == 0 {
                        lemma_header_lines_end(s, k + 2, trailer_limit(k + 2, max_header_size), max_count, seq![]);
                    } else if acc.len() + n <= max_body && k + 2 + n + 2 <= s.len() && crlf_at(s, k + 2 + n) {
                        lemma_chunks_lower(s, k + 2 + n + 2, max_body, max_header_size, max_count, acc + s.subrange(k + 2, k + 2 + n));
                    }
                }
            }
        },
    }
}

proof fn lemma_chunks_agree(
    s: Seq<u8>,
    t: Seq<u8>,
    off: int,
    max_body: int,
    max_header_size: int,
    max_count: int,
    acc: Seq<u8>,
)
    requires
        0 <= off,
        chunks_of(s, off, max_body, max_header_size, max_count, acc) is Ok,
        agree_upto(s, t, chunks_of(s, off, max_body, max_header_size, max_count, acc)->Ok_0.2),
    ensures
        chunks_of(t, off, max_body, max_header_size, max_count, acc) == chunks_of(
            s,
            off,
            max_body,
            max_header_size,
            max_count,
            acc,
        ),
    decreases s.len() - off,
{
    let e = chunks_of(s, off, max_body, max_header_size, max_count, acc)->Ok_0.2;
    lemma_find_crlf_from(s, off);
    match find_crlf_from(s, off) {
        None => {},
        Some(k) => {
            if k >= off && k + 2 <= s.len() {
                let field = chunk_size_field(s.subrange(off, k));
                if all_hex(field) {
                    let n = hex_value(field) as int;
                    if n == 0 {
                        let lim = trailer_limit(k + 2, max_header_size);
                        lemma_header_lines_end(s, k + 2, lim, max_count, seq![]);
                        lemma_crlf_agree(s, t, off, k);
                        lemma_agree_subrange(s, t, off, k, e);
                        lemma_header_lines_agree(s, t, k + 2, lim, max_count, seq![]);
                    } else if acc.len() + n <= max_body && k + 2 + n + 2 <= s.len() && crlf_at(s, k + 2 + n) {
                        let next = acc + s.subrange(k + 2, k + 2 + n);
                        lemma_chunks_lower(s, k + 2 + n + 2, max_body, max_header_size, max_count, next);
                        lemma_crlf_agree(s, t, off, k);
                        lemma_agree_subrange(s, t, off, k, e);
                        lemma_agree_subrange(s, t, k + 2, k + 2 + n, e);
                        assert(s[k + 2 + n] == t[k + 2 + n] && s[k + 3 + n] == t[k + 3 + n]);
                        lemma_chunks_agree(s, t, k + 2 + n + 2, max_body, max_header_size, max_count, next);
                    }
                }
            }
        },
    }
}

/// A parsed request is decided by its own bytes: `consumed` is the offset of
/// the first byte that does not belong to it, and whatever follows that
/// offset (the next pipelined request, or anything else) leaves the result
/// unchanged.
pub proof fn lemma_consumed_is_request_end(
    max_headers: int,
    max_header_size: int,
    max_request_size: int,
    s: Seq<u8>,
    rest: Seq<u8>,
)
    requires
        request_of(max_headers, max_header_size, max_request_size, s) is Ok,
    ensures
        ({
            let n = request_of(max_headers, max_header_size, max_request_size, s)->Ok_0.1;
            &&& 0 < n <= s.len()
            &&& request_of(max_headers, max_header_size, max_request_size, s.take(n) + rest) == request_of(
                max_headers,
                max_header_size,
                max_request_size,
                s,
            )
        }),
{
    lemma_request_within_input(max_headers, max_header_size, max_request_size, s);
    let n = request_of(max_headers, max_header_size, max_request_size, s)->Ok_0.1;
    let t = s.take(n) + rest;
    lemma_find_crlf_from(s, 0);
    match request_line_of(s, max_header_size) {
        Err(_) => {},
        Ok((m, u, v, e1)) => {
            let k = e1 - 2;
            match header_lines_of(s, e1, max_header_size, max_headers, seq![]) {
                Err(_) => {},
                Ok((hs, e2)) => {
                    lemma_header_lines_end(s, e1, max_header_size, max_headers, seq![]);
                    if any_chunked(hs) && first_content_length(hs, 0) is None {
                        lemma_chunks_lower(s, e2, max_request_size, max_header_size, max_headers, seq![]);
                    }
                    assert(e2 <= n);
                    assert(agree_upto(s, t, n));
                    lemma_crlf_agree(s, t, 0, k);
                    assert(s.take(k) =~= t.take(k));
                    lemma_header_lines_agree(s, t, e1, max_header_size, max_headers, seq![]);
                    if any_chunked(hs) && first_content_length(hs, 0) is None {
                        lemma_chunks_agree(s, t, e2, max_request_size, max_header_size, max_headers, seq![]);
                    } else if !any_chunked(hs) {
                        match first_content_length(hs, 0) {
                            None => {},
                            Some(i) => {
                                let d = dec_value(hs[i].1) as int;
                                if all_digits(hs[i].1) && d <= max_request_size && e2 + d <= s.len() {
                                    lemma_agree_subrange(s, t, e2, e2 + d, n);
                                }
                            },
                        }
                    }
                },
            }
        },
    }
}


proof fn lemma_crlf_cut(s: Seq<u8>, i: int, k: int, m: int)
    requires
        0 <= i,
        find_crlf_from(s, i) == Some(k),
        0 <= m < k + 2,
        m <= s.len(),
    ensures
        find_crlf_from(s.take(m), i) is None,
{
    lemma_find_crlf_from(s, i);
    lemma_find_crlf_from(s.take(m), i);
    match find_crlf_from(s.take(m), i) {
        Some(j) => {
            assert(s.take(m)[j] == s[j] && s.take(m)[j + 1] == s[j + 1]);
            assert(crlf_at(s, j));
        },
        None => {},
    }
}

proof fn lemma_header_lines_cut(
    s: Seq<u8>,
    off: int,
    limit: int,
    max_count: int,
    acc: Seq<(Seq<u8>, Seq<u8>)>,
    m: int,
)
    requires
        0 <= off <= m,
        header_lines_of(s, off, limit, max_count, acc) is Ok,
        m < header_lines_of(s, off, limit, max_count, acc)->Ok_0.1,
    ensures
        header_lines_of(s.take(m), off, limit, max_count, acc) == Err::<
            (Seq<(Seq<u8>, Seq<u8>)>, int),
            Http1ParseError,
        >(Http1ParseError::IncompleteRequest),
    decreases s.len() - off,
{
    let e = header_lines_of(s, off, limit, max_count, acc)->Ok_0.1;
    lemma_header_lines_end(s, off, limit, max_count, acc);
    let t = s.take(m);
    lemma_find_crlf_from(s, off);
    match find_crlf_from(s, off) {
        None => {},
        Some(k) => {
            if k < off || k + 2 > s.len() || k + 2 > limit {
            } else if m < k + 2 {
                lemma_crlf_cut(s, off, k, m);
            } else {
                lemma_crlf_agree(s, t, off, k);
                if k != off {
                    match header_of(s.subrange(off, k)) {
                        Err(_) => {},
                        Ok(h) => {
                            if acc.len() + 1 <= max_count {
                                assert(s.subrange(off, k) =~= t.subrange(off, k));
                                assert(t.take(m) =~= t);
                                assert(s.take(m) =~= t);
                                lemma_header_lines_cut(s, k + 2, limit, max_count, acc.push(h), m);
                            }
                        },
                    }
                }
            }
        },
    }
}

proof fn lemma_chunks_cut(
    s: Seq<u8>,
    off: int,
    max_body: int,
    max_header_size: int,
    max_count: int,
    acc: Seq<u8>,
    m: int,
)
    requires
        0 <= off <= m,
        chunks_of(s, off, max_body, max_header_size, max_count, acc) is Ok,
        m < chunks_of(s, off, max_body, max_header_size, max_count, acc)->Ok_0.2,
    ensures
        chunks_of(s.take(m), off, max_body, max_header_size, max_count, acc) == Err::<
            (Seq<u8>, Seq<(Seq<u8>, Seq<u8>)>, int),
            Http1ParseError,
        >(Http1ParseError::IncompleteRequest),
    decreases s.len() - off,
{
    lemma_chunks_end(s, off, max_body, max_header_size, max_count, acc);
    let t = s.take(m);
    lemma_find_crlf_from(s, off);
    match find_crlf_from(s, off) {
        None => {},
        Some(k) => {
            if k >= off && k + 2 <= s.len() {
                if m < k + 2 {
                    lemma_crlf_cut(s, off, k, m);
                } else {
                    lemma_crlf_agree(s, t, off, k);
                    assert(s.subrange(off, k) =~= t.subrange(off, k));
                    let field = chunk_size_field(s.subrange(off, k));
                    if all_hex(field) {
                        let n = hex_value(field) as int;
                        if n == 0 {
                            let lim = trailer_limit(k + 2, max_header_size);
                            lemma_header_lines_cut(s, k + 2, lim, max_count, seq![], m);
                        } else if acc.len() + n <= max_body && k + 2 + n + 2 <= s.len() && crlf_at(s, k + 2 + n) {
                            if m < k + 2 + n + 2 {
                            } else {
                                let next = acc + s.subrange(k + 2, k + 2 + n);
                                assert(s.subrange(k + 2, k + 2 + n) =~= t.subrange(k + 2, k + 2 + n));
                                assert(t[k + 2 + n] == s[k + 2 + n] && t[k + 3 + n] == s[k + 3 + n]);
                                lemma_chunks_cut(s, k + 2 + n + 2, max_body, max_header_size, max_count, next, m);
                            }
                        }
                    }
                }
            }
        },
    }
}

/// Every proper prefix of a request is reported as incomplete: delivered
/// one byte at a time, a request is first parsed when its last byte
/// arrives, and then (by `lemma_consumed_is_request_end`) exactly as when
/// it arrives in one read.
pub proof fn lemma_prefix_is_incomplete(
    max_headers: int,
    max_header_size: int,
    max_request_size: int,
    s: Seq<u8>,
    m: int,
)
    requires
        request_of(max_headers, max_header_size, max_request_size, s) is Ok,
        0 <= m < request_of(max_headers, max_header_size, max_request_size, s)->Ok_0.1,
    ensures
        request_of(max_headers, max_header_size, max_request_size, s.take(m)) == Err::<
            (RequestView, int),
            Http1ParseError,
        >(Http1ParseError::IncompleteRequest),
{
    lemma_request_within_input(max_headers, max_header_size, max_request_size, s);
    let n = request_of(max_headers, max_header_size, max_request_size, s)->Ok_0.1;
    let t = s.take(m);
    lemma_find_crlf_from(s, 0);
    if m == 0 {
        assert(t.len() == 0);
    } else {
        match request_line_of(s, max_header_size) {
            Err(_) => {},
            Ok((meth, u, v, e1)) => {
                let k = e1 - 2;
                if m < e1 {
                    lemma_crlf_cut(s, 0, k, m);
                } else {
                    lemma_crlf_agree(s, t, 0, k);
                    assert(s.take(k) =~= t.take(k));
                    match header_lines_of(s, e1, max_header_size, max_headers, seq![]) {
                        Err(_) => {},
                        Ok((hs, e2)) => {
                            if m < e2 {
                                lemma_header_lines_cut(s, e1, max_header_size, max_headers, seq![], m);
                            } else {
                                lemma_header_lines_end(s, e1, max_header_size, max_headers, seq![]);
                                assert(agree_upto(s, t, e2));
                                lemma_header_lines_agree(s, t, e1, max_header_size, max_headers, seq![]);
                                if any_chunked(hs) && first_content_length(hs, 0) is None {
                                    lemma_chunks_cut(s, e2, max_request_size, max_header_size, max_headers, seq![], m);
                                }
                            }
                        },
                    }
                }
            },
        }
    }
}

/// A successful run of header lines ends within the input.
pub proof fn lemma_header_lines_end(
    s: Seq<u8>,
    off: int,
    limit: int,
    max_count: int,
    acc: Seq<(Seq<u8>, Seq<u8>)>,
)
    requires
        0 <= off,
        header_lines_of(s, off, limit, max_count, acc) is Ok,
    ensures
        off + 2 <= header_lines_of(s, off, limit, max_count, acc)->Ok_0.1 <= s.len(),
    decreases s.len() - off,
{
    lemma_find_crlf_from(s, off);
    match find_crlf_from(s, off) {
        None => {},
        Some(k) => {
            if k >= off && k + 2 <= s.len() && k + 2 <= limit && k != off {
                match header_of(s.subrange(off, k)) {
                    Err(e) => {},
                    Ok(h) => {
                        if acc.len() + 1 <= max_count {
                            lemma_header_lines_end(s, k + 2, limit, max_count, acc.push(h));
                        }
                    },
                }
            }
        },
    }
}

proof fn lemma_trailing_ws_bound(s: Seq<u8>)
    ensures
        trailing_ws(s) <= s.len(),
        trailing_ws(s) < s.len() ==> !is_ws(s[s.len() - trailing_ws(s) - 1]),
        forall|j: int| s.len() - trailing_ws(s) <= j < s.len() ==> is_ws(s[j]),
    decreases s.len(),
{
    if s.len() > 0 && is_ws(s.last()) {
        let t = s.drop_last();
        lemma_trailing_ws_bound(t);
        assert forall|j: int| s.len() - trailing_ws(s) <= j < s.len() implies is_ws(s[j]) by {
            if j < t.len() {
                assert(s[j] == t[j]);
            }
        }
        if trailing_ws(s) < s.len() {
            assert(s[s.len() - trailing_ws(s) - 1] == t[t.len() - trailing_ws(t) - 1]);
        }
    }
}

proof fn lemma_trailing_ws_at(s: Seq<u8>, k: int)
    requires
        0 <= k <= s.len(),
        forall|j: int| s.len() - k <= j < s.len() ==> is_ws(s[j]),
        k == s.len() || !is_ws(s[s.len() - k - 1]),
    ensures
        trailing_ws(s) == k,
    decreases s.len(),
{
    if s.len() > 0 && is_ws(s.last()) {
        let t = s.drop_last();
        assert forall|j: int| t.len() - (k - 1) <= j < t.len() implies is_ws(t[j]) by {
            assert(t[j] == s[j]);
        }
        lemma_trailing_ws_at(t, k - 1);
    }
}

/// The index one past the last byte of `s` that is no space or tab.
fn trimmed_end(s: &[u8]) -> (r: usize)
    ensures
        r as int == s@.len() - trailing_ws(s@),
{
    let mut e = s.len();
    while e > 0 && (s[e - 1] == 32u8 || s[e - 1] == 9u8)
        invariant
            e <= s@.len(),
            forall|j: int| e <= j < s@.len() ==> is_ws(s@[j]),
        decreases e,
    {
        e = e - 1;
    }
    proof {
        lemma_trailing_ws_at(s@, s@.len() - e);
    }
    e
}

fn is_field_value_exec(s: &[u8]) -> (r: bool)
    ensures
        r == is_field_value(s@),
{
    let mut i: usize = 0;
    while i < s.len()
        invariant
            i <= s@.len(),
            forall|j: int| 0 <= j < i ==> s@[j] != 0u8 && s@[j] != 13u8 && s@[j] != 10u8,
        decreases s@.len() - i,
    {
        let b = s[i];
        if b == 0u8 || b == 13u8 || b == 10u8 {
            return false;
        }
        i = i + 1;
    }
    true
}

fn slice_to_vec(s: &[u8]) -> (r: Vec<u8>)
    ensures
        r@ == s@,
{
    let mut v: Vec<u8> = Vec::new();
    let mut i: usize = 0;
    while i < s.len()
        invariant
            i <= s@.len(),
            v@ == s@.take(i as int),
        decreases s@.len() - i,
    {
        v.push(s[i]);
        i = i + 1;
        assert(v@ =~= s@.take(i as int));
    }
    assert(s@.take(s@.len() as int) =~= s@);
    v
}

} // verus!
