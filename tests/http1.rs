use angelax::http1::{should_keep_alive, Http1ParseError, Http1Parser, Http1ResponseBuilder, Method, Version};

#[test]
fn test_parse_simple_request() {
    let parser = Http1Parser::new();
    let request = b"GET /index.html HTTP/1.1\r\n\r\n";
    let (req, consumed) = parser.parse_request(request).unwrap();
    assert_eq!(req.method, Method::Get);
    assert_eq!(req.uri, b"/index.html");
    assert_eq!(req.version.major, 1);
    assert_eq!(req.version.minor, 1);
    assert_eq!(req.headers.len(), 0);
    assert!(req.body.is_none());
    assert_eq!(consumed, request.len());
}

#[test]
fn simple_get_with_host() {
    let parser = Http1Parser::new();
    let request = b"GET /index.html HTTP/1.1\r\nHost: example.com\r\n\r\n";
    let (req, consumed) = parser.parse_request(request).unwrap();
    assert_eq!(req.method, Method::Get);
    assert_eq!(req.uri, b"/index.html");
    assert_eq!(req.version, Version { major: 1, minor: 1 });
    assert_eq!(req.headers.len(), 1);
    assert_eq!(req.headers[0].name, b"Host");
    assert_eq!(req.headers[0].value, b"example.com");
    assert!(req.body.is_none());
    assert_eq!(consumed, request.len());
}

#[test]
fn post_with_content_length() {
    let parser = Http1Parser::new();
    let request = b"POST /api HTTP/1.1\r\nContent-Length: 5\r\n\r\nhello";
    let (req, consumed) = parser.parse_request(request).unwrap();
    assert_eq!(req.body, Some(vec![0x68, 0x65, 0x6c, 0x6c, 0x6f]));
    assert_eq!(consumed, request.len());
}

#[test]
fn chunked_body_with_trailer() {
    let parser = Http1Parser::new();
    let request =
        b"POST /u HTTP/1.1\r\nTransfer-Encoding: chunked\r\n\r\n5\r\nHello\r\n6\r\n World\r\n0\r\nX-Trace: abc\r\n\r\n";
    let (req, consumed) = parser.parse_request(request).unwrap();
    assert_eq!(req.body, Some(b"Hello World".to_vec()));
    assert_eq!(req.trailers.len(), 1);
    assert_eq!(req.trailers[0].name, b"X-Trace");
    assert_eq!(req.trailers[0].value, b"abc");
    assert_eq!(consumed, request.len());
}

#[test]
fn chunk_extensions_and_final_coding() {
    let parser = Http1Parser::new();
    let request = b"POST /u HTTP/1.1\r\nTransfer-Encoding: gzip, Chunked\r\n\r\na;ext=1\r\n0123456789\r\n0\r\n\r\nNEXT";
    let (req, consumed) = parser.parse_request(request).unwrap();
    assert_eq!(req.body, Some(b"0123456789".to_vec()));
    assert_eq!(consumed, request.len() - 4);
    let not_last = b"POST /u HTTP/1.1\r\nTransfer-Encoding: chunked, gzip\r\n\r\n";
    let (req, _) = parser.parse_request(not_last).unwrap();
    assert!(req.body.is_none());
}

#[test]
fn chunked_with_content_length_is_malformed() {
    let parser = Http1Parser::new();
    let request = b"POST /u HTTP/1.1\r\nContent-Length: 0\r\nTransfer-Encoding: chunked\r\n\r\n0\r\n\r\n";
    assert_eq!(parser.parse_request(request).unwrap_err(), Http1ParseError::MalformedRequest);
}

#[test]
fn bad_chunk_size() {
    let parser = Http1Parser::new();
    let request = b"POST /u HTTP/1.1\r\nTransfer-Encoding: chunked\r\n\r\nzz\r\n";
    assert_eq!(parser.parse_request(request).unwrap_err(), Http1ParseError::InvalidChunkSize);
}

#[test]
fn test_parse_request_with_headers() {
    let parser = Http1Parser::new();
    let request = b"POST /api/users HTTP/1.1\r\nHost: example.com\r\nContent-Type: application/json\r\nContent-Length: 13\r\n\r\n{\"id\": 12345}";
    let (req, consumed) = parser.parse_request(request).unwrap();
    assert_eq!(req.method, Method::Post);
    assert_eq!(req.uri, b"/api/users");
    assert_eq!(req.headers.len(), 3);
    assert_eq!(req.headers[1].name, b"Content-Type");
    assert_eq!(req.headers[1].value, b"application/json");
    assert_eq!(req.body, Some(b"{\"id\": 12345}".to_vec()));
    assert_eq!(consumed, request.len());
}

#[test]
fn test_parse_all_methods() {
    let parser = Http1Parser::new();
    let methods = [
        ("GET", Method::Get),
        ("HEAD", Method::Head),
        ("POST", Method::Post),
        ("PUT", Method::Put),
        ("DELETE", Method::Delete),
        ("CONNECT", Method::Connect),
        ("OPTIONS", Method::Options),
        ("TRACE", Method::Trace),
        ("PATCH", Method::Patch),
    ];
    for (method_str, expected) in methods {
        let request = format!("{} / HTTP/1.1\r\n\r\n", method_str);
        let (req, _) = parser.parse_request(request.as_bytes()).unwrap();
        assert_eq!(req.method, expected);
    }
}

#[test]
fn test_parse_version() {
    let parser = Http1Parser::new();
    assert_eq!(parser.parse_version(b"HTTP/1.0").unwrap(), Version { major: 1, minor: 0 });
    assert_eq!(parser.parse_version(b"HTTP/1.1").unwrap(), Version { major: 1, minor: 1 });
    assert_eq!(parser.parse_version(b"HTTP/2.0").unwrap(), Version { major: 2, minor: 0 });
    assert_eq!(parser.parse_version(b"HTTP/0.9").unwrap(), Version { major: 0, minor: 9 });
    assert!(parser.parse_version(b"HTTP/").is_err());
    assert!(parser.parse_version(b"HTTP/1").is_err());
    assert!(parser.parse_version(b"HTTP/1.").is_err());
    assert!(parser.parse_version(b"HTTP/a.b").is_err());
    assert!(parser.parse_version(b"HTTP/3.0").is_err());
}

#[test]
fn test_header_whitespace_handling() {
    let parser = Http1Parser::new();
    let request = b"GET / HTTP/1.1\r\nHost:   example.com   \r\nSpaced-Header:\t\tvalue\t\t\r\nX: a  b\r\n\r\n";
    let (req, _) = parser.parse_request(request).unwrap();
    assert_eq!(req.headers[0].value, b"example.com");
    assert_eq!(req.headers[1].value, b"value");
    assert_eq!(req.headers[2].value, b"a  b");
}

#[test]
fn test_response_builder() {
    let mut builder = Http1ResponseBuilder::new();
    builder.status(200, "OK");
    builder.header("Content-Type", "text/plain");
    builder.header("Server", "Angelax/1.0");
    let response = builder.body(Some(b"Hello, World!"));
    let expected = b"HTTP/1.1 200 OK\r\nContent-Type: text/plain\r\nServer: Angelax/1.0\r\nContent-Length: 13\r\n\r\nHello, World!";
    assert_eq!(response, expected);
}

#[test]
fn response_keeps_explicit_content_length() {
    let mut builder = Http1ResponseBuilder::new();
    builder.status(404, "Not Found");
    builder.header("content-length", "2");
    let response = builder.body(Some(b"no"));
    assert_eq!(response, b"HTTP/1.1 404 Not Found\r\ncontent-length: 2\r\n\r\nno");
    builder.status(204, "No Content");
    assert_eq!(builder.body(None), b"HTTP/1.1 204 No Content\r\n\r\n");
}

#[test]
fn test_error_cases() {
    let parser = Http1Parser::new();
    assert!(matches!(parser.parse_request(b"GET /"), Err(Http1ParseError::IncompleteRequest)));
    assert!(matches!(parser.parse_request(b"INVALID / HTTP/1.1\r\n\r\n"), Err(Http1ParseError::InvalidMethod)));
    assert!(matches!(parser.parse_request(b"GET / HTTP/1.1\r\nBadHeader\r\n\r\n"), Err(Http1ParseError::InvalidHeader)));
    assert!(matches!(
        parser.parse_request(b"GET / HTTP/1.1\r\nContent-Length: abc\r\n\r\n"),
        Err(Http1ParseError::InvalidContentLength)
    ));
    assert!(matches!(parser.parse_request(b"GET / HTTP/1.1\r\nBad Name: x\r\n\r\n"), Err(Http1ParseError::InvalidHeaderName)));
    assert!(matches!(parser.parse_request(b"GET /\xff HTTP/1.1\r\n\r\n"), Err(Http1ParseError::InvalidUri)));
    assert!(matches!(parser.parse_request(b"GET / HTTP/9.9\r\n\r\n"), Err(Http1ParseError::InvalidVersion)));
    assert!(matches!(parser.parse_request(b"GET/\r\n\r\n"), Err(Http1ParseError::MalformedRequest)));
    assert!(matches!(parser.parse_request(b"GET / HTTP/1.1\r\nX: a\rb\r\n\r\n"), Err(Http1ParseError::InvalidHeaderValue)));
    assert!(matches!(
        parser.parse_request(b"POST / HTTP/1.1\r\nContent-Length: 10485761\r\n\r\n"),
        Err(Http1ParseError::RequestTooLarge)
    ));
    assert!(matches!(
        parser.parse_request(b"POST / HTTP/1.1\r\nContent-Length: 99999999999999999999999\r\n\r\n"),
        Err(Http1ParseError::RequestTooLarge)
    ));
    assert!(matches!(
        parser.parse_request(b"POST / HTTP/1.1\r\nContent-Length: 5\r\n\r\nabc"),
        Err(Http1ParseError::IncompleteRequest)
    ));
}

#[test]
fn too_many_headers() {
    let parser = Http1Parser::with_limits(2, 8192, 1024);
    assert!(parser.parse_request(b"GET / HTTP/1.1\r\nA: 1\r\nB: 2\r\n\r\n").is_ok());
    assert_eq!(
        parser.parse_request(b"GET / HTTP/1.1\r\nA: 1\r\nB: 2\r\nC: 3\r\n\r\n").unwrap_err(),
        Http1ParseError::TooManyHeaders
    );
}

fn head_of_size(n: usize) -> Vec<u8> {
    let fixed = b"GET / HTTP/1.1\r\nX: \r\n\r\n".len();
    let mut v = b"GET / HTTP/1.1\r\nX: ".to_vec();
    v.extend(std::iter::repeat(b'a').take(n - fixed));
    v.extend_from_slice(b"\r\n\r\n");
    assert_eq!(v.len(), n);
    v
}

#[test]
fn header_block_exactly_at_the_limit() {
    let parser = Http1Parser::new();
    let at = head_of_size(8192);
    assert_eq!(parser.parse_request(&at).unwrap().1, 8192);
    let over = head_of_size(8193);
    assert_eq!(parser.parse_request(&over).unwrap_err(), Http1ParseError::RequestTooLarge);
}

#[test]
fn consumed_stops_at_the_next_request() {
    let parser = Http1Parser::new();
    let first = b"POST /a HTTP/1.1\r\nContent-Length: 3\r\n\r\nabc".to_vec();
    let mut both = first.clone();
    both.extend_from_slice(b"GET /b HTTP/1.1\r\n\r\n");
    let (req, n) = parser.parse_request(&both).unwrap();
    assert_eq!(n, first.len());
    assert_eq!(req.body, Some(b"abc".to_vec()));
    let (next, m) = parser.parse_request(&both[n..]).unwrap();
    assert_eq!(next.uri, b"/b");
    assert_eq!(n + m, both.len());
}

#[test]
fn byte_at_a_time_matches_one_read() {
    let parser = Http1Parser::new();
    let requests: Vec<&[u8]> = vec![
        b"GET /index.html HTTP/1.1\r\nHost: example.com\r\n\r\n",
        b"POST /api HTTP/1.1\r\nContent-Length: 5\r\n\r\nhello",
        b"POST /u HTTP/1.1\r\nTransfer-Encoding: chunked\r\n\r\n5\r\nHello\r\n6\r\n World\r\n0\r\nX-Trace: abc\r\n\r\n",
    ];
    for full in requests {
        let (whole, n) = parser.parse_request(full).unwrap();
        let mut buf = Vec::new();
        let mut result = None;
        for &b in full {
            buf.push(b);
            match parser.parse_request(&buf) {
                Ok(r) => {
                    result = Some(r);
                    break;
                }
                Err(e) => assert_eq!(e, Http1ParseError::IncompleteRequest),
            }
        }
        let (part, m) = result.unwrap();
        assert_eq!(m, n);
        assert_eq!(buf.len(), full.len());
        assert_eq!(part.uri, whole.uri);
        assert_eq!(part.body, whole.body);
        assert_eq!(part.headers.len(), whole.headers.len());
    }
}

#[test]
fn keep_alive_decision() {
    let parser = Http1Parser::new();
    let (r, _) = parser.parse_request(b"GET / HTTP/1.1\r\n\r\n").unwrap();
    assert!(should_keep_alive(&r));
    let (r, _) = parser.parse_request(b"GET / HTTP/1.1\r\nConnection: Close\r\n\r\n").unwrap();
    assert!(!should_keep_alive(&r));
    let (r, _) = parser.parse_request(b"GET / HTTP/1.0\r\n\r\n").unwrap();
    assert!(!should_keep_alive(&r));
    let (r, _) = parser.parse_request(b"GET / HTTP/1.0\r\nConnection: keep-alive\r\n\r\n").unwrap();
    assert!(should_keep_alive(&r));
}
