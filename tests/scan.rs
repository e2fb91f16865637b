use angelax::scan::{
    SimdCrlfFinder, SimdDelimiterFinder, SimdTokenValidator, SimdUppercaseConverter,
    SimdWhitespaceSkipper,
};

#[test]
fn test_delimiter_finder() {
    let finder = SimdDelimiterFinder::new(b':');
    assert_eq!(finder.find_in(b"Content-Type: text/plain"), Some(12));
    assert_eq!(finder.find_in(b"No colon here"), None);
    assert_eq!(finder.find_in(b":at_start"), Some(0));
    assert_eq!(finder.find_in(b"at_end:"), Some(6));
    let long_str = b"aaaaaaaaaaaaaaaaaaaaaaaaaaaaaaaa:bbbbbbbbbbbbbbbbbbbbbbbbbbbbbbb";
    assert_eq!(finder.find_in(long_str), Some(32));
}

#[test]
fn test_crlf_finder() {
    let finder = SimdCrlfFinder::new();
    assert_eq!(finder.find_crlf(b"Line1\r\nLine2"), Some(5));
    assert_eq!(finder.find_crlf(b"No CRLF here"), None);
    assert_eq!(finder.find_crlf(b"\r\n"), Some(0));
    assert_eq!(finder.find_crlf(b"Just\rCR"), None);
    assert_eq!(finder.find_crlf(b"Just\nLF"), None);
    let mut long_str = vec![b'a'; 31];
    long_str.extend_from_slice(b"\r\n");
    assert_eq!(finder.find_crlf(&long_str), Some(31));
}

#[test]
fn test_uppercase_converter() {
    let mut input = b"Content-Type: text/plain".to_vec();
    SimdUppercaseConverter::convert(&mut input);
    assert_eq!(&input, b"CONTENT-TYPE: TEXT/PLAIN");
    let mut mixed = b"MiXeD-CaSe-123".to_vec();
    SimdUppercaseConverter::convert(&mut mixed);
    assert_eq!(&mixed, b"MIXED-CASE-123");
    let mut long_str = vec![b'a'; 64];
    SimdUppercaseConverter::convert(&mut long_str);
    assert!(long_str.iter().all(|&b| b == b'A'));
}

#[test]
fn test_token_validator() {
    assert!(SimdTokenValidator::is_valid_token(b"Content-Type"));
    assert!(SimdTokenValidator::is_valid_token(b"X-Custom-Header"));
    assert!(SimdTokenValidator::is_valid_token(b"123"));
    assert!(SimdTokenValidator::is_valid_token(b"!#$%&'*+-.^_`|~"));
    assert!(!SimdTokenValidator::is_valid_token(b""));
    assert!(!SimdTokenValidator::is_valid_token(b"Has Space"));
    assert!(!SimdTokenValidator::is_valid_token(b"Has\tTab"));
    assert!(!SimdTokenValidator::is_valid_token(b"Has:Colon"));
}

#[test]
fn test_whitespace_skipper() {
    assert_eq!(SimdWhitespaceSkipper::skip_whitespace(b"  text"), b"text");
    assert_eq!(SimdWhitespaceSkipper::skip_whitespace(b"\t\ttext"), b"text");
    assert_eq!(SimdWhitespaceSkipper::skip_whitespace(b" \t mixed"), b"mixed");
    assert_eq!(SimdWhitespaceSkipper::skip_whitespace(b"no_ws"), b"no_ws");
    assert_eq!(SimdWhitespaceSkipper::skip_whitespace(b"   "), b"");
    let mut long_ws = vec![b' '; 64];
    long_ws.extend_from_slice(b"text");
    assert_eq!(SimdWhitespaceSkipper::skip_whitespace(&long_ws), b"text");
}

#[test]
fn scanners_agree_with_a_plain_scan_on_many_inputs() {
    let samples: Vec<Vec<u8>> = vec![
        vec![],
        b"\0\0:\r\n".to_vec(),
        b"a\r".to_vec(),
        b"\r\r\n".to_vec(),
        vec![b'x'; 100],
        b"abc\0def:ghi\r\n".to_vec(),
    ];
    let finder = SimdDelimiterFinder::new(b':');
    let crlf = SimdCrlfFinder::new();
    for s in &samples {
        assert_eq!(finder.find_in(s), s.iter().position(|&b| b == b':'));
        assert_eq!(crlf.find_crlf(s), s.windows(2).position(|w| w == b"\r\n"));
    }
}

#[test]
fn crlf_at_the_very_end_and_lone_cr_at_end() {
    let crlf = SimdCrlfFinder::new();
    assert_eq!(crlf.find_crlf(b"abc\r"), None);
    assert_eq!(crlf.find_crlf(b"abc\r\n"), Some(3));
    assert_eq!(crlf.find_crlf(b""), None);
}
