use angelax::connection::{Connection, ConnectionAction, ConnectionConfig, HttpRequest, StateKind};
use angelax::http1::Method;

fn settings_frame(pairs: &[(u16, u32)]) -> Vec<u8> {
    let mut v = vec![0, 0, (pairs.len() * 6) as u8, 4, 0, 0, 0, 0, 0];
    for (id, val) in pairs {
        v.extend_from_slice(&id.to_be_bytes());
        v.extend_from_slice(&val.to_be_bytes());
    }
    v
}

fn preface() -> Vec<u8> {
    b"PRI * HTTP/2.0\r\n\r\nSM\r\n\r\n".to_vec()
}

#[test]
fn test_protocol_detection_http1() {
    let mut conn = Connection::new(ConnectionConfig::default(), 0);
    conn.feed(b"GET / HTTP/1.1\r\nHost: example.com\r\n\r\n", 0);
    assert!(matches!(conn.process(), ConnectionAction::Continue));
    match conn.process() {
        ConnectionAction::Request(HttpRequest::Http1(req)) => {
            assert_eq!(req.method, Method::Get);
            assert_eq!(req.uri, b"/");
        }
        _ => panic!("Expected HTTP/1.1 request"),
    }
}

#[test]
fn test_connection_metrics() {
    let conn = Connection::new(ConnectionConfig::default(), 0);
    let metrics = conn.metrics();
    assert!(metrics.protocol.is_none());
    assert_eq!(metrics.bytes_read, 0);
    assert_eq!(metrics.bytes_written, 0);
}

#[test]
fn test_timeout_detection() {
    let mut config = ConnectionConfig::default();
    config.read_timeout_ms = 10;
    let conn = Connection::new(config, 1000);
    assert!(!conn.is_timed_out(1005));
    assert!(conn.is_timed_out(1020));
}

#[test]
fn preface_then_settings() {
    let mut conn = Connection::new(ConnectionConfig::default(), 0);
    let mut input = preface();
    input.extend(settings_frame(&[(3, 100), (4, 65536)]));
    conn.feed(&input, 0);
    assert!(matches!(conn.process(), ConnectionAction::Continue));
    assert_eq!(conn.state_kind(), StateKind::Http2);
    assert!(matches!(conn.process(), ConnectionAction::Continue));
    let s = conn.peer_settings().unwrap();
    assert_eq!(s.max_concurrent_streams, Some(100));
    assert_eq!(s.initial_window_size, 65536);
    assert_eq!(conn.take_output(), vec![0, 0, 0, 4, 1, 0, 0, 0, 0]);
    assert!(matches!(conn.process(), ConnectionAction::NeedMore));
}

#[test]
fn window_update_overflow_closes_with_goaway() {
    let mut conn = Connection::new(ConnectionConfig::default(), 0);
    let mut input = preface();
    input.extend(settings_frame(&[(4, 65535)]));
    input.extend_from_slice(&[0, 0, 4, 8, 0, 0, 0, 0, 0, 0x7f, 0xff, 0xff, 0xff]);
    conn.feed(&input, 0);
    assert!(matches!(conn.process(), ConnectionAction::Continue));
    assert!(matches!(conn.process(), ConnectionAction::Continue));
    conn.take_output();
    assert!(matches!(conn.process(), ConnectionAction::Close));
    assert_eq!(conn.state_kind(), StateKind::Closing);
    assert_eq!(conn.take_output(), vec![0, 0, 8, 7, 0, 0, 0, 0, 0, 0, 0, 0, 0, 0, 0, 0, 3]);
    assert!(matches!(conn.process(), ConnectionAction::Close));
}

#[test]
fn headers_across_continuation_and_data() {
    let mut conn = Connection::new(ConnectionConfig::default(), 0);
    let mut input = preface();
    input.extend_from_slice(&[0, 0, 1, 1, 0, 0, 0, 0, 1, 0x82]);
    input.extend_from_slice(&[0, 0, 1, 9, 4, 0, 0, 0, 1, 0x84]);
    input.extend_from_slice(&[0, 0, 2, 0, 1, 0, 0, 0, 1, b'h', b'i']);
    conn.feed(&input, 0);
    assert!(matches!(conn.process(), ConnectionAction::Continue));
    assert!(matches!(conn.process(), ConnectionAction::Continue));
    match conn.process() {
        ConnectionAction::Request(HttpRequest::Http2 { stream_id, headers, .. }) => {
            assert_eq!(stream_id, 1);
            assert_eq!(headers, vec![(b":method".to_vec(), b"GET".to_vec()), (b":path".to_vec(), b"/".to_vec())]);
        }
        _ => panic!("expected headers"),
    }
    match conn.process() {
        ConnectionAction::Data { stream_id, data, end_stream } => {
            assert_eq!(stream_id, 1);
            assert_eq!(data, b"hi".to_vec());
            assert!(end_stream);
        }
        _ => panic!("expected data"),
    }
}

#[test]
fn bad_http1_request_gets_400_and_closes() {
    let mut conn = Connection::new(ConnectionConfig::default(), 0);
    conn.feed(b"GET / HTTP/7.7\r\n\r\n", 0);
    assert!(matches!(conn.process(), ConnectionAction::Continue));
    assert!(matches!(conn.process(), ConnectionAction::Close));
    assert_eq!(conn.take_output(), b"HTTP/1.1 400 Bad Request\r\nConnection: close\r\n\r\n".to_vec());
}

#[test]
fn garbage_closes_after_24_bytes() {
    let mut conn = Connection::new(ConnectionConfig::default(), 0);
    conn.feed(b"XXXXXXXXXXXX", 0);
    assert!(matches!(conn.process(), ConnectionAction::NeedMore));
    conn.feed(b"XXXXXXXXXXXXX", 0);
    assert!(matches!(conn.process(), ConnectionAction::Close));
}

#[test]
fn request_split_into_single_bytes() {
    let mut conn = Connection::new(ConnectionConfig::default(), 0);
    let req = b"POST /api HTTP/1.1\r\nContent-Length: 5\r\n\r\nhello";
    let mut got = None;
    for &b in req.iter() {
        conn.feed(&[b], 0);
        loop {
            match conn.process() {
                ConnectionAction::Continue => continue,
                ConnectionAction::NeedMore => break,
                ConnectionAction::Request(HttpRequest::Http1(r)) => {
                    got = Some(r);
                    break;
                }
                _ => panic!("unexpected action"),
            }
        }
    }
    let r = got.unwrap();
    assert_eq!(r.body, Some(b"hello".to_vec()));
    assert!(conn.should_keep_alive());
}

fn literal_header_block(value_len: usize) -> Vec<u8> {
    // Literal without indexing, new name "x", value of `value_len` bytes.
    let mut b = vec![0x00, 0x01, b'x'];
    let mut v = value_len as u64;
    if v < 127 {
        b.push(v as u8);
    } else {
        b.push(127);
        v -= 127;
        while v >= 128 {
            b.push((v % 128) as u8 | 0x80);
            v /= 128;
        }
        b.push(v as u8);
    }
    b.extend(std::iter::repeat(b'a').take(value_len));
    b
}

fn headers_frame(block: &[u8]) -> Vec<u8> {
    let n = block.len();
    let mut f = vec![(n >> 16) as u8, (n >> 8) as u8, n as u8, 1, 0x04 | 0x01, 0, 0, 0, 1];
    f.extend_from_slice(block);
    f
}

#[test]
fn h2_header_block_at_limit_and_one_over() {
    let mut config = ConnectionConfig::default();
    config.max_header_size = 8192;
    let at = literal_header_block(8192 - 6);
    assert_eq!(at.len(), 8192);
    let mut conn = Connection::new(config, 0);
    let mut input = preface();
    input.extend(headers_frame(&at));
    conn.feed(&input, 0);
    assert!(matches!(conn.process(), ConnectionAction::Continue));
    assert!(matches!(conn.process(), ConnectionAction::Request(_)));

    let over = literal_header_block(8192 - 5);
    assert_eq!(over.len(), 8193);
    let mut conn = Connection::new(config, 0);
    let mut input = preface();
    input.extend(headers_frame(&over));
    conn.feed(&input, 0);
    assert!(matches!(conn.process(), ConnectionAction::Continue));
    assert!(matches!(conn.process(), ConnectionAction::Close));
    let out = conn.take_output();
    assert_eq!(&out[..4], &[0, 0, 8, 7]);
    assert_eq!(&out[13..], &[0, 0, 0, 0x0b]);
}

#[test]
fn alpn_http1_skips_detection() {
    let conn = Connection::with_alpn(ConnectionConfig::default(), 0, Some(b"http/1.1"));
    assert_eq!(conn.state_kind(), StateKind::Http1);
    let conn = Connection::with_alpn(ConnectionConfig::default(), 0, Some(b"h2"));
    assert_eq!(conn.state_kind(), StateKind::Detecting);
}

#[test]
fn lower_stream_id_for_new_headers_is_a_protocol_error() {
    let mut conn = Connection::new(ConnectionConfig::default(), 0);
    let mut input = preface();
    input.extend_from_slice(&[0, 0, 1, 1, 4, 0, 0, 0, 5, 0x82]);
    input.extend_from_slice(&[0, 0, 1, 1, 5, 0, 0, 0, 5, 0x82]);
    input.extend_from_slice(&[0, 0, 1, 1, 4, 0, 0, 0, 3, 0x82]);
    conn.feed(&input, 0);
    assert!(matches!(conn.process(), ConnectionAction::Continue));
    assert!(matches!(conn.process(), ConnectionAction::Request(_)));
    assert!(matches!(conn.process(), ConnectionAction::Request(_)));
    assert!(matches!(conn.process(), ConnectionAction::Close));
    let out = conn.take_output();
    assert_eq!(out, vec![0, 0, 8, 7, 0, 0, 0, 0, 0, 0, 0, 0, 5, 0, 0, 0, 1]);
}

#[test]
fn data_counts_against_receive_windows_and_credit_returns() {
    let mut conn = Connection::new(ConnectionConfig::default(), 0);
    let mut input = preface();
    input.extend_from_slice(&[0, 0, 1, 1, 4, 0, 0, 0, 1, 0x82]);
    input.extend_from_slice(&[0, 0, 3, 0, 0, 0, 0, 0, 1, b'a', b'b', b'c']);
    conn.feed(&input, 0);
    assert!(matches!(conn.process(), ConnectionAction::Continue));
    assert!(matches!(conn.process(), ConnectionAction::Request(_)));
    match conn.process() {
        ConnectionAction::Data { stream_id, data, end_stream } => {
            assert_eq!((stream_id, data, end_stream), (1, b"abc".to_vec(), false));
        }
        _ => panic!("expected data"),
    }
    assert!(conn.grant_receive_window(1, 3));
    assert_eq!(conn.take_output(), vec![0, 0, 4, 8, 0, 0, 0, 0, 0, 0, 0, 0, 3, 0, 0, 4, 8, 0, 0, 0, 0, 1, 0, 0, 0, 3]);
    assert!(!conn.grant_receive_window(1, 2147483647));
    assert!(!conn.grant_receive_window(0, 3));
}

#[test]
fn data_beyond_the_receive_window_is_a_flow_control_error() {
    let mut conn = Connection::new(ConnectionConfig::default(), 0);
    let mut input = preface();
    input.extend_from_slice(&[0, 0, 1, 1, 4, 0, 0, 0, 1, 0x82]);
    for _ in 0..5 {
        input.extend_from_slice(&[0, 0x40, 0x00, 0, 0, 0, 0, 0, 1]);
        input.extend(std::iter::repeat(0u8).take(16384));
    }
    conn.feed(&input, 0);
    assert!(matches!(conn.process(), ConnectionAction::Continue));
    assert!(matches!(conn.process(), ConnectionAction::Request(_)));
    for _ in 0..3 {
        assert!(matches!(conn.process(), ConnectionAction::Data { .. }));
    }
    // 3 * 16384 + 16384 = 65536 > 65535.
    assert!(matches!(conn.process(), ConnectionAction::Close));
    assert_eq!(conn.take_output(), vec![0, 0, 8, 7, 0, 0, 0, 0, 0, 0, 0, 0, 1, 0, 0, 0, 3]);
}

#[test]
fn window_update_within_range_continues_silently() {
    let mut conn = Connection::new(ConnectionConfig::default(), 0);
    let mut input = preface();
    input.extend_from_slice(&[0, 0, 4, 8, 0, 0, 0, 0, 0, 0, 0, 0x10, 0]);
    input.extend_from_slice(&[0, 0, 4, 8, 0, 0, 0, 0, 7, 0x7f, 0xff, 0xff, 0xff]);
    conn.feed(&input, 0);
    assert!(matches!(conn.process(), ConnectionAction::Continue));
    assert!(matches!(conn.process(), ConnectionAction::Continue));
    assert!(conn.take_output().is_empty());
    assert!(matches!(conn.process(), ConnectionAction::Continue));
    assert_eq!(conn.take_output(), vec![0, 0, 4, 3, 0, 0, 0, 0, 7, 0, 0, 0, 3]);
}

#[test]
fn unknown_frame_types_are_skipped_but_not_when_oversized() {
    let mut conn = Connection::new(ConnectionConfig::default(), 0);
    let mut input = preface();
    input.extend_from_slice(&[0, 0, 2, 0xee, 0, 0, 0, 0, 0, 1, 2]);
    input.extend_from_slice(&[0, 0, 8, 6, 0, 0, 0, 0, 0, 1, 2, 3, 4, 5, 6, 7, 8]);
    conn.feed(&input, 0);
    assert!(matches!(conn.process(), ConnectionAction::Continue));
    assert!(matches!(conn.process(), ConnectionAction::Continue));
    assert!(matches!(conn.process(), ConnectionAction::Continue));
    assert_eq!(conn.take_output(), vec![0, 0, 8, 6, 1, 0, 0, 0, 0, 1, 2, 3, 4, 5, 6, 7, 8]);

    let mut conn = Connection::new(ConnectionConfig::default(), 0);
    let mut input = preface();
    input.extend_from_slice(&[0, 0x40, 0x01, 0xee, 0, 0, 0, 0, 0]);
    conn.feed(&input, 0);
    assert!(matches!(conn.process(), ConnectionAction::Continue));
    assert!(matches!(conn.process(), ConnectionAction::Close));
    assert_eq!(conn.take_output(), vec![0, 0, 8, 7, 0, 0, 0, 0, 0, 0, 0, 0, 0, 0, 0, 0, 6]);
}
