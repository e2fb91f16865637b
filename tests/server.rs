use angelax::server::{detect_protocol, FlowController, ParserMetrics, Protocol, StreamManager, StreamState};

#[test]
fn test_protocol_detection() {
    let http1_request = b"GET / HTTP/1.1\r\n";
    let detection = detect_protocol(http1_request).unwrap();
    assert_eq!(detection.protocol, Protocol::Http1);
    let http2_preface = b"PRI * HTTP/2.0\r\n\r\nSM\r\n\r\n";
    let detection = detect_protocol(http2_preface).unwrap();
    assert_eq!(detection.protocol, Protocol::Http2);
    assert!(detect_protocol(b"INVALID").is_none());
}

#[test]
fn detection_reports_preface_length() {
    let d = detect_protocol(b"PRI * HTTP/2.0\r\n\r\nSM\r\n\r\nrest").unwrap();
    assert_eq!(d.consumed, 24);
    let d = detect_protocol(b"OPTIONS * HTTP/1.1\r\n").unwrap();
    assert_eq!(d.protocol, Protocol::Http1);
    assert_eq!(d.consumed, 0);
    assert!(detect_protocol(b"PRI * HTTP/2.0\r\n").is_none());
}

#[test]
fn test_stream_manager() {
    let mut manager = StreamManager::new(Some(3));
    let stream1 = manager.create_stream().unwrap();
    let stream2 = manager.create_stream().unwrap();
    let stream3 = manager.create_stream().unwrap();
    assert_eq!(stream1, 1);
    assert_eq!(stream2, 3);
    assert_eq!(stream3, 5);
    assert!(manager.create_stream().is_err());
    manager.update_stream(stream1, StreamState::Closed);
    manager.cleanup_closed_streams();
    assert!(manager.create_stream().is_ok());
}

#[test]
fn cleanup_removes_only_closed_streams() {
    let mut manager = StreamManager::new(None);
    let a = manager.create_stream().unwrap();
    let b = manager.create_stream().unwrap();
    manager.update_stream(a, StreamState::Closed);
    manager.update_stream(b, StreamState::HalfClosedRemote);
    manager.cleanup_closed_streams();
    assert_eq!(manager.get_stream(a), None);
    assert_eq!(manager.get_stream(b), Some(StreamState::HalfClosedRemote));
    assert_eq!(manager.live_streams(), 1);
}

#[test]
fn test_flow_controller() {
    let mut flow = FlowController::new(65535);
    assert!(flow.can_send(1, 1000));
    assert!(flow.can_send(1, 65535));
    assert!(!flow.can_send(1, 65536));
    flow.consume_window(1, 1000).unwrap();
    assert!(flow.can_send(1, 64535));
    assert!(!flow.can_send(1, 64536));
    flow.update_stream_window(1, 1000).unwrap();
    assert!(!flow.can_send(1, 65535));
    flow.update_connection_window(1000).unwrap();
    assert!(flow.can_send(1, 65535));
}

#[test]
fn connection_window_overflow_is_rejected() {
    let mut flow = FlowController::new(65535);
    let r = flow.update_connection_window(2147483647);
    assert!(matches!(r, Err(angelax::error::Error::FlowControlError)));
    assert_eq!(flow.connection_window(), 65535);
    assert!(flow.update_connection_window(2147483647 - 65535).is_ok());
    assert_eq!(flow.connection_window(), 2147483647);
}

#[test]
fn sending_beyond_a_window_is_rejected_before_any_change() {
    let mut flow = FlowController::new(100);
    assert!(flow.consume_window(7, 101).is_err());
    assert_eq!(flow.stream_window(7), 100);
    assert!(flow.consume_window(7, 100).is_ok());
    assert_eq!(flow.stream_window(7), 0);
    assert_eq!(flow.connection_window(), 0);
    assert!(flow.update_stream_window(7, -1).is_err());
}

#[test]
fn initial_window_change_moves_every_stream() {
    let mut flow = FlowController::new(65535);
    flow.consume_window(1, 1000).unwrap();
    flow.update_initial_window(70000).unwrap();
    assert_eq!(flow.stream_window(1), 64535 + 70000 - 65535);
    assert_eq!(flow.stream_window(3), 70000);
    assert!(flow.update_initial_window(2147483648).is_err());
    flow.update_stream_window(3, 2147483647 - 70000).unwrap();
    assert!(flow.update_initial_window(70001).is_err());
    assert_eq!(flow.stream_window(1), 69000);
}

#[test]
fn test_parser_metrics() {
    let mut metrics = ParserMetrics::default();
    metrics.record_parse(100, 1000, true);
    assert_eq!(metrics.requests_parsed, 1);
    assert_eq!(metrics.bytes_processed, 100);
    assert_eq!(metrics.average_parse_time_ns, 1000);
    metrics.record_parse(200, 2000, true);
    assert_eq!(metrics.requests_parsed, 2);
    assert_eq!(metrics.bytes_processed, 300);
    assert_eq!(metrics.average_parse_time_ns, 1500);
    metrics.record_parse(50, 0, false);
    assert_eq!(metrics.parse_errors, 1);
    assert_eq!(metrics.bytes_processed, 350);
}

#[test]
fn created_streams_skip_ids_in_use() {
    let mut manager = StreamManager::new(None);
    manager.update_stream(1, StreamState::Open);
    manager.update_stream(3, StreamState::Closed);
    assert_eq!(manager.create_stream().unwrap(), 5);
    assert_eq!(manager.create_stream().unwrap(), 7);
}
