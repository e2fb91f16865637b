use angelax::error::{Error, ErrorCode, ErrorContext};
use std::io;

#[test]
fn test_error_codes() {
    assert_eq!(Error::Timeout.code(), ErrorCode::RequestTimeout);
    assert_eq!(Error::RequestTooLarge.code(), ErrorCode::PayloadTooLarge);
    assert_eq!(Error::NotImplemented("test").code(), ErrorCode::NotImplemented);
}

#[test]
fn test_error_classification() {
    assert!(Error::InvalidHeader("test".to_string()).is_client_error());
    assert!(Error::Internal("test".to_string()).is_server_error());
    assert!(!Error::InvalidHeader("test".to_string()).is_server_error());
}

#[test]
fn test_retryable_errors() {
    assert!(Error::Custom { code: ErrorCode::ServiceUnavailable, message: "Service down".to_string() }
        .is_retryable());
    assert!(!Error::InvalidHeader("bad".to_string()).is_retryable());
}

#[test]
fn test_error_display() {
    let err = Error::ParseError("Invalid JSON".to_string());
    assert_eq!(err.to_string(), "Parse error: Invalid JSON");
    let err = Error::Custom { code: ErrorCode::BadRequest, message: "Missing header".to_string() };
    assert_eq!(err.to_string(), "Error 400: Missing header");
}

#[test]
fn numeric_codes() {
    assert_eq!(ErrorCode::FlowControlError.as_u16(), 603);
    assert_eq!(Error::TooManyStreams.code().as_u16(), 607);
    assert!(Error::TooManyStreams.is_retryable());
    assert!(!Error::TooManyStreams.is_client_error());
}

#[test]
fn test_error_context() {
    let result: std::result::Result<(), io::Error> = Err(io::Error::new(io::ErrorKind::NotFound, "File not found"));
    let with_context = result.context("Failed to open config file");
    assert!(with_context.is_err());
    let err = with_context.unwrap_err();
    assert!(err.to_string().contains("Failed to open config file"));
}

#[test]
fn test_io_error_conversion() {
    let io_err = io::Error::new(io::ErrorKind::BrokenPipe, "Pipe broken");
    let err: Error = io_err.into();
    match err {
        Error::Io(_) => {}
        _ => panic!("Expected Io variant"),
    }
    let _io_err: io::Error = err.into();
}

#[test]
fn other_errors_become_io_errors_with_their_text() {
    let e: io::Error = Error::Timeout.into();
    assert_eq!(e.kind(), io::ErrorKind::Other);
    assert_eq!(e.to_string(), "Request timeout");
}

#[test]
fn every_message() {
    assert_eq!(Error::InvalidProtocol.to_string(), "Invalid protocol");
    assert_eq!(Error::ConnectionClosed.to_string(), "Connection closed");
    assert_eq!(Error::TooManyStreams.to_string(), "Too many concurrent streams");
    assert_eq!(Error::NotImplemented("x").to_string(), "Not implemented: x");
    assert_eq!(Error::TlsError("t".to_string()).to_string(), "TLS error: t");
    let e: Error = io::Error::new(io::ErrorKind::Other, "boom").into();
    assert_eq!(e.to_string(), "I/O error: boom");
}
