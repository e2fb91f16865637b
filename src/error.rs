//! The library's error type and the numeric codes it maps to.
use vstd::prelude::*;
use crate::text::dec_digits;
use vstd::string::StringExecFns;

verus! {

#[verifier::external_type_specification]
#[verifier::external_body]
pub struct ExIoError(std::io::Error);

/// Numeric error codes: HTTP statuses, and 6xx for protocol, TLS,
/// flow-control and resource failures.
#[derive(Debug, Clone, Copy, PartialEq, Eq, Hash, Structural)]
pub enum ErrorCode {
    BadRequest,
    Unauthorized,
    Forbidden,
    NotFound,
    MethodNotAllowed,
    RequestTimeout,
    PayloadTooLarge,
    UriTooLong,
    UnsupportedMediaType,
    TooManyRequests,
    InternalServerError,
    NotImplemented,
    BadGateway,
    ServiceUnavailable,
    GatewayTimeout,
    HttpVersionNotSupported,
    ParseError,
    ProtocolError,
    TlsError,
    FlowControlError,
    StreamError,
    ConnectionError,
    ConfigurationError,
    ResourceExhausted,
}

pub open spec fn code_number(c: ErrorCode) -> u16 {
    match c {
        ErrorCode::BadRequest => 400,
        ErrorCode::Unauthorized => 401,
        ErrorCode::Forbidden => 403,
        ErrorCode::NotFound => 404,
        ErrorCode::MethodNotAllowed => 405,
        ErrorCode::RequestTimeout => 408,
        ErrorCode::PayloadTooLarge => 413,
        ErrorCode::UriTooLong => 414,
        ErrorCode::UnsupportedMediaType => 415,
        ErrorCode::TooManyRequests => 429,
        ErrorCode::InternalServerError => 500,
        ErrorCode::NotImplemented => 501,
        ErrorCode::BadGateway => 502,
        ErrorCode::ServiceUnavailable => 503,
        ErrorCode::GatewayTimeout => 504,
        ErrorCode::HttpVersionNotSupported => 505,
        ErrorCode::ParseError => 600,
        ErrorCode::ProtocolError => 601,
        ErrorCode::TlsError => 602,
        ErrorCode::FlowControlError => 603,
        ErrorCode::StreamError => 604,
        ErrorCode::ConnectionError => 605,
        ErrorCode::ConfigurationError => 606,
        ErrorCode::ResourceExhausted => 607,
    }
}

impl ErrorCode {
    /// The numeric value of the code.
    pub fn as_u16(&self) -> (r: u16)
        ensures
            r == code_number(*self),
    {
        match self {
            ErrorCode::BadRequest => 400,
            ErrorCode::Unauthorized => 401,
            ErrorCode::Forbidden => 403,
            ErrorCode::NotFound => 404,
            ErrorCode::MethodNotAllowed => 405,
            ErrorCode::RequestTimeout => 408,
            ErrorCode::PayloadTooLarge => 413,
            ErrorCode::UriTooLong => 414,
            ErrorCode::UnsupportedMediaType => 415,
            ErrorCode::TooManyRequests => 429,
            ErrorCode::InternalServerError => 500,
            ErrorCode::NotImplemented => 501,
            ErrorCode::BadGateway => 502,
            ErrorCode::ServiceUnavailable => 503,
            ErrorCode::GatewayTimeout => 504,
            ErrorCode::HttpVersionNotSupported => 505,
            ErrorCode::ParseError => 600,
            ErrorCode::ProtocolError => 601,
            ErrorCode::TlsError => 602,
            ErrorCode::FlowControlError => 603,
            ErrorCode::StreamError => 604,
            ErrorCode::ConnectionError => 605,
            ErrorCode::ConfigurationError => 606,
            ErrorCode::ResourceExhausted => 607,
        }
    }
}

/// Errors of the server core.
#[derive(Debug)]
pub enum Error {
    Io(std::io::Error),
    ParseError(String),
    InvalidProtocol,
    ConnectionClosed,
    TooManyStreams,
    FlowControlError,
    Timeout,
    RequestTooLarge,
    InvalidHeader(String),
    InvalidState(String),
    NotImplemented(&'static str),
    TlsError(String),
    ConfigError(String),
    ResourceExhausted(String),
    Internal(String),
    Custom { code: ErrorCode, message: String },
}

/// The code each error maps to.
pub open spec fn error_code_of(e: &Error) -> ErrorCode {
    match e {
        Error::ParseError(_) => ErrorCode::ParseError,
        Error::InvalidProtocol => ErrorCode::ProtocolError,
        Error::ConnectionClosed => ErrorCode::ConnectionError,
        Error::TooManyStreams => ErrorCode::ResourceExhausted,
        Error::FlowControlError => ErrorCode::FlowControlError,
        Error::Timeout => ErrorCode::RequestTimeout,
        Error::RequestTooLarge => ErrorCode::PayloadTooLarge,
        Error::InvalidHeader(_) => ErrorCode::BadRequest,
        Error::InvalidState(_) => ErrorCode::InternalServerError,
        Error::NotImplemented(_) => ErrorCode::NotImplemented,
        Error::TlsError(_) => ErrorCode::TlsError,
        Error::ConfigError(_) => ErrorCode::ConfigurationError,
        Error::ResourceExhausted(_) => ErrorCode::ResourceExhausted,
        Error::Internal(_) => ErrorCode::InternalServerError,
        Error::Custom { code, .. } => *code,
        Error::Io(_) => ErrorCode::InternalServerError,
    }
}

pub open spec fn is_retryable_code(c: ErrorCode) -> bool {
    c == ErrorCode::ServiceUnavailable || c == ErrorCode::GatewayTimeout || c
        == ErrorCode::TooManyRequests || c == ErrorCode::ResourceExhausted
}

/// Decimal rendering of a number as characters.
pub open spec fn dec_chars(n: nat) -> Seq<char> {
    dec_digits(n).map_values(|b: u8| b as char)
}

/// `a` followed by `b`.
fn join_strs(a: &str, b: &str) -> (r: String)
    ensures
        r@ == a@ + b@,
{
    let mut r = a.to_owned();
    r.append(b);
    r
}

/// Relies on `format!`: a `u16` is written in decimal without padding.
#[verifier::external_body]
fn u16_text(n: u16) -> (r: String)
    ensures
        r@ == dec_chars(n as nat),
{
    format!("{}", n)
}

/// Relies on `std::io::Error`'s `Display`, which renders the error's message.
#[verifier::external_body]
fn io_error_text(e: &std::io::Error) -> (r: String) {
    e.to_string()
}

impl Error {
    /// The code this error maps to.
    pub fn code(&self) -> (r: ErrorCode)
        ensures
            r == error_code_of(self),
    {
        match self {
            Error::ParseError(_) => ErrorCode::ParseError,
            Error::InvalidProtocol => ErrorCode::ProtocolError,
            Error::ConnectionClosed => ErrorCode::ConnectionError,
            Error::TooManyStreams => ErrorCode::ResourceExhausted,
            Error::FlowControlError => ErrorCode::FlowControlError,
            Error::Timeout => ErrorCode::RequestTimeout,
            Error::RequestTooLarge => ErrorCode::PayloadTooLarge,
            Error::InvalidHeader(_) => ErrorCode::BadRequest,
            Error::InvalidState(_) => ErrorCode::InternalServerError,
            Error::NotImplemented(_) => ErrorCode::NotImplemented,
            Error::TlsError(_) => ErrorCode::TlsError,
            Error::ConfigError(_) => ErrorCode::ConfigurationError,
            Error::ResourceExhausted(_) => ErrorCode::ResourceExhausted,
            Error::Internal(_) => ErrorCode::InternalServerError,
            Error::Custom { code, .. } => *code,
            Error::Io(_) => ErrorCode::InternalServerError,
        }
    }

    /// Service unavailable, gateway timeout, too many requests and resource
    /// exhaustion may succeed when tried again.
    pub fn is_retryable(&self) -> (r: bool)
        ensures
            r == is_retryable_code(error_code_of(self)),
    {
        let c = self.code();
        match c {
            ErrorCode::ServiceUnavailable | ErrorCode::GatewayTimeout | ErrorCode::TooManyRequests
            | ErrorCode::ResourceExhausted => true,
            _ => false,
        }
    }

    /// A 4xx code.
    pub fn is_client_error(&self) -> (r: bool)
        ensures
            r == (400 <= code_number(error_code_of(self)) < 500),
    {
        let code = self.code().as_u16();
        code >= 400 && code < 500
    }

    /// A 5xx code.
    pub fn is_server_error(&self) -> (r: bool)
        ensures
            r == (500 <= code_number(error_code_of(self)) < 600),
    {
        let code = self.code().as_u16();
        code >= 500 && code < 600
    }

    /// A human-readable description: a fixed phrase for each kind, followed
    /// by the carried message where there is one.
    pub fn to_string(&self) -> (r: String)
        ensures
            match self {
                Error::Io(_) => r@.len() >= "I/O error: "@.len() && r@.take("I/O error: "@.len() as int)
                    == "I/O error: "@,
                Error::ParseError(m) => r@ == "Parse error: "@ + m@,
                Error::InvalidProtocol => r@ == "Invalid protocol"@,
                Error::ConnectionClosed => r@ == "Connection closed"@,
                Error::TooManyStreams => r@ == "Too many concurrent streams"@,
                Error::FlowControlError => r@ == "Flow control error"@,
                Error::Timeout => r@ == "Request timeout"@,
                Error::RequestTooLarge => r@ == "Request too large"@,
                Error::InvalidHeader(m) => r@ == "Invalid header: "@ + m@,
                Error::InvalidState(m) => r@ == "Invalid state: "@ + m@,
                Error::NotImplemented(f) => r@ == "Not implemented: "@ + f@,
                Error::TlsError(m) => r@ == "TLS error: "@ + m@,
                Error::ConfigError(m) => r@ == "Configuration error: "@ + m@,
                Error::ResourceExhausted(m) => r@ == "Resource exhausted: "@ + m@,
                Error::Internal(m) => r@ == "Internal error: "@ + m@,
                Error::Custom { code, message } => r@ == "Error "@ + dec_chars(
                    code_number(*code) as nat,
                ) + ": "@ + message@,
            },
    {
        match self {
            Error::Io(e) => {
                let r = join_strs("I/O error: ", io_error_text(e).as_str());
                assert(r@.take("I/O error: "@.len() as int) =~= "I/O error: "@);
                r
            },
            Error::ParseError(m) => join_strs("Parse error: ", m.as_str()),
            Error::InvalidProtocol => "Invalid protocol".to_owned(),
            Error::ConnectionClosed => "Connection closed".to_owned(),
            Error::TooManyStreams => "Too many concurrent streams".to_owned(),
            Error::FlowControlError => "Flow control error".to_owned(),
            Error::Timeout => "Request timeout".to_owned(),
            Error::RequestTooLarge => "Request too large".to_owned(),
            Error::InvalidHeader(m) => join_strs("Invalid header: ", m.as_str()),
            Error::InvalidState(m) => join_strs("Invalid state: ", m.as_str()),
            Error::NotImplemented(f) => join_strs("Not implemented: ", f),
            Error::TlsError(m) => join_strs("TLS error: ", m.as_str()),
            Error::ConfigError(m) => join_strs("Configuration error: ", m.as_str()),
            Error::ResourceExhausted(m) => join_strs("Resource exhausted: ", m.as_str()),
            Error::Internal(m) => join_strs("Internal error: ", m.as_str()),
            Error::Custom { code, message } => {
                let num = u16_text(code.as_u16());
                let head = join_strs("Error ", num.as_str());
                let head2 = join_strs(head.as_str(), ": ");
                join_strs(head2.as_str(), message.as_str())
            },
        }
    }
}

impl From<std::io::Error> for Error {
    fn from(err: std::io::Error) -> (r: Error)
        ensures
            r is Io,
    {
        Error::Io(err)
    }
}

impl vstd::std_specs::convert::FromSpecImpl<std::io::Error> for Error {
    open spec fn obeys_from_spec() -> bool {
        false
    }

    open spec fn from_spec(v: std::io::Error) -> Error {
        Error::Io(v)
    }
}

/// Relies on `std::io::Error::new`, which wraps a message under a kind.
#[verifier::external_body]
fn io_error_other(msg: String) -> (r: std::io::Error) {
    std::io::Error::new(std::io::ErrorKind::Other, msg)
}

impl From<Error> for std::io::Error {
    /// An I/O error is handed back as it was; any other error becomes an
    /// I/O error of kind `Other` carrying its description.
    fn from(err: Error) -> (r: std::io::Error) {
        match err {
            Error::Io(e) => e,
            other => io_error_other(other.to_string()),
        }
    }
}

impl vstd::std_specs::convert::FromSpecImpl<Error> for std::io::Error {
    open spec fn obeys_from_spec() -> bool {
        false
    }

    open spec fn from_spec(v: Error) -> std::io::Error {
        vstd::pervasive::arbitrary()
    }
}

/// Adds a message in front of an error.
pub trait ErrorContext<T> {
    /// Turns an error into `Error::Internal` whose text is `msg`, `": "`
    /// and the error's own description.
    fn context(self, msg: &str) -> Result<T, Error>;
}

impl<T> ErrorContext<T> for Result<T, Error> {
    fn context(self, msg: &str) -> (r: Result<T, Error>) {
        match self {
            Ok(v) => Ok(v),
            Err(e) => {
                let head = join_strs(msg, ": ");
                let text = join_strs(head.as_str(), e.to_string().as_str());
                Err(Error::Internal(text))
            },
        }
    }
}

impl<T> ErrorContext<T> for Result<T, std::io::Error> {
    fn context(self, msg: &str) -> (r: Result<T, Error>) {
        match self {
            Ok(v) => Ok(v),
            Err(e) => {
                let base = Error::Io(e);
                let head = join_strs(msg, ": ");
                let text = join_strs(head.as_str(), base.to_string().as_str());
                Err(Error::Internal(text))
            },
        }
    }
}

} // verus!
