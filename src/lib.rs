//! Protocol core of an HTTP server: byte scanners, HTTP/1.1 request parsing,
//! HPACK decoding, HTTP/2 framing, stream and flow-control bookkeeping,
//! fixed-capacity pools and the per-connection state machine.

pub mod atomic;
pub mod connection;
pub mod error;
pub mod scan;
pub mod text;
pub mod http3;
pub mod tls;
pub mod utils;
pub mod huffman;
pub mod hpack;
pub mod http2;
pub mod pool;
pub mod server;
pub mod http1;
