//! HTTP/3 configuration and frame shapes. HTTP/3 runs over QUIC, which this
//! core does not carry: its parser and QPACK report that they are not
//! implemented.
use vstd::prelude::*;
use crate::error::Error;

verus! {

/// HTTP/3 transport parameters.
#[derive(Debug, Clone, Copy, PartialEq, Eq, Structural)]
pub struct Http3Config {
    pub max_bi_streams: u64,
    pub max_uni_streams: u64,
    pub max_stream_data: u64,
    pub max_data: u64,
    pub idle_timeout: u64,
    pub max_ack_delay: u64,
}

impl Http3Config {
    /// 100 streams each way, 1 MB per stream, 10 MB in all, a 30 s idle
    /// timeout and a 25 ms acknowledgement delay.
    pub fn default() -> (r: Self)
        ensures
            r == (Http3Config {
                max_bi_streams: 100,
                max_uni_streams: 100,
                max_stream_data: 1000000,
                max_data: 10000000,
                idle_timeout: 30000,
                max_ack_delay: 25,
            }),
    {
        Http3Config {
            max_bi_streams: 100,
            max_uni_streams: 100,
            max_stream_data: 1000000,
            max_data: 10000000,
            idle_timeout: 30000,
            max_ack_delay: 25,
        }
    }
}

/// The HTTP/3 frame parser.
pub struct Http3Parser {
    pub config: Http3Config,
}

/// HTTP/3 frames.
#[derive(Debug, Clone)]
pub enum Http3Frame {
    Data { stream_id: u64, data: Vec<u8> },
    Headers { stream_id: u64, headers: Vec<(Vec<u8>, Vec<u8>)> },
    CancelPush { push_id: u64 },
    Settings { settings: Vec<(u64, u64)> },
    PushPromise { push_id: u64, headers: Vec<(Vec<u8>, Vec<u8>)> },
    GoAway { id: u64 },
    MaxPushId { push_id: u64 },
}

impl Http3Parser {
    pub fn new(config: Http3Config) -> (r: Self)
        ensures
            r.config == config,
    {
        Http3Parser { config }
    }

    /// Always fails: HTTP/3 frames are not parsed by this core.
    pub fn parse_frame(&mut self, data: &[u8]) -> (r: Result<Http3Frame, Error>)
        ensures
            r is Err && r->Err_0 is NotImplemented,
    {
        Err(Error::NotImplemented("HTTP/3 parsing not yet implemented"))
    }
}

/// A QUIC stream's buffers.
pub struct QuicStream {
    pub stream_id: u64,
    pub is_bidirectional: bool,
    pub send_buffer: Vec<u8>,
    pub recv_buffer: Vec<u8>,
}

/// Transport counters.
#[derive(Debug, Clone, Copy, PartialEq, Eq, Structural)]
pub struct TransportStats {
    pub packets_sent: u64,
    pub packets_received: u64,
    pub bytes_sent: u64,
    pub bytes_received: u64,
    pub streams_opened: u64,
    pub streams_closed: u64,
    pub rtt: u64,
}

/// QPACK state: its two control streams and its table.
pub struct Qpack {
    pub encoder_stream_id: u64,
    pub decoder_stream_id: u64,
    pub dynamic_table: Vec<(Vec<u8>, Vec<u8>)>,
    pub max_table_capacity: usize,
}

impl Qpack {
    /// Encoder stream 0, decoder stream 2, an empty table.
    pub fn new(max_table_capacity: usize) -> (r: Self)
        ensures
            r.encoder_stream_id == 0,
            r.decoder_stream_id == 2,
            r.dynamic_table@.len() == 0,
            r.max_table_capacity == max_table_capacity,
    {
        Qpack { encoder_stream_id: 0, decoder_stream_id: 2, dynamic_table: Vec::new(), max_table_capacity }
    }

    /// Encodes nothing: QPACK encoding is not implemented.
    pub fn encode(&mut self, headers: &[(Vec<u8>, Vec<u8>)]) -> (r: Vec<u8>)
        ensures
            r@.len() == 0,
    {
        Vec::new()
    }

    /// Always fails: QPACK decoding is not implemented.
    pub fn decode(&mut self, encoded: &[u8]) -> (r: Result<Vec<(Vec<u8>, Vec<u8>)>, Error>)
        ensures
            r is Err && r->Err_0 is NotImplemented,
    {
        Err(Error::NotImplemented("QPACK decoding not yet implemented"))
    }
}

/// HTTP/3 events.
#[derive(Debug)]
pub enum Http3Event {
    Request { stream_id: u64, headers: Vec<(Vec<u8>, Vec<u8>)>, has_body: bool },
    Data { stream_id: u64, data: Vec<u8>, fin: bool },
    StreamClosed { stream_id: u64 },
    ConnectionClosed,
}

} // verus!
