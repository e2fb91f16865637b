//! The per-connection state machine: protocol detection, then HTTP/1.1
//! requests or HTTP/2 frames. The caller reads from the transport, hands
//! the bytes over, calls `process`, and writes out what it returns in
//! `take_output`; time is passed in as milliseconds.
use vstd::prelude::*;
use crate::http1::{
    Http1ParseError, Http1Parser, Request, append_bytes, headers_view, keep_alive_of, lemma_request_within_input,
    request_of, should_keep_alive,
};
use crate::http2::{
    ErrorCode, FrameHeader, FrameType, Http2FrameBuilder, Http2ParseError, Http2Parser, apply_settings_from,
    be32, default_settings, error_code_value, frame_header_of, header_bytes, header_fields, headers_fragment,
    settings_list,
};
use crate::hpack::{block_of, headers_seq};
use crate::server::{
    sat_add,
    FlowController, MAX_WINDOW, Protocol, StreamManager, StreamState, detect_protocol, detection_of,
};

verus! {

/// Timeouts (milliseconds) and size limits of a connection.
#[derive(Debug, Clone, Copy, PartialEq, Eq, Structural)]
pub struct ConnectionConfig {
    pub read_timeout_ms: u64,
    pub write_timeout_ms: u64,
    pub keep_alive_timeout_ms: u64,
    pub max_request_size: usize,
    pub max_header_size: usize,
    pub tcp_nodelay: bool,
}

impl ConnectionConfig {
    /// 30 s read and write timeouts, 120 s keep-alive, 10 MiB requests and
    /// 8 KiB header blocks.
    pub fn default() -> (r: Self)
        ensures
            r == (ConnectionConfig {
                read_timeout_ms: 30000,
                write_timeout_ms: 30000,
                keep_alive_timeout_ms: 120000,
                max_request_size: 10485760,
                max_header_size: 8192,
                tcp_nodelay: true,
            }),
    {
        ConnectionConfig {
            read_timeout_ms: 30000,
            write_timeout_ms: 30000,
            keep_alive_timeout_ms: 120000,
            max_request_size: 10485760,
            max_header_size: 8192,
            tcp_nodelay: true,
        }
    }
}

/// HTTP/1.1 connection state.
pub struct Http1State {
    pub parser: Http1Parser,
    pub keep_alive: bool,
    pub requests_served: u64,
    pub pipeline_depth: usize,
}

/// HTTP/2 connection state.
pub struct Http2State {
    pub parser: Http2Parser,
    pub streams: StreamManager,
    pub flow: FlowController,
    /// The windows the peer's DATA is counted against.
    pub recv: FlowController,
    pub last_stream_id: u32,
    /// A header block awaiting CONTINUATION frames: its stream, the
    /// fragments so far and whether the stream ends with it.
    pub pending_headers: Option<(u32, Vec<u8>, bool)>,
}

/// Where a connection stands.
pub enum ConnectionState {
    Detecting,
    Http1(Http1State),
    Http2(Http2State),
    Closing,
}

/// A request from either protocol.
pub enum HttpRequest {
    Http1(Request),
    Http2 { stream_id: u32, headers: Vec<(Vec<u8>, Vec<u8>)>, body: Option<Vec<u8>> },
}

/// What `process` produced.
pub enum ConnectionAction {
    /// Progress was made: call again.
    Continue,
    /// The buffered bytes are used up: wait for more input.
    NeedMore,
    /// A complete request.
    Request(HttpRequest),
    /// A chunk of HTTP/2 DATA.
    Data { stream_id: u32, data: Vec<u8>, end_stream: bool },
    /// The connection is done: write out what is pending and close.
    Close,
}

/// Connection counters.
#[derive(Debug, Clone, Copy, PartialEq, Eq, Structural)]
pub struct ConnectionMetrics {
    pub protocol: Option<Protocol>,
    pub bytes_read: u64,
    pub bytes_written: u64,
    pub requests_served: u64,
}

/// `HTTP/1.1 400 Bad Request\r\nConnection: close\r\n\r\n`.
pub open spec fn bad_request_response() -> Seq<u8> {
    seq![72u8, 84u8, 84u8, 80u8, 47u8, 49u8, 46u8, 49u8, 32u8, 52u8, 48u8, 48u8, 32u8, 66u8, 97u8, 100u8, 32u8, 82u8, 101u8, 113u8, 117u8, 101u8, 115u8, 116u8, 13u8, 10u8, 67u8, 111u8, 110u8, 110u8, 101u8, 99u8, 116u8, 105u8, 111u8, 110u8, 58u8, 32u8, 99u8, 108u8, 111u8, 115u8, 101u8, 13u8, 10u8, 13u8, 10u8]
}

/// `HTTP/1.1 413 Payload Too Large\r\nConnection: close\r\n\r\n`.
pub open spec fn too_large_response() -> Seq<u8> {
    seq![72u8, 84u8, 84u8, 80u8, 47u8, 49u8, 46u8, 49u8, 32u8, 52u8, 49u8, 51u8, 32u8, 80u8, 97u8, 121u8, 108u8, 111u8, 97u8, 100u8, 32u8, 84u8, 111u8, 111u8, 32u8, 76u8, 97u8, 114u8, 103u8, 101u8, 13u8, 10u8, 67u8, 111u8, 110u8, 110u8, 101u8, 99u8, 116u8, 105u8, 111u8, 110u8, 58u8, 32u8, 99u8, 108u8, 111u8, 115u8, 101u8, 13u8, 10u8, 13u8, 10u8]
}

/// A big-endian 32-bit value as four bytes.
pub open spec fn be32_bytes(v: u32) -> Seq<u8> {
    seq![((v / 16777216) % 256) as u8, ((v / 65536) % 256) as u8, ((v / 256) % 256) as u8, (v % 256) as u8]
}

/// A GOAWAY frame naming the last processed stream and an error code.
pub open spec fn goaway_frame(last_stream_id: u32, code: ErrorCode) -> Seq<u8> {
    header_bytes(7, 0, 0, 8) + be32_bytes(last_stream_id % 2147483648) + be32_bytes(error_code_value(code))
}

/// An RST_STREAM frame for a stream with an error code.
pub open spec fn rst_stream_frame(stream_id: u32, code: ErrorCode) -> Seq<u8> {
    header_bytes(3, 0, stream_id, 4) + be32_bytes(error_code_value(code))
}

/// A WINDOW_UPDATE frame granting `n` bytes on a stream (0: the connection).
pub open spec fn window_update_frame(stream_id: u32, n: u32) -> Seq<u8> {
    header_bytes(8, 0, stream_id, 4) + be32_bytes(n)
}

/// A SETTINGS frame with the ACK flag and no payload.
pub open spec fn settings_ack_frame() -> Seq<u8> {
    header_bytes(4, 1, 0, 0)
}

fn push_be32(out: &mut Vec<u8>, v: u32)
    ensures
        final(out)@ == old(out)@ + be32_bytes(v),
{
    out.push(((v / 16777216) % 256) as u8);
    out.push(((v / 65536) % 256) as u8);
    out.push(((v / 256) % 256) as u8);
    out.push((v % 256) as u8);
    assert(out@ =~= old(out)@ + be32_bytes(v));
}


/// The parts of an HTTP/2 state are well formed.
pub open spec fn h2_wf(h: Http2State) -> bool {
    h.parser.wf() && h.streams.wf() && h.flow.wf() && h.recv.wf()
}

/// The error code a frame-level parse error maps to.
pub open spec fn h2_code(e: Http2ParseError) -> ErrorCode {
    match e {
        Http2ParseError::ConnectionError(c) => c,
        Http2ParseError::StreamError(_, c) => c,
        Http2ParseError::CompressionError => ErrorCode::CompressionError,
        Http2ParseError::InvalidFrameSize => ErrorCode::FrameSizeError,
        Http2ParseError::TooLargeFrame => ErrorCode::FrameSizeError,
        Http2ParseError::InvalidSettings => ErrorCode::FrameSizeError,
        _ => ErrorCode::ProtocolError,
    }
}

/// A new initial window fits every stream window.
pub open spec fn initial_fits(f: FlowController, iw: u32) -> bool {
    iw <= MAX_WINDOW && forall|k: u32| -2147483648 <= #[trigger] f.window_of(k) + iw - f.initial() <= MAX_WINDOW
}

/// The stream is known and not closed.
pub open spec fn stream_open(h: Http2State, sid: u32) -> bool {
    h.streams.states().contains_key(sid) && h.streams.states()[sid] != StreamState::Closed
}

/// A header block for stream `sid`: over the size limit it is
/// ENHANCE_YOUR_CALM; without END_HEADERS it waits for CONTINUATION
/// frames; complete, it is decoded into a request, unless the stream is new
/// and 100 streams are live, which refuses it with RST_STREAM.
pub open spec fn block_effect(
    h: Http2State,
    h2: Http2State,
    extra: Seq<u8>,
    sid: u32,
    block: Seq<u8>,
    end_stream: bool,
    end_headers: bool,
    res: Result<ConnectionAction, ErrorCode>,
) -> bool {
    if block.len() > h.parser.header_block_limit() {
        res == Err::<ConnectionAction, ErrorCode>(ErrorCode::EnhanceYourCalm) && extra == Seq::<u8>::empty()
    } else if !end_headers {
        res is Ok && res->Ok_0 is Continue && extra == Seq::<u8>::empty() && h2.pending_headers is Some
            && h2.pending_headers.unwrap().0 == sid && h2.pending_headers.unwrap().1@ == block
            && h2.pending_headers.unwrap().2 == end_stream
    } else {
        match block_of(h.parser.decoder(), block, 0, seq![]) {
            Err(e) => res == Err::<ConnectionAction, ErrorCode>(h2_code(e)) && extra == Seq::<u8>::empty(),
            Ok((hs, d)) => if !h.streams.states().contains_key(sid) && h.streams.live() >= 100 {
                res is Ok && res->Ok_0 is Continue && extra == rst_stream_frame(sid, ErrorCode::RefusedStream)
            } else {
                &&& (match res {
                    Ok(ConnectionAction::Request(HttpRequest::Http2 { stream_id, headers, body })) => stream_id
                        == sid && headers_seq(headers@) == hs && body is None,
                    _ => false,
                })
                &&& extra == Seq::<u8>::empty()
                &&& h2.parser.decoder() == d
                &&& h2.streams.states() == h.streams.states().insert(
                    sid,
                    if end_stream {
                        StreamState::HalfClosedRemote
                    } else {
                        StreamState::Open
                    },
                )
            },
        }
    }
}

/// What a complete frame `f` with payload `p` does to an HTTP/2 state `h`
/// (giving `h2`): the bytes it writes and its result, or the connection
/// error it raises (writing nothing).
pub open spec fn frame_effect(
    h: Http2State,
    h2: Http2State,
    extra: Seq<u8>,
    f: FrameHeader,
    p: Seq<u8>,
    res: Result<ConnectionAction, ErrorCode>,
) -> bool {
    let sid = f.stream_id;
    let fl = f.flags.0;
    let len = f.length as int;
    let cont = res is Ok && res->Ok_0 is Continue;
    let none = extra == Seq::<u8>::empty();
    let err = |c: ErrorCode| res == Err::<ConnectionAction, ErrorCode>(c) && none;
    match f.frame_type {
        FrameType::Data => if sid == 0 {
            err(ErrorCode::ProtocolError)
        } else {
            match crate::http2::data_of(p, fl) {
                Err(_) => err(ErrorCode::ProtocolError),
                Ok(d) => if len <= h.recv.conn() && len <= h.recv.window_of(sid) {
                    &&& (match res {
                        Ok(ConnectionAction::Data { stream_id, data, end_stream }) => stream_id == sid && data@ == d
                            && end_stream == (fl & 1u8 != 0),
                        _ => false,
                    })
                    &&& none
                    &&& h2.recv.conn() == h.recv.conn() - len
                    &&& h2.recv.window_of(sid) == h.recv.window_of(sid) - len
                } else {
                    err(ErrorCode::FlowControlError)
                },
            }
        },
        FrameType::WindowUpdate => if len != 4 {
            err(ErrorCode::FrameSizeError)
        } else {
            let d = be32(p, 0) % 2147483648;
            if d == 0 {
                err(ErrorCode::ProtocolError)
            } else if sid == 0 {
                if 0 <= h.flow.conn() + d <= MAX_WINDOW {
                    cont && none && h2.flow.conn() == h.flow.conn() + d
                } else {
                    err(ErrorCode::FlowControlError)
                }
            } else if 0 <= h.flow.window_of(sid) + d <= MAX_WINDOW {
                cont && none && h2.flow.window_of(sid) == h.flow.window_of(sid) + d && h2.flow.conn() == h.flow.conn()
            } else {
                cont && extra == rst_stream_frame(sid, ErrorCode::FlowControlError)
            }
        },
        FrameType::Settings => if sid != 0 {
            err(ErrorCode::ProtocolError)
        } else if fl & 1u8 != 0 && len != 0 {
            err(ErrorCode::FrameSizeError)
        } else if len % 6 != 0 {
            err(ErrorCode::FrameSizeError)
        } else if fl & 1u8 != 0 {
            cont && none
        } else {
            match apply_settings_from(h.parser.peer_settings(), settings_list(p), 0) {
                Err(e) => err(h2_code(e)),
                Ok(st) => if initial_fits(h.flow, st.initial_window_size) {
                    cont && extra == settings_ack_frame() && h2.parser.peer_settings() == st
                } else {
                    err(ErrorCode::FlowControlError)
                },
            }
        },
        FrameType::Headers => if sid == 0 {
            err(ErrorCode::ProtocolError)
        } else {
            match headers_fragment(p, fl) {
                Err(e) => err(h2_code(e)),
                Ok(frag) => if sid % 2 == 0 || (sid <= h.last_stream_id && !stream_open(h, sid)) {
                    err(ErrorCode::ProtocolError)
                } else {
                    block_effect(h, h2, extra, sid, frag, fl & 1u8 != 0, fl & 4u8 != 0, res)
                        && h2.last_stream_id == if sid > h.last_stream_id { sid } else { h.last_stream_id }
                },
            }
        },
        FrameType::Continuation => err(ErrorCode::ProtocolError),
        FrameType::RstStream => if sid == 0 {
            err(ErrorCode::ProtocolError)
        } else if len != 4 {
            err(ErrorCode::FrameSizeError)
        } else {
            cont && none && h2.streams.states() == h.streams.states().insert(sid, StreamState::Closed)
        },
        FrameType::Ping => if sid != 0 {
            err(ErrorCode::ProtocolError)
        } else if len != 8 {
            err(ErrorCode::FrameSizeError)
        } else if fl & 1u8 == 0 {
            cont && extra == header_bytes(6, 1, 0, 8) + p
        } else {
            cont && none
        },
        FrameType::GoAway => res is Ok && res->Ok_0 is Close && none,
        _ => cont && none,
    }
}

/// A CONTINUATION frame while a header block waits: it must be for the same
/// stream, and its payload extends the block.
pub open spec fn continuation_effect(
    h: Http2State,
    h2: Http2State,
    extra: Seq<u8>,
    f: FrameHeader,
    p: Seq<u8>,
    res: Result<ConnectionAction, ErrorCode>,
) -> bool {
    let (psid, acc, es) = h.pending_headers.unwrap();
    if psid != f.stream_id {
        res == Err::<ConnectionAction, ErrorCode>(ErrorCode::ProtocolError) && extra == Seq::<u8>::empty()
    } else {
        block_effect(h, h2, extra, psid, acc@ + p, es, f.flags.0 & 4u8 != 0, res)
    }
}

/// The connection closed with a GOAWAY naming `last` and `code`.
pub open spec fn closes_with(old: Connection, new: Connection, r: ConnectionAction, last: u32, code: ErrorCode) -> bool {
    r is Close && new.kind() == StateKind::Closing && new.pending_output() == old.pending_output() + goaway_frame(
        last,
        code,
    )
}

/// Nothing changed: more input is needed.
pub open spec fn waits(old: Connection, new: Connection, r: ConnectionAction) -> bool {
    r is NeedMore && new.kind() == old.kind() && new.pending_input() == old.pending_input()
        && new.pending_output() == old.pending_output() && new.h2() == old.h2()
}

/// One HTTP/2 step, as plain values: an incomplete frame waits; a frame of
/// unknown type is skipped; a frame-header error, a frame other than
/// CONTINUATION while a header block waits, and any connection error of
/// `frame_effect` queue a GOAWAY and close; otherwise the frame is consumed
/// and takes the effect `frame_effect` gives it.
pub open spec fn h2_step(old: Connection, new: Connection, r: ConnectionAction) -> bool {
    let h = old.h2();
    let buf = old.pending_input();
    let out0 = old.pending_output();
    let last = h.last_stream_id;
    match frame_header_of(buf, h.parser.peer_settings().max_frame_size) {
        Err(Http2ParseError::IncompleteFrame) => waits(old, new, r),
        Err(Http2ParseError::UnknownFrameType(_)) => {
            let n = 9 + header_fields(buf).0;
            if buf.len() >= n {
                r is Continue && new.kind() == StateKind::Http2 && new.pending_input() == buf.skip(n)
                    && new.pending_output() == out0 && new.h2() == h
            } else {
                waits(old, new, r)
            }
        },
        Err(e) => closes_with(old, new, r, last, h2_code(e)),
        Ok(f) => if buf.len() < 9 + f.length {
            waits(old, new, r)
        } else {
            let n = 9 + f.length;
            let p = buf.subrange(9, n as int);
            if h.pending_headers is Some && f.frame_type != FrameType::Continuation {
                closes_with(old, new, r, last, ErrorCode::ProtocolError)
            } else {
                exists|res: Result<ConnectionAction, ErrorCode>, h2: Http2State, extra: Seq<u8>|
                    #[trigger] step_effect(h, h2, extra, f, p, res) && match res {
                        Err(c) => closes_with(old, new, r, last, c),
                        Ok(ConnectionAction::Close) => r is Close && new.kind() == StateKind::Closing
                            && new.pending_output() == out0,
                        Ok(a) => r == a && new.kind() == StateKind::Http2 && new.h2() == h2 && new.pending_input()
                            == buf.skip(n as int) && new.pending_output() == out0 + extra,
                    }
            }
        },
    }
}

/// The effect of a complete frame, whether or not a header block waits.
pub open spec fn step_effect(
    h: Http2State,
    h2: Http2State,
    extra: Seq<u8>,
    f: FrameHeader,
    p: Seq<u8>,
    res: Result<ConnectionAction, ErrorCode>,
) -> bool {
    if h.pending_headers is Some {
        continuation_effect(h, h2, extra, f, p, res)
    } else {
        frame_effect(h, h2, extra, f, p, res)
    }
}


/// The detection step: the HTTP/2 preface moves to HTTP/2 with the preface
/// consumed, default settings, 65535-byte windows, no streams and the
/// configured header-block limit; a method token moves to HTTP/1.1 with the
/// input kept and the configured limits; more than 24 unmatched bytes close;
/// fewer wait. Nothing is written.
pub open spec fn detect_step(old: Connection, new: Connection, r: ConnectionAction) -> bool {
    let buf = old.pending_input();
    &&& new.pending_output() == old.pending_output()
    &&& match detection_of(buf) {
        Some(d) => r is Continue && if d.protocol == Protocol::Http2 {
            &&& new.kind() == StateKind::Http2
            &&& new.pending_input() == buf.skip(24)
            &&& new.h2().parser.peer_settings() == default_settings()
            &&& new.h2().parser.header_block_limit() == old.cfg().max_header_size
            &&& new.h2().parser.decoder().table.len() == 0
            &&& new.h2().flow.conn() == 65535 && new.h2().recv.conn() == 65535
            &&& forall|k: u32| #[trigger] new.h2().flow.window_of(k) == 65535
            &&& forall|k: u32| #[trigger] new.h2().recv.window_of(k) == 65535
            &&& new.h2().last_stream_id == 0
            &&& new.h2().pending_headers is None
            &&& new.h2().streams.states() == Map::<u32, StreamState>::empty()
        } else {
            &&& new.kind() == StateKind::Http1
            &&& new.pending_input() == buf
            &&& new.h1_limits() == (100int, old.cfg().max_header_size as int, old.cfg().max_request_size as int)
            &&& new.h1_keep_alive()
        },
        None => if buf.len() > 24 {
            r is Close && new.kind() == StateKind::Closing
        } else {
            r is NeedMore && new.kind() == StateKind::Detecting && new.pending_input() == buf
        },
    }
}


/// One HTTP/1.1 step under the connection's parser limits: a complete
/// request is returned and exactly its bytes consumed; an incomplete one
/// waits; a request too large queues a 413 and closes; any other error a
/// 400. The limits stay as they are.
pub open spec fn h1_step(old: Connection, new: Connection, r: ConnectionAction) -> bool {
    let (mh, mhs, mrs) = old.h1_limits();
    match request_of(mh, mhs, mrs, old.pending_input()) {
        Ok((req, n)) => {
            &&& (match r {
                ConnectionAction::Request(HttpRequest::Http1(q)) => q@ == req,
                _ => false,
            })
            &&& new.kind() == StateKind::Http1
            &&& new.pending_input() == old.pending_input().skip(n)
            &&& new.pending_output() == old.pending_output()
            &&& new.h1_limits() == old.h1_limits()
            &&& new.h1_keep_alive() == keep_alive_of(req.version, req.headers)
        },
        Err(Http1ParseError::IncompleteRequest) => {
            &&& r is NeedMore
            &&& new.kind() == StateKind::Http1
            &&& new.pending_input() == old.pending_input()
            &&& new.pending_output() == old.pending_output()
            &&& new.h1_limits() == old.h1_limits()
            &&& new.h1_keep_alive() == old.h1_keep_alive()
        },
        Err(Http1ParseError::RequestTooLarge) => r is Close && new.kind() == StateKind::Closing
            && new.pending_output() == old.pending_output() + too_large_response(),
        Err(_) => r is Close && new.kind() == StateKind::Closing && new.pending_output() == old.pending_output()
            + bad_request_response(),
    }
}

/// The state of a connection, fed bytes by its caller.
pub struct Connection {
    state: ConnectionState,
    config: ConnectionConfig,
    read_buffer: Vec<u8>,
    write_buffer: Vec<u8>,
    created_at_ms: u64,
    last_activity_ms: u64,
    bytes_read: u64,
    bytes_written: u64,
}

/// The kind of a state, as a plain value.
#[derive(Debug, Clone, Copy, PartialEq, Eq, Structural)]
pub enum StateKind {
    Detecting,
    Http1,
    Http2,
    Closing,
}

pub open spec fn kind_of(s: &ConnectionState) -> StateKind {
    match s {
        ConnectionState::Detecting => StateKind::Detecting,
        ConnectionState::Http1(_) => StateKind::Http1,
        ConnectionState::Http2(_) => StateKind::Http2,
        ConnectionState::Closing => StateKind::Closing,
    }
}

impl Connection {
    pub closed spec fn kind(&self) -> StateKind {
        kind_of(&self.state)
    }

    /// The bytes received and not yet consumed.
    pub closed spec fn pending_input(&self) -> Seq<u8> {
        self.read_buffer@
    }

    /// The bytes waiting to be written.
    pub closed spec fn pending_output(&self) -> Seq<u8> {
        self.write_buffer@
    }

    pub closed spec fn cfg(&self) -> ConnectionConfig {
        self.config
    }

    pub closed spec fn last_activity(&self) -> u64 {
        self.last_activity_ms
    }

    /// Bytes received so far (saturating).
    pub closed spec fn read_count(&self) -> u64 {
        self.bytes_read
    }

    /// Bytes handed out for writing so far (saturating).
    pub closed spec fn written_count(&self) -> u64 {
        self.bytes_written
    }

    /// Requests served on an HTTP/1.1 connection.
    pub closed spec fn h1_served(&self) -> u64 {
        match &self.state {
            ConnectionState::Http1(h) => h.requests_served,
            _ => 0,
        }
    }

    /// The HTTP/2 state of an HTTP/2 connection.
    pub closed spec fn h2(&self) -> Http2State {
        match &self.state {
            ConnectionState::Http2(h) => *h,
            _ => vstd::pervasive::arbitrary(),
        }
    }

    /// The keep-alive decision of an HTTP/1.1 connection's latest request.
    pub closed spec fn h1_keep_alive(&self) -> bool {
        match &self.state {
            ConnectionState::Http1(h) => h.keep_alive,
            _ => false,
        }
    }

    /// The HTTP/1.1 parser's limits: headers, head bytes, body bytes.
    pub closed spec fn h1_limits(&self) -> (int, int, int) {
        match &self.state {
            ConnectionState::Http1(h) => (
                h.parser.max_headers as int,
                h.parser.max_header_size as int,
                h.parser.max_request_size as int,
            ),
            _ => (0, 0, 0),
        }
    }

    /// The parsers' invariants hold.
    pub closed spec fn wf(&self) -> bool {
        match &self.state {
            ConnectionState::Http2(h) => h2_wf(*h),
            _ => true,
        }
    }

    /// A connection that has not yet seen a byte.
    pub fn new(config: ConnectionConfig, now_ms: u64) -> (r: Self)
        ensures
            r.wf(),
            r.kind() == StateKind::Detecting,
            r.pending_input() == Seq::<u8>::empty(),
            r.pending_output() == Seq::<u8>::empty(),
            r.cfg() == config,
            r.last_activity() == now_ms,
    {
        Connection {
            state: ConnectionState::Detecting,
            config,
            read_buffer: Vec::new(),
            write_buffer: Vec::new(),
            created_at_ms: now_ms,
            last_activity_ms: now_ms,
            bytes_read: 0,
            bytes_written: 0,
        }
    }


    /// A connection whose protocol was agreed by ALPN: `h2` starts in
    /// HTTP/2 (the client still sends the preface, which is then expected
    /// first), `http/1.1` in HTTP/1.1; anything else goes through detection.
    pub fn with_alpn(config: ConnectionConfig, now_ms: u64, alpn: Option<&[u8]>) -> (r: Self)
        ensures
            r.wf(),
            r.pending_input() == Seq::<u8>::empty(),
            r.pending_output() == Seq::<u8>::empty(),
            r.cfg() == config,
            match alpn {
                Some(p) => if p@ == seq![104u8, 116u8, 116u8, 112u8, 47u8, 49u8, 46u8, 49u8] {
                    r.kind() == StateKind::Http1
                } else {
                    r.kind() == StateKind::Detecting
                },
                None => r.kind() == StateKind::Detecting,
            },
    {
        let mut c = Connection::new(config, now_ms);
        if let Some(p) = alpn {
            let h1 = [104u8, 116u8, 116u8, 112u8, 47u8, 49u8, 46u8, 49u8];
            assert(h1@ =~= seq![104u8, 116u8, 116u8, 112u8, 47u8, 49u8, 46u8, 49u8]);
            if crate::http1::bytes_equal(p, h1.as_slice()) {
                c.state = ConnectionState::Http1(Http1State {
                    parser: Http1Parser::with_limits(100, config.max_header_size, config.max_request_size),
                    keep_alive: true,
                    requests_served: 0,
                    pipeline_depth: 0,
                });
            }
        }
        c
    }


    /// Returns `n` bytes of receive credit on an HTTP/2 stream once its DATA
    /// has been taken in: both receive windows grow by `n` and the peer is
    /// told with two WINDOW_UPDATE frames. Nothing happens (and false is
    /// returned) on another protocol, for stream 0, for `n` outside
    /// `1..=2^31 - 1`, or when a window would pass 2^31 - 1.
    pub fn grant_receive_window(&mut self, stream_id: u32, n: u32) -> (r: bool)
        requires
            old(self).wf(),
        ensures
            final(self).wf(),
            final(self).kind() == old(self).kind(),
            final(self).cfg() == old(self).cfg(),
            final(self).pending_input() == old(self).pending_input(),
            r <==> (old(self).kind() == StateKind::Http2 && stream_id != 0 && 0 < n <= MAX_WINDOW
                && 0 <= old(self).h2().recv.conn() + n <= MAX_WINDOW && 0 <= old(self).h2().recv.window_of(stream_id) + n
                <= MAX_WINDOW),
            r ==> final(self).h2().recv.conn() == old(self).h2().recv.conn() + n && final(self).h2().recv.window_of(
                stream_id,
            ) == old(self).h2().recv.window_of(stream_id) + n && final(self).pending_output() == old(self).pending_output()
                + window_update_frame(0, n) + window_update_frame(stream_id, n),
            !r ==> final(self).h2() == old(self).h2() && final(self).pending_output() == old(self).pending_output(),
    {
        if stream_id == 0 || n == 0 || n > 2147483647 {
            return false;
        }
        let mut taken = ConnectionState::Closing;
        std::mem::swap(&mut taken, &mut self.state);
        match taken {
            ConnectionState::Http2(mut h) => {
                let c = h.recv.connection_window();
                let w = h.recv.stream_window(stream_id);
                if c > MAX_WINDOW - n as i64 || w > MAX_WINDOW - n as i64 || c + (n as i64) < 0 || w + (n as i64) < 0 {
                    self.state = ConnectionState::Http2(h);
                    return false;
                }
                let _ = h.recv.update_connection_window(n as i32);
                let _ = h.recv.update_stream_window(stream_id, n as i32);
                self.state = ConnectionState::Http2(h);
                let mut b = Http2FrameBuilder::new();
                b.header(FrameType::WindowUpdate, 0, 0, 4);
                let mut frame = b.build();
                push_be32(&mut frame, n);
                let mut b2 = Http2FrameBuilder::new();
                b2.header(FrameType::WindowUpdate, 0, stream_id, 4);
                let mut frame2 = b2.build();
                push_be32(&mut frame2, n);
                append_bytes(&mut self.write_buffer, frame.as_slice());
                append_bytes(&mut self.write_buffer, frame2.as_slice());
                assert(self.write_buffer@ =~= old(self).write_buffer@ + window_update_frame(0, n)
                    + window_update_frame(stream_id, n));
                true
            },
            other => {
                self.state = other;
                false
            },
        }
    }

    /// Appends bytes read from the transport.
    pub fn feed(&mut self, data: &[u8], now_ms: u64)
        ensures
            final(self).pending_input() == old(self).pending_input() + data@,
            final(self).pending_output() == old(self).pending_output(),
            final(self).kind() == old(self).kind(),
            final(self).cfg() == old(self).cfg(),
            final(self).last_activity() == now_ms,
            final(self).h1_limits() == old(self).h1_limits(),
            final(self).h1_keep_alive() == old(self).h1_keep_alive(),
            final(self).h2() == old(self).h2(),
            final(self).read_count() == sat_add(old(self).read_count(), data@.len() as u64),
            final(self).written_count() == old(self).written_count(),
            old(self).wf() ==> final(self).wf(),
    {
        append_bytes(&mut self.read_buffer, data);
        let n = data.len() as u64;
        self.bytes_read = if self.bytes_read > u64::MAX - n {
            u64::MAX
        } else {
            self.bytes_read + n
        };
        self.last_activity_ms = now_ms;
    }

    /// Removes and returns the bytes waiting to be written.
    pub fn take_output(&mut self) -> (r: Vec<u8>)
        ensures
            r@ == old(self).pending_output(),
            final(self).pending_output() == Seq::<u8>::empty(),
            final(self).pending_input() == old(self).pending_input(),
            final(self).kind() == old(self).kind(),
            final(self).cfg() == old(self).cfg(),
            final(self).h1_limits() == old(self).h1_limits(),
            final(self).h1_keep_alive() == old(self).h1_keep_alive(),
            final(self).h2() == old(self).h2(),
            final(self).written_count() == sat_add(old(self).written_count(), old(self).pending_output().len() as u64),
            final(self).read_count() == old(self).read_count(),
            old(self).wf() ==> final(self).wf(),
    {
        let mut out: Vec<u8> = Vec::new();
        std::mem::swap(&mut out, &mut self.write_buffer);
        let n = out.len() as u64;
        self.bytes_written = if self.bytes_written > u64::MAX - n {
            u64::MAX
        } else {
            self.bytes_written + n
        };
        out
    }

    fn consume_read_buffer(&mut self, consumed: usize)
        requires
            consumed <= old(self).read_buffer@.len(),
        ensures
            final(self).read_buffer@ == old(self).read_buffer@.skip(consumed as int),
            final(self).write_buffer@ == old(self).write_buffer@,
            final(self).state == old(self).state,
            final(self).config == old(self).config,
            final(self).last_activity_ms == old(self).last_activity_ms,
    {
        let mut rest: Vec<u8> = Vec::new();
        let mut i = consumed;
        while i < self.read_buffer.len()
            invariant
                consumed <= i <= self.read_buffer@.len(),
                rest@ == self.read_buffer@.subrange(consumed as int, i as int),
            decreases self.read_buffer@.len() - i,
        {
            rest.push(self.read_buffer[i]);
            i = i + 1;
            assert(rest@ =~= self.read_buffer@.subrange(consumed as int, i as int));
        }
        assert(rest@ =~= self.read_buffer@.skip(consumed as int));
        self.read_buffer = rest;
    }

    fn queue_goaway(&mut self, last_stream_id: u32, code: ErrorCode)
        ensures
            final(self).write_buffer@ == old(self).write_buffer@ + goaway_frame(last_stream_id, code),
            final(self).read_buffer@ == old(self).read_buffer@,
            final(self).state == old(self).state,
            final(self).config == old(self).config,
            final(self).last_activity_ms == old(self).last_activity_ms,
    {
        let mut b = Http2FrameBuilder::new();
        b.header(FrameType::GoAway, 0, 0, 8);
        let mut frame = b.build();
        push_be32(&mut frame, last_stream_id % 2147483648);
        push_be32(&mut frame, code.value());
        append_bytes(&mut self.write_buffer, frame.as_slice());
        assert(self.write_buffer@ =~= old(self).write_buffer@ + goaway_frame(last_stream_id, code));
    }

    /// Detection: the HTTP/2 preface moves to HTTP/2 (consuming it), a
    /// method token to HTTP/1; more than 24 bytes that match neither close
    /// the connection.
    fn detect(&mut self) -> (r: ConnectionAction)
        requires
            old(self).kind() == StateKind::Detecting,
        ensures
            final(self).wf(),
            final(self).write_buffer@ == old(self).write_buffer@,
            final(self).config == old(self).config,
            final(self).last_activity_ms == old(self).last_activity_ms,
            detect_step(*old(self), *final(self), r),
    {
        match detect_protocol(self.read_buffer.as_slice()) {
            Some(d) => {
                if d.protocol == Protocol::Http2 {
                    self.consume_read_buffer(24);
                    let mut parser = Http2Parser::new();
                    parser.set_header_block_limit(self.config.max_header_size);
                    self.state = ConnectionState::Http2(Http2State {
                        parser,
                        streams: StreamManager::new(Some(100)),
                        flow: FlowController::new(65535),
                        recv: FlowController::new(65535),
                        last_stream_id: 0,
                        pending_headers: None,
                    });
                } else {
                    self.state = ConnectionState::Http1(Http1State {
                        parser: Http1Parser::with_limits(100, self.config.max_header_size, self.config.max_request_size),
                        keep_alive: true,
                        requests_served: 0,
                        pipeline_depth: 0,
                    });
                }
                ConnectionAction::Continue
            },
            None => {
                if self.read_buffer.len() > 24 {
                    self.state = ConnectionState::Closing;
                    ConnectionAction::Close
                } else {
                    ConnectionAction::NeedMore
                }
            },
        }
    }


    /// A connection error: GOAWAY naming `last` and the code, then closing.
    fn close_with(&mut self, last: u32, code: ErrorCode) -> (r: ConnectionAction)
        ensures
            r is Close,
            final(self).kind() == StateKind::Closing,
            final(self).wf(),
            final(self).config == old(self).config,
            final(self).last_activity_ms == old(self).last_activity_ms,
            final(self).read_buffer@ == old(self).read_buffer@,
            final(self).write_buffer@ == old(self).write_buffer@ + goaway_frame(last, code),
    {
        self.queue_goaway(last, code);
        self.state = ConnectionState::Closing;
        ConnectionAction::Close
    }

    /// The error code a frame-level parse error maps to.
    fn code_of(e: Http2ParseError) -> (r: ErrorCode)
        ensures
            r == h2_code(e),
    {
        match e {
            Http2ParseError::ConnectionError(c) => c,
            Http2ParseError::StreamError(_, c) => c,
            Http2ParseError::CompressionError => ErrorCode::CompressionError,
            Http2ParseError::InvalidFrameSize => ErrorCode::FrameSizeError,
            Http2ParseError::TooLargeFrame => ErrorCode::FrameSizeError,
            Http2ParseError::InvalidSettings => ErrorCode::FrameSizeError,
            _ => ErrorCode::ProtocolError,
        }
    }

    /// A DATA frame: its data, counted against both receive windows.
    fn on_data(h: &mut Http2State, header: &FrameHeader, payload: &[u8]) -> (res: Result<ConnectionAction, ErrorCode>)
        requires
            h2_wf(*old(h)),
            old(h).pending_headers is None,
            header.frame_type == FrameType::Data,
            header.length == payload@.len(),
        ensures
            h2_wf(*final(h)),
            step_effect(*old(h), *final(h), seq![], *header, payload@, res),
    {
        let sid = header.stream_id;
        let data = match h.parser.parse_data(header, payload) {
            Ok(d) => d,
            Err(e) => {
                return Err(Self::code_of(e));
            },
        };
        if h.recv.consume_window(sid, payload.len()).is_err() {
            return Err(ErrorCode::FlowControlError);
        }
        let end_stream = header.flags.has(1u8);
        Ok(ConnectionAction::Data { stream_id: sid, data, end_stream })
    }

    /// A WINDOW_UPDATE frame: raises the connection or a stream send window.
    fn on_window_update(h: &mut Http2State, header: &FrameHeader, payload: &[u8], out: &mut Vec<u8>) -> (res:
        Result<ConnectionAction, ErrorCode>)
        requires
            h2_wf(*old(h)),
            old(h).pending_headers is None,
            header.frame_type == FrameType::WindowUpdate,
            header.length == payload@.len(),
        ensures
            h2_wf(*final(h)),
            exists|extra: Seq<u8>|
                final(out)@ == old(out)@ + extra && #[trigger] step_effect(*old(h), *final(h), extra, *header, payload@, res),
    {
        let sid = header.stream_id;
        let delta = match h.parser.parse_window_update(payload) {
            Ok(d) => d,
            Err(e) => {
                assert(step_effect(*old(h), *h, seq![], *header, payload@, Err(h2_code(e))));
                assert(out@ == old(out)@ + Seq::<u8>::empty());
                return Err(Self::code_of(e));
            },
        };
        if sid == 0 {
            if h.flow.update_connection_window(delta as i32).is_err() {
                assert(step_effect(*old(h), *h, seq![], *header, payload@, Err(ErrorCode::FlowControlError)));
                assert(out@ == old(out)@ + Seq::<u8>::empty());
                return Err(ErrorCode::FlowControlError);
            }
            assert(step_effect(*old(h), *h, seq![], *header, payload@, Ok(ConnectionAction::Continue)));
            assert(out@ == old(out)@ + Seq::<u8>::empty());
            Ok(ConnectionAction::Continue)
        } else {
            if h.flow.update_stream_window(sid, delta as i32).is_err() {
                let mut b = Http2FrameBuilder::new();
                b.header(FrameType::RstStream, 0, sid, 4);
                let mut frame = b.build();
                push_be32(&mut frame, ErrorCode::FlowControlError.value());
                assert(frame@ =~= rst_stream_frame(sid, ErrorCode::FlowControlError));
                append_bytes(out, frame.as_slice());
                assert(step_effect(*old(h), *h, frame@, *header, payload@, Ok(ConnectionAction::Continue)));
                return Ok(ConnectionAction::Continue);
            }
            assert(step_effect(*old(h), *h, seq![], *header, payload@, Ok(ConnectionAction::Continue)));
            assert(out@ == old(out)@ + Seq::<u8>::empty());
            Ok(ConnectionAction::Continue)
        }
    }

    /// A SETTINGS frame: applied and acknowledged, or an ACK taken in.
    fn on_settings(h: &mut Http2State, header: &FrameHeader, payload: &[u8], out: &mut Vec<u8>) -> (res: Result<
        ConnectionAction,
        ErrorCode,
    >)
        requires
            h2_wf(*old(h)),
            old(h).pending_headers is None,
            header.frame_type == FrameType::Settings,
            header.length == payload@.len(),
        ensures
            h2_wf(*final(h)),
            exists|extra: Seq<u8>|
                final(out)@ == old(out)@ + extra && #[trigger] step_effect(*old(h), *final(h), extra, *header, payload@, res),
    {
        if let Err(e) = h.parser.check_settings_frame(header) {
            assert(step_effect(*old(h), *h, seq![], *header, payload@, Err(h2_code(e))));
            assert(out@ == old(out)@ + Seq::<u8>::empty());
            return Err(Self::code_of(e));
        }
        if header.flags.has(1u8) {
            assert(step_effect(*old(h), *h, seq![], *header, payload@, Ok(ConnectionAction::Continue)));
            assert(out@ == old(out)@ + Seq::<u8>::empty());
            return Ok(ConnectionAction::Continue);
        }
        let list = match h.parser.parse_settings(payload) {
            Ok(l) => l,
            Err(e) => {
                return Err(Self::code_of(e));
            },
        };
        if let Err(e) = h.parser.update_settings(list.as_slice()) {
            assert(step_effect(*old(h), *h, seq![], *header, payload@, Err(h2_code(e))));
            assert(out@ == old(out)@ + Seq::<u8>::empty());
            return Err(Self::code_of(e));
        }
        let iw = h.parser.settings().initial_window_size;
        if h.flow.update_initial_window(iw).is_err() {
            assert(step_effect(*old(h), *h, seq![], *header, payload@, Err(ErrorCode::FlowControlError)));
            assert(out@ == old(out)@ + Seq::<u8>::empty());
            return Err(ErrorCode::FlowControlError);
        }
        let mut b = Http2FrameBuilder::new();
        b.header(FrameType::Settings, 1, 0, 0);
        let ack = b.build();
        assert(ack@ =~= settings_ack_frame());
        append_bytes(out, ack.as_slice());
        assert(step_effect(*old(h), *h, ack@, *header, payload@, Ok(ConnectionAction::Continue)));
        Ok(ConnectionAction::Continue)
    }

    /// A header block, complete or awaiting CONTINUATION frames.
    fn on_header_block(
        h: &mut Http2State,
        sid: u32,
        block: Vec<u8>,
        end_stream: bool,
        end_headers: bool,
        out: &mut Vec<u8>,
    ) -> (res: Result<ConnectionAction, ErrorCode>)
        requires
            h2_wf(*old(h)),
            old(h).pending_headers is None,
        ensures
            h2_wf(*final(h)),
            final(h).last_stream_id == old(h).last_stream_id,
            exists|extra: Seq<u8>|
                final(out)@ == old(out)@ + extra && #[trigger] block_effect(
                    *old(h),
                    *final(h),
                    extra,
                    sid,
                    block@,
                    end_stream,
                    end_headers,
                    res,
                ),
    {
        if block.len() > h.parser.max_header_block() {
            assert(block_effect(*old(h), *h, seq![], sid, block@, end_stream, end_headers, Err(ErrorCode::EnhanceYourCalm)));
            assert(out@ == old(out)@ + Seq::<u8>::empty());
            return Err(ErrorCode::EnhanceYourCalm);
        }
        if !end_headers {
            let ghost bv = block@;
            h.pending_headers = Some((sid, block, end_stream));
            assert(block_effect(*old(h), *h, seq![], sid, bv, end_stream, end_headers, Ok(ConnectionAction::Continue)));
            assert(out@ == old(out)@ + Seq::<u8>::empty());
            return Ok(ConnectionAction::Continue);
        }
        let headers = match h.parser.decode_block(block.as_slice()) {
            Ok(hs) => hs,
            Err(e) => {
                assert(block_effect(*old(h), *h, seq![], sid, block@, end_stream, end_headers, Err(h2_code(e))));
                assert(out@ == old(out)@ + Seq::<u8>::empty());
                return Err(Self::code_of(e));
            },
        };
        if h.streams.get_stream(sid).is_none() && h.streams.live_streams() >= 100 {
            let mut b = Http2FrameBuilder::new();
            b.header(FrameType::RstStream, 0, sid, 4);
            let mut frame = b.build();
            push_be32(&mut frame, ErrorCode::RefusedStream.value());
            assert(frame@ =~= rst_stream_frame(sid, ErrorCode::RefusedStream));
            append_bytes(out, frame.as_slice());
            assert(block_effect(*old(h), *h, frame@, sid, block@, end_stream, end_headers, Ok(ConnectionAction::Continue)));
            return Ok(ConnectionAction::Continue);
        }
        let st = if end_stream {
            StreamState::HalfClosedRemote
        } else {
            StreamState::Open
        };
        h.streams.update_stream(sid, st);
        let ghost hv = headers@;
        let res = Ok(ConnectionAction::Request(HttpRequest::Http2 { stream_id: sid, headers, body: None }));
        assert(block_effect(*old(h), *h, seq![], sid, block@, end_stream, end_headers, res));
        assert(out@ == old(out)@ + Seq::<u8>::empty());
        res
    }

    /// HEADERS, RST_STREAM, PING, GOAWAY, a stray CONTINUATION, and the
    /// frames that are taken in without effect.
    fn on_other(h: &mut Http2State, header: &FrameHeader, payload: &[u8], out: &mut Vec<u8>) -> (res: Result<
        ConnectionAction,
        ErrorCode,
    >)
        requires
            h2_wf(*old(h)),
            old(h).pending_headers is None,
            header.length == payload@.len(),
            header.frame_type != FrameType::Data,
            header.frame_type != FrameType::WindowUpdate,
            header.frame_type != FrameType::Settings,
        ensures
            h2_wf(*final(h)),
            exists|extra: Seq<u8>|
                final(out)@ == old(out)@ + extra && #[trigger] step_effect(*old(h), *final(h), extra, *header, payload@, res),
    {
        let sid = header.stream_id;
        match header.frame_type {
            FrameType::Headers => {
                if sid == 0 {
                    assert(step_effect(*old(h), *h, seq![], *header, payload@, Err(ErrorCode::ProtocolError)));
                    assert(out@ == old(out)@ + Seq::<u8>::empty());
                    return Err(ErrorCode::ProtocolError);
                }
                let frag = match h.parser.header_fragment(payload, header.flags) {
                    Ok(f) => f,
                    Err(e) => {
                        assert(step_effect(*old(h), *h, seq![], *header, payload@, Err(h2_code(e))));
                        assert(out@ == old(out)@ + Seq::<u8>::empty());
                        return Err(Self::code_of(e));
                    },
                };
                let known = match h.streams.get_stream(sid) {
                    Some(st) => st != StreamState::Closed,
                    None => false,
                };
                if sid % 2 == 0 || (sid <= h.last_stream_id && !known) {
                    assert(step_effect(*old(h), *h, seq![], *header, payload@, Err(ErrorCode::ProtocolError)));
                    assert(out@ == old(out)@ + Seq::<u8>::empty());
                    return Err(ErrorCode::ProtocolError);
                }
                if sid > h.last_stream_id {
                    h.last_stream_id = sid;
                }
                let ghost h1 = *h;
                let ghost fv = frag@;
                let es = header.flags.has(1u8);
                let eh = header.flags.has(4u8);
                let res = Self::on_header_block(h, sid, frag, es, eh, out);
                proof {
                    let extra = choose|extra: Seq<u8>|
                        out@ == old(out)@ + extra && #[trigger] block_effect(
                            h1,
                            *h,
                            extra,
                            sid,
                            fv,
                            es,
                            eh,
                            res,
                        );
                    assert(step_effect(*old(h), *h, extra, *header, payload@, res));
                }
                res
            },
            FrameType::Continuation => {
                assert(step_effect(*old(h), *h, seq![], *header, payload@, Err(ErrorCode::ProtocolError)));
                assert(out@ == old(out)@ + Seq::<u8>::empty());
                Err(ErrorCode::ProtocolError)
            },
            FrameType::RstStream => {
                if let Err(e) = h.parser.parse_rst_stream(header, payload) {
                    assert(step_effect(*old(h), *h, seq![], *header, payload@, Err(h2_code(e))));
                    assert(out@ == old(out)@ + Seq::<u8>::empty());
                    return Err(Self::code_of(e));
                }
                h.streams.update_stream(sid, StreamState::Closed);
                assert(step_effect(*old(h), *h, seq![], *header, payload@, Ok(ConnectionAction::Continue)));
                assert(out@ == old(out)@ + Seq::<u8>::empty());
                Ok(ConnectionAction::Continue)
            },
            FrameType::Ping => {
                if let Err(e) = h.parser.check_ping(header, payload) {
                    assert(step_effect(*old(h), *h, seq![], *header, payload@, Err(h2_code(e))));
                    assert(out@ == old(out)@ + Seq::<u8>::empty());
                    return Err(Self::code_of(e));
                }
                if !header.flags.has(1u8) {
                    let mut b = Http2FrameBuilder::new();
                    b.header(FrameType::Ping, 1, 0, 8);
                    b.payload(payload);
                    let pong = b.build();
                    append_bytes(out, pong.as_slice());
                    assert(step_effect(*old(h), *h, pong@, *header, payload@, Ok(ConnectionAction::Continue)));
                    return Ok(ConnectionAction::Continue);
                }
                assert(step_effect(*old(h), *h, seq![], *header, payload@, Ok(ConnectionAction::Continue)));
                assert(out@ == old(out)@ + Seq::<u8>::empty());
                Ok(ConnectionAction::Continue)
            },
            FrameType::GoAway => {
                assert(step_effect(*old(h), *h, seq![], *header, payload@, Ok(ConnectionAction::Close)));
                assert(out@ == old(out)@ + Seq::<u8>::empty());
                Ok(ConnectionAction::Close)
            },
            _ => {
                assert(step_effect(*old(h), *h, seq![], *header, payload@, Ok(ConnectionAction::Continue)));
                assert(out@ == old(out)@ + Seq::<u8>::empty());
                Ok(ConnectionAction::Continue)
            },
        }
    }

    /// A CONTINUATION frame extending the header block that waits.
    fn on_continuation(h: &mut Http2State, header: &FrameHeader, payload: &[u8], out: &mut Vec<u8>) -> (res:
        Result<ConnectionAction, ErrorCode>)
        requires
            h2_wf(*old(h)),
            old(h).pending_headers is Some,
            header.frame_type == FrameType::Continuation,
            header.length == payload@.len(),
        ensures
            h2_wf(*final(h)),
            exists|extra: Seq<u8>|
                final(out)@ == old(out)@ + extra && #[trigger] step_effect(*old(h), *final(h), extra, *header, payload@, res),
    {
        let sid = header.stream_id;
        let mut pending: Option<(u32, Vec<u8>, bool)> = None;
        std::mem::swap(&mut pending, &mut h.pending_headers);
        let (psid, mut frag, es) = match pending {
            Some(x) => x,
            None => {
                proof {
                    assert(false);
                }
                return Err(ErrorCode::ProtocolError);
            },
        };
        if psid != sid {
            assert(step_effect(*old(h), *h, seq![], *header, payload@, Err(ErrorCode::ProtocolError)));
            assert(out@ == old(out)@ + Seq::<u8>::empty());
            return Err(ErrorCode::ProtocolError);
        }
        append_bytes(&mut frag, payload);
        let ghost h0 = *h;
        let ghost fv = frag@;
        let eh = header.flags.has(4u8);
        let res = Self::on_header_block(h, sid, frag, es, eh, out);
        proof {
            let extra = choose|extra: Seq<u8>|
                out@ == old(out)@ + extra && #[trigger] block_effect(h0, *h, extra, sid, fv, es, eh, res);
            assert(step_effect(*old(h), *h, extra, *header, payload@, res));
        }
        res
    }

    /// One HTTP/2 step: reads one frame if it is complete and acts on it.
    /// Connection errors queue a GOAWAY and close; stream errors queue an
    /// RST_STREAM; frames of unknown type are skipped.
    fn process_http2(&mut self) -> (r: ConnectionAction)
        requires
            old(self).kind() == StateKind::Http2,
            old(self).wf(),
        ensures
            final(self).wf(),
            final(self).config == old(self).config,
            final(self).last_activity_ms == old(self).last_activity_ms,
            final(self).kind() == StateKind::Http2 || final(self).kind() == StateKind::Closing,
            r is Close <==> final(self).kind() == StateKind::Closing,
            h2_step(*old(self), *final(self), r),
    {
        let mut taken = ConnectionState::Closing;
        std::mem::swap(&mut taken, &mut self.state);
        let mut h = match taken {
            ConnectionState::Http2(h) => h,
            _ => {
                proof {
                    assert(false);
                }
                return ConnectionAction::Close;
            },
        };
        let ghost h0 = h;
        let last = h.last_stream_id;
        let parsed = h.parser.parse_frame(self.read_buffer.as_slice());
        let (frame, consumed) = match parsed {
            Ok(x) => x,
            Err(Http2ParseError::IncompleteFrame) => {
                self.state = ConnectionState::Http2(h);
                return ConnectionAction::NeedMore;
            },
            Err(Http2ParseError::UnknownFrameType(_)) => {
                let len = (self.read_buffer[0] as usize) * 65536 + (self.read_buffer[1] as usize) * 256
                    + (self.read_buffer[2] as usize);
                if self.read_buffer.len() - 9 < len {
                    self.state = ConnectionState::Http2(h);
                    return ConnectionAction::NeedMore;
                }
                self.consume_read_buffer(9 + len);
                self.state = ConnectionState::Http2(h);
                return ConnectionAction::Continue;
            },
            Err(e) => {
                self.state = ConnectionState::Http2(h);
                return self.close_with(last, Self::code_of(e));
            },
        };
        self.consume_read_buffer(consumed);
        let header = frame.header;
        if h.pending_headers.is_some() && header.frame_type != FrameType::Continuation {
            self.state = ConnectionState::Http2(h);
            return self.close_with(last, ErrorCode::ProtocolError);
        }
        let ghost out0 = self.write_buffer@;
        let res = match header.frame_type {
            FrameType::Data => {
                let r = Self::on_data(&mut h, &header, frame.payload.as_slice());
                assert(self.write_buffer@ == out0 + Seq::<u8>::empty());
                r
            },
            FrameType::WindowUpdate => Self::on_window_update(&mut h, &header, frame.payload.as_slice(), &mut self.write_buffer),
            FrameType::Settings => Self::on_settings(&mut h, &header, frame.payload.as_slice(), &mut self.write_buffer),
            FrameType::Continuation => {
                if h.pending_headers.is_some() {
                    Self::on_continuation(&mut h, &header, frame.payload.as_slice(), &mut self.write_buffer)
                } else {
                    Self::on_other(&mut h, &header, frame.payload.as_slice(), &mut self.write_buffer)
                }
            },
            _ => Self::on_other(&mut h, &header, frame.payload.as_slice(), &mut self.write_buffer),
        };
        match res {
            Ok(ConnectionAction::Close) => {
                self.state = ConnectionState::Closing;
                ConnectionAction::Close
            },
            Ok(a) => {
                self.state = ConnectionState::Http2(h);
                a
            },
            Err(code) => {
                self.state = ConnectionState::Http2(h);
                self.close_with(last, code)
            },
        }
    }

    /// Advances the connection by one step.
    pub fn process(&mut self) -> (r: ConnectionAction)
        requires
            old(self).wf(),
        ensures
            final(self).wf(),
            final(self).cfg() == old(self).cfg(),
            final(self).last_activity() == old(self).last_activity(),
            old(self).kind() == StateKind::Closing ==> r is Close && final(self).kind() == StateKind::Closing
                && final(self).pending_output() == old(self).pending_output(),
            r is Close <==> final(self).kind() == StateKind::Closing,
            old(self).kind() == StateKind::Detecting ==> detect_step(*old(self), *final(self), r),
            old(self).kind() == StateKind::Http1 ==> h1_step(*old(self), *final(self), r),
            old(self).kind() == StateKind::Http2 ==> h2_step(*old(self), *final(self), r),
    {
        match self.state {
            ConnectionState::Detecting => self.detect(),
            ConnectionState::Http1(_) => self.process_http1(),
            ConnectionState::Http2(_) => self.process_http2(),
            ConnectionState::Closing => ConnectionAction::Close,
        }
    }

    /// Whether the connection should stay open after a response.
    pub fn should_keep_alive(&self) -> (r: bool)
        ensures
            self.kind() == StateKind::Http2 ==> r,
            self.kind() == StateKind::Http1 ==> r == self.h1_keep_alive(),
            (self.kind() == StateKind::Detecting || self.kind() == StateKind::Closing) ==> !r,
    {
        match &self.state {
            ConnectionState::Http1(h) => h.keep_alive,
            ConnectionState::Http2(_) => true,
            _ => false,
        }
    }

    /// Whether the connection has been idle too long at `now_ms`: the read
    /// timeout applies while detecting or while a request is partly read,
    /// the keep-alive timeout otherwise.
    pub fn is_timed_out(&self, now_ms: u64) -> (r: bool)
        ensures
            r == (now_ms >= self.last_activity() && now_ms - self.last_activity() > if self.kind()
                == StateKind::Detecting || (self.kind() == StateKind::Http1 && self.pending_input().len() > 0) {
                self.cfg().read_timeout_ms
            } else {
                self.cfg().keep_alive_timeout_ms
            }),
    {
        let timeout = match &self.state {
            ConnectionState::Detecting => self.config.read_timeout_ms,
            ConnectionState::Http1(_) => if self.read_buffer.len() > 0 {
                self.config.read_timeout_ms
            } else {
                self.config.keep_alive_timeout_ms
            },
            _ => self.config.keep_alive_timeout_ms,
        };
        now_ms >= self.last_activity_ms && now_ms - self.last_activity_ms > timeout
    }

    /// Closes the connection (after a timeout or a transport failure).
    pub fn close(&mut self)
        ensures
            final(self).kind() == StateKind::Closing,
            final(self).wf(),
    {
        self.state = ConnectionState::Closing;
    }

    /// Counters of the connection.
    pub fn metrics(&self) -> (r: ConnectionMetrics)
        ensures
            r.protocol == match self.kind() {
                StateKind::Http1 => Some(Protocol::Http1),
                StateKind::Http2 => Some(Protocol::Http2),
                _ => None::<Protocol>,
            },
            r.bytes_read == self.read_count(),
            r.bytes_written == self.written_count(),
            r.requests_served == match self.kind() {
                StateKind::Http1 => self.h1_served() as int,
                StateKind::Http2 => self.h2().streams.live() as int,
                _ => 0int,
            },
    {
        let (protocol, served) = match &self.state {
            ConnectionState::Http1(h) => (Some(Protocol::Http1), h.requests_served),
            ConnectionState::Http2(h) => (Some(Protocol::Http2), h.streams.live_streams() as u64),
            _ => (None, 0),
        };
        ConnectionMetrics {
            protocol,
            bytes_read: self.bytes_read,
            bytes_written: self.bytes_written,
            requests_served: served,
        }
    }

    /// The connection's state kind.
    pub fn state_kind(&self) -> (r: StateKind)
        ensures
            r == self.kind(),
    {
        match &self.state {
            ConnectionState::Detecting => StateKind::Detecting,
            ConnectionState::Http1(_) => StateKind::Http1,
            ConnectionState::Http2(_) => StateKind::Http2,
            ConnectionState::Closing => StateKind::Closing,
        }
    }

    /// The peer's settings, on an HTTP/2 connection.
    pub fn peer_settings(&self) -> (r: Option<crate::http2::Settings>)
        ensures
            r is Some <==> self.kind() == StateKind::Http2,
            r is Some ==> r.unwrap() == self.h2().parser.peer_settings(),
    {
        match &self.state {
            ConnectionState::Http2(h) => Some(h.parser.settings()),
            _ => None,
        }
    }

    /// One HTTP/1.1 step: a complete request is returned and its bytes
    /// consumed; an incomplete one waits for more; any other error queues a
    /// 400 (413 when too large) response and closes.
    fn process_http1(&mut self) -> (r: ConnectionAction)
        requires
            old(self).kind() == StateKind::Http1,
        ensures
            final(self).wf(),
            final(self).config == old(self).config,
            final(self).last_activity_ms == old(self).last_activity_ms,
            h1_step(*old(self), *final(self), r),
    {
        let parsed = match &self.state {
            ConnectionState::Http1(h) => h.parser.parse_request(self.read_buffer.as_slice()),
            _ => {
                proof {
                    assert(false);
                }
                Err(Http1ParseError::MalformedRequest)
            },
        };
        match parsed {
            Ok((request, consumed)) => {
                proof {
                    let p = match &self.state {
                        ConnectionState::Http1(h) => h.parser,
                        _ => Http1Parser { max_headers: 0, max_header_size: 0, max_request_size: 0 },
                    };
                    lemma_request_within_input(p.max_headers as int, p.max_header_size as int, p.max_request_size as int, self.read_buffer@);
                }
                self.consume_read_buffer(consumed);
                let alive = should_keep_alive(&request);
                match &mut self.state {
                    ConnectionState::Http1(h) => {
                        h.keep_alive = alive;
                        if h.requests_served < u64::MAX {
                            h.requests_served = h.requests_served + 1;
                        }
                    },
                    _ => {},
                }
                ConnectionAction::Request(HttpRequest::Http1(request))
            },
            Err(Http1ParseError::IncompleteRequest) => ConnectionAction::NeedMore,
            Err(Http1ParseError::RequestTooLarge) => {
                let resp = [72u8, 84u8, 84u8, 80u8, 47u8, 49u8, 46u8, 49u8, 32u8, 52u8, 49u8, 51u8, 32u8, 80u8, 97u8, 121u8, 108u8, 111u8, 97u8, 100u8, 32u8, 84u8, 111u8, 111u8, 32u8, 76u8, 97u8, 114u8, 103u8, 101u8, 13u8, 10u8, 67u8, 111u8, 110u8, 110u8, 101u8, 99u8, 116u8, 105u8, 111u8, 110u8, 58u8, 32u8, 99u8, 108u8, 111u8, 115u8, 101u8, 13u8, 10u8, 13u8, 10u8];
                assert(resp@ =~= too_large_response());
                append_bytes(&mut self.write_buffer, resp.as_slice());
                self.state = ConnectionState::Closing;
                ConnectionAction::Close
            },
            Err(_) => {
                let resp = [72u8, 84u8, 84u8, 80u8, 47u8, 49u8, 46u8, 49u8, 32u8, 52u8, 48u8, 48u8, 32u8, 66u8, 97u8, 100u8, 32u8, 82u8, 101u8, 113u8, 117u8, 101u8, 115u8, 116u8, 13u8, 10u8, 67u8, 111u8, 110u8, 110u8, 101u8, 99u8, 116u8, 105u8, 111u8, 110u8, 58u8, 32u8, 99u8, 108u8, 111u8, 115u8, 101u8, 13u8, 10u8, 13u8, 10u8];
                assert(resp@ =~= bad_request_response());
                append_bytes(&mut self.write_buffer, resp.as_slice());
                self.state = ConnectionState::Closing;
                ConnectionAction::Close
            },
        }
    }
}

} // verus!
