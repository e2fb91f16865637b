//! HTTP/2 framing: the 9-byte frame header, per-type payload checks,
//! SETTINGS parsing and application, and a frame writer.
use vstd::prelude::*;
use vstd::slice::slice_subrange;
use crate::hpack::{HpackDecoder, headers_seq, block_of, DecoderView};

verus! {

/// The ten frame types.
#[derive(Debug, Clone, Copy, PartialEq, Eq, Structural)]
pub enum FrameType {
    Data,
    Headers,
    Priority,
    RstStream,
    Settings,
    PushPromise,
    Ping,
    GoAway,
    WindowUpdate,
    Continuation,
}

/// The wire code of each frame type.
pub open spec fn frame_type_code(t: FrameType) -> u8 {
    match t {
        FrameType::Data => 0,
        FrameType::Headers => 1,
        FrameType::Priority => 2,
        FrameType::RstStream => 3,
        FrameType::Settings => 4,
        FrameType::PushPromise => 5,
        FrameType::Ping => 6,
        FrameType::GoAway => 7,
        FrameType::WindowUpdate => 8,
        FrameType::Continuation => 9,
    }
}

/// The frame type with wire code `v`.
pub open spec fn frame_type_of(v: u8) -> Option<FrameType> {
    if v == 0 {
        Some(FrameType::Data)
    } else if v == 1 {
        Some(FrameType::Headers)
    } else if v == 2 {
        Some(FrameType::Priority)
    } else if v == 3 {
        Some(FrameType::RstStream)
    } else if v == 4 {
        Some(FrameType::Settings)
    } else if v == 5 {
        Some(FrameType::PushPromise)
    } else if v == 6 {
        Some(FrameType::Ping)
    } else if v == 7 {
        Some(FrameType::GoAway)
    } else if v == 8 {
        Some(FrameType::WindowUpdate)
    } else if v == 9 {
        Some(FrameType::Continuation)
    } else {
        None
    }
}

impl FrameType {
    /// The frame type with wire code `value`.
    pub fn try_from(value: u8) -> (r: Result<FrameType, Http2ParseError>)
        ensures
            r == match frame_type_of(value) {
                Some(t) => Ok::<FrameType, Http2ParseError>(t),
                None => Err(Http2ParseError::UnknownFrameType(value)),
            },
    {
        match value {
            0 => Ok(FrameType::Data),
            1 => Ok(FrameType::Headers),
            2 => Ok(FrameType::Priority),
            3 => Ok(FrameType::RstStream),
            4 => Ok(FrameType::Settings),
            5 => Ok(FrameType::PushPromise),
            6 => Ok(FrameType::Ping),
            7 => Ok(FrameType::GoAway),
            8 => Ok(FrameType::WindowUpdate),
            9 => Ok(FrameType::Continuation),
            _ => Err(Http2ParseError::UnknownFrameType(value)),
        }
    }

    /// The wire code of this frame type.
    pub fn code(&self) -> (r: u8)
        ensures
            r == frame_type_code(*self),
            frame_type_of(r) == Some(*self),
    {
        match self {
            FrameType::Data => 0,
            FrameType::Headers => 1,
            FrameType::Priority => 2,
            FrameType::RstStream => 3,
            FrameType::Settings => 4,
            FrameType::PushPromise => 5,
            FrameType::Ping => 6,
            FrameType::GoAway => 7,
            FrameType::WindowUpdate => 8,
            FrameType::Continuation => 9,
        }
    }
}

/// HTTP/2 error codes.
#[derive(Debug, Clone, Copy, PartialEq, Eq, Structural)]
pub enum ErrorCode {
    NoError,
    ProtocolError,
    InternalError,
    FlowControlError,
    SettingsTimeout,
    StreamClosed,
    FrameSizeError,
    RefusedStream,
    Cancel,
    CompressionError,
    ConnectError,
    EnhanceYourCalm,
    InadequateSecurity,
    Http11Required,
}

impl ErrorCode {
    /// The 32-bit wire value of the code.
    pub fn value(&self) -> (r: u32)
        ensures
            r == error_code_value(*self),
    {
        match self {
            ErrorCode::NoError => 0x0,
            ErrorCode::ProtocolError => 0x1,
            ErrorCode::InternalError => 0x2,
            ErrorCode::FlowControlError => 0x3,
            ErrorCode::SettingsTimeout => 0x4,
            ErrorCode::StreamClosed => 0x5,
            ErrorCode::FrameSizeError => 0x6,
            ErrorCode::RefusedStream => 0x7,
            ErrorCode::Cancel => 0x8,
            ErrorCode::CompressionError => 0x9,
            ErrorCode::ConnectError => 0xa,
            ErrorCode::EnhanceYourCalm => 0xb,
            ErrorCode::InadequateSecurity => 0xc,
            ErrorCode::Http11Required => 0xd,
        }
    }
}

pub open spec fn error_code_value(c: ErrorCode) -> u32 {
    match c {
        ErrorCode::NoError => 0x0,
        ErrorCode::ProtocolError => 0x1,
        ErrorCode::InternalError => 0x2,
        ErrorCode::FlowControlError => 0x3,
        ErrorCode::SettingsTimeout => 0x4,
        ErrorCode::StreamClosed => 0x5,
        ErrorCode::FrameSizeError => 0x6,
        ErrorCode::RefusedStream => 0x7,
        ErrorCode::Cancel => 0x8,
        ErrorCode::CompressionError => 0x9,
        ErrorCode::ConnectError => 0xa,
        ErrorCode::EnhanceYourCalm => 0xb,
        ErrorCode::InadequateSecurity => 0xc,
        ErrorCode::Http11Required => 0xd,
    }
}

/// The ways HTTP/2 input can fail.
#[derive(Debug, Clone, Copy, PartialEq, Eq, Structural)]
pub enum Http2ParseError {
    InvalidPreface,
    InvalidFrameHeader,
    UnknownFrameType(u8),
    InvalidStreamId,
    InvalidFrameSize,
    InvalidPadding,
    InvalidHeaderBlock,
    InvalidSettings,
    InvalidWindowUpdate,
    InvalidPriority,
    CompressionError,
    ConnectionError(ErrorCode),
    StreamError(u32, ErrorCode),
    IncompleteFrame,
    TooLargeFrame,
}


/// The 24-byte client connection preface `PRI * HTTP/2.0\r\n\r\nSM\r\n\r\n`.
pub open spec fn preface() -> Seq<u8> {
    seq![80u8, 82u8, 73u8, 32u8, 42u8, 32u8, 72u8, 84u8, 84u8, 80u8, 47u8, 50u8, 46u8, 48u8, 13u8, 10u8, 13u8, 10u8, 83u8, 77u8, 13u8, 10u8, 13u8, 10u8]
}

/// The connection preface as bytes.
pub fn connection_preface() -> (r: [u8; 24])
    ensures
        r@ == preface(),
{
    let r = [80u8, 82u8, 73u8, 32u8, 42u8, 32u8, 72u8, 84u8, 84u8, 80u8, 47u8, 50u8, 46u8, 48u8, 13u8, 10u8, 13u8, 10u8, 83u8, 77u8, 13u8, 10u8, 13u8, 10u8];
    assert(r@ =~= preface());
    r
}

/// The flags byte of a frame.
#[derive(Debug, Clone, Copy, PartialEq, Eq, Structural)]
pub struct FrameFlags(pub u8);

impl FrameFlags {
    pub const END_STREAM: u8 = 0x1;
    pub const END_HEADERS: u8 = 0x4;
    pub const PADDED: u8 = 0x8;
    pub const PRIORITY: u8 = 0x20;

    /// Whether any bit of `flag` is set.
    pub fn has(&self, flag: u8) -> (r: bool)
        ensures
            r == (self.0 & flag != 0),
    {
        self.0 & flag != 0
    }
}

/// The 9-byte frame header.
#[derive(Debug, Clone, Copy, PartialEq, Eq, Structural)]
pub struct FrameHeader {
    pub length: u32,
    pub frame_type: FrameType,
    pub flags: FrameFlags,
    pub stream_id: u32,
}

/// A frame: its header and its payload bytes.
#[derive(Debug)]
pub struct Frame {
    pub header: FrameHeader,
    pub payload: Vec<u8>,
}

/// The fields of the frame header at the start of `s` (at least 9 bytes):
/// 24-bit length, type, flags, and the stream id with the reserved bit
/// cleared.
pub open spec fn header_fields(s: Seq<u8>) -> (u32, u8, u8, u32) {
    (
        ((s[0] as u32) * 65536 + (s[1] as u32) * 256 + (s[2] as u32)) as u32,
        s[3],
        s[4],
        (((s[5] & 127u8) as u32) * 16777216 + (s[6] as u32) * 65536 + (s[7] as u32) * 256 + (
        s[8] as u32)) as u32,
    )
}

/// What parsing a frame header from `s` yields under a maximum frame size.
pub open spec fn frame_header_of(s: Seq<u8>, max_frame_size: u32) -> Result<FrameHeader, Http2ParseError> {
    if s.len() < 9 {
        Err(Http2ParseError::IncompleteFrame)
    } else {
        let (length, t, flags, stream_id) = header_fields(s);
        if length > max_frame_size {
            Err(Http2ParseError::InvalidFrameSize)
        } else {
            match frame_type_of(t) {
                None => Err(Http2ParseError::UnknownFrameType(t)),
                Some(frame_type) => Ok(FrameHeader { length, frame_type, flags: FrameFlags(flags), stream_id }),
            }
        }
    }
}

/// The nine bytes that encode a frame header; the reserved bit is written zero.
pub open spec fn header_bytes(t: u8, flags: u8, stream_id: u32, length: u32) -> Seq<u8> {
    seq![
        ((length / 65536) % 256) as u8,
        ((length / 256) % 256) as u8,
        (length % 256) as u8,
        t,
        flags,
        ((stream_id / 16777216) % 128) as u8,
        ((stream_id / 65536) % 256) as u8,
        ((stream_id / 256) % 256) as u8,
        (stream_id % 256) as u8,
    ]
}

/// A frame header written and read back gives the same fields, for any
/// length that fits 24 bits and any stream id that fits 31 bits.
pub proof fn lemma_frame_header_round_trip(
    t: FrameType,
    flags: u8,
    stream_id: u32,
    length: u32,
    max_frame_size: u32,
    rest: Seq<u8>,
)
    requires
        length < 16777216,
        stream_id < 2147483648,
        length <= max_frame_size,
    ensures
        frame_header_of(header_bytes(frame_type_code(t), flags, stream_id, length) + rest, max_frame_size)
            == Ok::<FrameHeader, Http2ParseError>(
            FrameHeader { length, frame_type: t, flags: FrameFlags(flags), stream_id },
        ),
{
    let s = header_bytes(frame_type_code(t), flags, stream_id, length) + rest;
    let b5 = ((stream_id / 16777216) % 128) as u8;
    assert(b5 < 128);
    assert(b5 & 127u8 == b5) by (bit_vector)
        requires
            b5 < 128,
    ;
    assert(s[5] == b5);
    assert(length == ((length / 65536) % 256) * 65536 + ((length / 256) % 256) * 256 + length % 256);
    assert(stream_id == ((stream_id / 16777216) % 128) * 16777216 + ((stream_id / 65536) % 256) * 65536
        + ((stream_id / 256) % 256) * 256 + stream_id % 256);
}

/// Connection settings.
#[derive(Debug, Clone, Copy, PartialEq, Eq, Structural)]
pub struct Settings {
    pub header_table_size: u32,
    pub enable_push: bool,
    pub max_concurrent_streams: Option<u32>,
    pub initial_window_size: u32,
    pub max_frame_size: u32,
    pub max_header_list_size: Option<u32>,
}

pub open spec fn default_settings() -> Settings {
    Settings {
        header_table_size: 4096,
        enable_push: true,
        max_concurrent_streams: None,
        initial_window_size: 65535,
        max_frame_size: 16384,
        max_header_list_size: None,
    }
}

impl Settings {
    /// A 4096-byte header table, push enabled, no stream limit, a 65535-byte
    /// initial window and 16384-byte frames.
    pub fn default() -> (r: Settings)
        ensures
            r == default_settings(),
    {
        Settings {
            header_table_size: 4096,
            enable_push: true,
            max_concurrent_streams: None,
            initial_window_size: 65535,
            max_frame_size: 16384,
            max_header_list_size: None,
        }
    }
}

/// Applies one setting; unknown identifiers are ignored.
pub open spec fn apply_setting(st: Settings, id: u16, value: u32) -> Result<Settings, Http2ParseError> {
    if id == 1 {
        Ok(Settings { header_table_size: value, ..st })
    } else if id == 2 {
        if value > 1 {
            Err(Http2ParseError::ConnectionError(ErrorCode::ProtocolError))
        } else {
            Ok(Settings { enable_push: value == 1, ..st })
        }
    } else if id == 3 {
        Ok(Settings { max_concurrent_streams: Some(value), ..st })
    } else if id == 4 {
        if value > 2147483647 {
            Err(Http2ParseError::ConnectionError(ErrorCode::FlowControlError))
        } else {
            Ok(Settings { initial_window_size: value, ..st })
        }
    } else if id == 5 {
        if value < 16384 || value > 16777215 {
            Err(Http2ParseError::ConnectionError(ErrorCode::ProtocolError))
        } else {
            Ok(Settings { max_frame_size: value, ..st })
        }
    } else if id == 6 {
        Ok(Settings { max_header_list_size: Some(value), ..st })
    } else {
        Ok(st)
    }
}

/// Applies the settings of `list` from index `i` on, in order.
pub open spec fn apply_settings_from(st: Settings, list: Seq<(u16, u32)>, i: int) -> Result<
    Settings,
    Http2ParseError,
>
    decreases list.len() - i,
{
    if i < 0 || i >= list.len() {
        Ok(st)
    } else {
        match apply_setting(st, list[i].0, list[i].1) {
            Err(e) => Err(e),
            Ok(next) => apply_settings_from(next, list, i + 1),
        }
    }
}

/// The (identifier, value) pairs of a SETTINGS payload, six bytes each.
pub open spec fn settings_list(p: Seq<u8>) -> Seq<(u16, u32)> {
    Seq::new(
        p.len() / 6,
        |i: int|
            (
                ((p[6 * i] as u16) * 256 + (p[6 * i + 1] as u16)) as u16,
                ((p[6 * i + 2] as u32) * 16777216 + (p[6 * i + 3] as u32) * 65536 + (p[6 * i + 4] as u32)
                    * 256 + (p[6 * i + 5] as u32)) as u32,
            ),
    )
}

/// The header block fragment of a HEADERS payload: after the pad length and
/// priority fields that its flags announce, before the padding.
pub open spec fn headers_fragment(p: Seq<u8>, flags: u8) -> Result<Seq<u8>, Http2ParseError> {
    let padded = flags & 8u8 != 0;
    let prio = flags & 32u8 != 0;
    if padded && p.len() == 0 {
        Err(Http2ParseError::InvalidPadding)
    } else {
        let pad: int = if padded { p[0] as int } else { 0 };
        let off: int = if padded { 1 } else { 0 };
        if prio && p.len() < off + 5 {
            Err(Http2ParseError::InvalidPriority)
        } else {
            let start = if prio { off + 5 } else { off };
            if p.len() < start + pad {
                Err(Http2ParseError::InvalidPadding)
            } else {
                Ok(p.subrange(start, p.len() - pad))
            }
        }
    }
}

/// The data of a DATA payload: after the pad length, before the padding; a
/// pad length that is not below the payload length is an error.
pub open spec fn data_of(p: Seq<u8>, flags: u8) -> Result<Seq<u8>, Http2ParseError> {
    if flags & 8u8 != 0 {
        if p.len() == 0 || p[0] as int >= p.len() {
            Err(Http2ParseError::ConnectionError(ErrorCode::ProtocolError))
        } else {
            Ok(p.subrange(1, p.len() - p[0] as int))
        }
    } else {
        Ok(p)
    }
}

/// A big-endian 32-bit value at `i`.
pub open spec fn be32(p: Seq<u8>, i: int) -> u32 {
    ((p[i] as u32) * 16777216 + (p[i + 1] as u32) * 65536 + (p[i + 2] as u32) * 256 + (p[i + 3] as u32)) as u32
}

fn read_be32(p: &[u8], i: usize) -> (r: u32)
    requires
        i + 4 <= p@.len(),
    ensures
        r == be32(p@, i as int),
{
    (p[i] as u32) * 16777216 + (p[i + 1] as u32) * 65536 + (p[i + 2] as u32) * 256 + (p[i + 3] as u32)
}

/// HTTP/2 frame parser: the peer's settings and the HPACK decoder.
pub struct Http2Parser {
    settings: Settings,
    hpack_decoder: HpackDecoder,
    max_frame_size: u32,
    max_header_block: usize,
}

impl Http2Parser {
    /// The decoder is well formed and the frame limit follows the settings.
    pub closed spec fn wf(&self) -> bool {
        self.hpack_decoder.wf() && self.max_frame_size == self.settings.max_frame_size
    }

    /// The largest header block accepted, in bytes.
    pub closed spec fn header_block_limit(&self) -> usize {
        self.max_header_block
    }

    /// The largest header block accepted, in bytes.
    pub fn max_header_block(&self) -> (r: usize)
        ensures
            r == self.header_block_limit(),
    {
        self.max_header_block
    }

    /// Sets the largest header block accepted.
    pub fn set_header_block_limit(&mut self, limit: usize)
        requires
            old(self).wf(),
        ensures
            final(self).wf(),
            final(self).header_block_limit() == limit,
            final(self).peer_settings() == old(self).peer_settings(),
            final(self).decoder() == old(self).decoder(),
    {
        self.max_header_block = limit;
    }

    /// The settings received so far.
    pub closed spec fn peer_settings(&self) -> Settings {
        self.settings
    }

    /// The settings received so far.
    pub fn settings(&self) -> (r: Settings)
        ensures
            r == self.peer_settings(),
    {
        self.settings
    }

    /// The HPACK decoder's state.
    pub closed spec fn decoder(&self) -> DecoderView {
        self.hpack_decoder@
    }

    /// Default settings and an empty 4096-byte header table.
    pub fn new() -> (r: Self)
        ensures
            r.wf(),
            r.peer_settings() == default_settings(),
            r.decoder().table.len() == 0,
            r.decoder().max_size == 4096,
            r.header_block_limit() == 8192,
    {
        let settings = Settings::default();
        Http2Parser {
            hpack_decoder: HpackDecoder::new(4096),
            max_frame_size: settings.max_frame_size,
            max_header_block: 8192,
            settings,
        }
    }

    /// `Ok(true)` when `input` starts with the preface, `Ok(false)` when it is
    /// shorter than the preface, an error otherwise.
    pub fn check_preface(&self, input: &[u8]) -> (r: Result<bool, Http2ParseError>)
        ensures
            r == if input@.len() < 24 {
                Ok::<bool, Http2ParseError>(false)
            } else if input@.take(24) == preface() {
                Ok(true)
            } else {
                Err(Http2ParseError::InvalidPreface)
            },
    {
        if input.len() < 24 {
            return Ok(false);
        }
        let p = connection_preface();
        if crate::http1::bytes_equal(slice_subrange(input, 0, 24), p.as_slice()) {
            Ok(true)
        } else {
            Err(Http2ParseError::InvalidPreface)
        }
    }

    /// Parses the 9-byte frame header at the start of `input`.
    pub fn parse_frame_header(&self, input: &[u8]) -> (r: Result<FrameHeader, Http2ParseError>)
        requires
            self.wf(),
        ensures
            r == frame_header_of(input@, self.peer_settings().max_frame_size),
    {
        if input.len() < 9 {
            return Err(Http2ParseError::IncompleteFrame);
        }
        let length = (input[0] as u32) * 65536 + (input[1] as u32) * 256 + (input[2] as u32);
        if length > self.max_frame_size {
            return Err(Http2ParseError::InvalidFrameSize);
        }
        let frame_type = match FrameType::try_from(input[3]) {
            Ok(t) => t,
            Err(e) => {
                return Err(e);
            },
        };
        let flags = FrameFlags(input[4]);
        let raw5 = input[5];
        let b5 = raw5 & 127u8;
        assert(b5 <= 127u8) by (bit_vector)
            requires
                b5 == raw5 & 127u8,
        ;
        let stream_id = (b5 as u32) * 16777216 + (input[6] as u32) * 65536 + (input[7] as u32) * 256
            + (input[8] as u32);
        Ok(FrameHeader { length, frame_type, flags, stream_id })
    }

    /// Parses a whole frame; returns it and the number of bytes it takes.
    pub fn parse_frame(&self, input: &[u8]) -> (r: Result<(Frame, usize), Http2ParseError>)
        requires
            self.wf(),
        ensures
            match r {
                Ok((f, n)) => frame_header_of(input@, self.peer_settings().max_frame_size) == Ok::<
                    FrameHeader,
                    Http2ParseError,
                >(f.header) && n == 9 + f.header.length && n <= input@.len() && f.payload@
                    == input@.subrange(9, n as int),
                Err(e) => match frame_header_of(input@, self.peer_settings().max_frame_size) {
                    Ok(h) => e == Http2ParseError::IncompleteFrame && input@.len() < 9 + h.length,
                    Err(e2) => e == e2,
                },
            },
    {
        let header = match self.parse_frame_header(input) {
            Ok(h) => h,
            Err(e) => {
                return Err(e);
            },
        };
        let total = 9 + header.length as usize;
        if input.len() < total {
            return Err(Http2ParseError::IncompleteFrame);
        }
        let mut payload: Vec<u8> = Vec::new();
        crate::http1::append_bytes(&mut payload, slice_subrange(input, 9, total));
        assert(payload@ =~= input@.subrange(9, total as int));
        Ok((Frame { header, payload }, total))
    }

    /// Splits a SETTINGS payload into (identifier, value) pairs.
    pub fn parse_settings(&self, payload: &[u8]) -> (r: Result<Vec<(u16, u32)>, Http2ParseError>)
        ensures
            match r {
                Ok(v) => payload@.len() % 6 == 0 && v@ == settings_list(payload@),
                Err(e) => payload@.len() % 6 != 0 && e == Http2ParseError::InvalidSettings,
            },
    {
        if payload.len() % 6 != 0 {
            return Err(Http2ParseError::InvalidSettings);
        }
        let mut settings: Vec<(u16, u32)> = Vec::new();
        let mut i: usize = 0;
        let plen = payload.len();
        let n = plen / 6;
        while i < n
            invariant
                plen == payload@.len(),
                n == payload@.len() / 6,
                payload@.len() % 6 == 0,
                i <= n,
                settings@ == settings_list(payload@).take(i as int),
            decreases n - i,
        {
            assert(6 * i + 6 <= plen) by (nonlinear_arith)
                requires
                    i < n,
                    n == plen / 6,
            ;
            let o = 6 * i;
            let id = (payload[o] as u16) * 256 + (payload[o + 1] as u16);
            let value = read_be32(payload, o + 2);
            settings.push((id, value));
            i = i + 1;
            assert(settings@ =~= settings_list(payload@).take(i as int));
        }
        assert(settings_list(payload@).take(n as int) =~= settings_list(payload@));
        Ok(settings)
    }

    /// Decodes the header block of a HEADERS payload.
    pub fn parse_headers(&mut self, payload: &[u8], flags: FrameFlags) -> (r: Result<
        Vec<(Vec<u8>, Vec<u8>)>,
        Http2ParseError,
    >)
        requires
            old(self).wf(),
        ensures
            final(self).wf(),
            final(self).peer_settings() == old(self).peer_settings(),
            final(self).header_block_limit() == old(self).header_block_limit(),
            match headers_fragment(payload@, flags.0) {
                Err(e) => r == Err::<Vec<(Vec<u8>, Vec<u8>)>, Http2ParseError>(e) && final(self).decoder()
                    == old(self).decoder(),
                Ok(block) => if block.len() > old(self).header_block_limit() {
                    r == Err::<Vec<(Vec<u8>, Vec<u8>)>, Http2ParseError>(
                        Http2ParseError::ConnectionError(ErrorCode::EnhanceYourCalm),
                    ) && final(self).decoder() == old(self).decoder()
                } else {
                    match r {
                    Ok(hs) => block_of(old(self).decoder(), block, 0, seq![]) == Ok::<
                        (Seq<(Seq<u8>, Seq<u8>)>, DecoderView),
                        Http2ParseError,
                    >((headers_seq(hs@), final(self).decoder())),
                    Err(e) => block_of(old(self).decoder(), block, 0, seq![]) == Err::<
                        (Seq<(Seq<u8>, Seq<u8>)>, DecoderView),
                        Http2ParseError,
                    >(e),
                    }
                },
            },
    {
        let len = payload.len();
        let padded = flags.has(8u8);
        let prio = flags.has(32u8);
        if padded && len == 0 {
            return Err(Http2ParseError::InvalidPadding);
        }
        let pad: usize = if padded {
            payload[0] as usize
        } else {
            0
        };
        let off: usize = if padded {
            1
        } else {
            0
        };
        if prio && len < off + 5 {
            return Err(Http2ParseError::InvalidPriority);
        }
        let start = if prio {
            off + 5
        } else {
            off
        };
        if len < start + pad {
            return Err(Http2ParseError::InvalidPadding);
        }
        let block = slice_subrange(payload, start, len - pad);
        if block.len() > self.max_header_block {
            return Err(Http2ParseError::ConnectionError(ErrorCode::EnhanceYourCalm));
        }
        self.hpack_decoder.decode(block)
    }


    /// The header block fragment of a HEADERS payload.
    pub fn header_fragment(&self, payload: &[u8], flags: FrameFlags) -> (r: Result<Vec<u8>, Http2ParseError>)
        ensures
            match headers_fragment(payload@, flags.0) {
                Ok(b) => r is Ok && r.unwrap()@ == b,
                Err(e) => r == Err::<Vec<u8>, Http2ParseError>(e),
            },
    {
        let len = payload.len();
        let padded = flags.has(8u8);
        let prio = flags.has(32u8);
        if padded && len == 0 {
            return Err(Http2ParseError::InvalidPadding);
        }
        let pad: usize = if padded {
            payload[0] as usize
        } else {
            0
        };
        let off: usize = if padded {
            1
        } else {
            0
        };
        if prio && len < off + 5 {
            return Err(Http2ParseError::InvalidPriority);
        }
        let start = if prio {
            off + 5
        } else {
            off
        };
        if len < start + pad {
            return Err(Http2ParseError::InvalidPadding);
        }
        let mut out: Vec<u8> = Vec::new();
        crate::http1::append_bytes(&mut out, slice_subrange(payload, start, len - pad));
        assert(out@ =~= headers_fragment(payload@, flags.0)->Ok_0);
        Ok(out)
    }

    /// Decodes a complete header block.
    pub fn decode_block(&mut self, block: &[u8]) -> (r: Result<Vec<(Vec<u8>, Vec<u8>)>, Http2ParseError>)
        requires
            old(self).wf(),
        ensures
            final(self).wf(),
            final(self).peer_settings() == old(self).peer_settings(),
            final(self).header_block_limit() == old(self).header_block_limit(),
            block@.len() > old(self).header_block_limit() ==> r == Err::<Vec<(Vec<u8>, Vec<u8>)>, Http2ParseError>(
                Http2ParseError::ConnectionError(ErrorCode::EnhanceYourCalm),
            ) && final(self).decoder() == old(self).decoder(),
            block@.len() <= old(self).header_block_limit() ==> match r {
                Ok(hs) => block_of(old(self).decoder(), block@, 0, seq![]) == Ok::<
                    (Seq<(Seq<u8>, Seq<u8>)>, DecoderView),
                    Http2ParseError,
                >((headers_seq(hs@), final(self).decoder())),
                Err(e) => block_of(old(self).decoder(), block@, 0, seq![]) == Err::<
                    (Seq<(Seq<u8>, Seq<u8>)>, DecoderView),
                    Http2ParseError,
                >(e),
            },
    {
        if block.len() > self.max_header_block {
            return Err(Http2ParseError::ConnectionError(ErrorCode::EnhanceYourCalm));
        }
        self.hpack_decoder.decode(block)
    }

    /// Applies received settings in order; stops at the first invalid one.
    pub fn update_settings(&mut self, new_settings: &[(u16, u32)]) -> (r: Result<(), Http2ParseError>)
        requires
            old(self).wf(),
        ensures
            final(self).wf(),
            final(self).decoder() == old(self).decoder(),
            final(self).header_block_limit() == old(self).header_block_limit(),
            match apply_settings_from(old(self).peer_settings(), new_settings@, 0) {
                Ok(st) => r == Ok::<(), Http2ParseError>(()) && final(self).peer_settings() == st,
                Err(e) => r == Err::<(), Http2ParseError>(e),
            },
    {
        let mut i: usize = 0;
        while i < new_settings.len()
            invariant
                i <= new_settings@.len(),
                self.wf(),
                self.decoder() == old(self).decoder(),
                self.header_block_limit() == old(self).header_block_limit(),
                apply_settings_from(old(self).peer_settings(), new_settings@, 0) == apply_settings_from(
                    self.settings,
                    new_settings@,
                    i as int,
                ),
            decreases new_settings@.len() - i,
        {
            let (id, value) = new_settings[i];
            if id == 1 {
                self.settings.header_table_size = value;
            } else if id == 2 {
                if value > 1 {
                    return Err(Http2ParseError::ConnectionError(ErrorCode::ProtocolError));
                }
                self.settings.enable_push = value == 1;
            } else if id == 3 {
                self.settings.max_concurrent_streams = Some(value);
            } else if id == 4 {
                if value > 2147483647 {
                    return Err(Http2ParseError::ConnectionError(ErrorCode::FlowControlError));
                }
                self.settings.initial_window_size = value;
            } else if id == 5 {
                if value < 16384 || value > 16777215 {
                    return Err(Http2ParseError::ConnectionError(ErrorCode::ProtocolError));
                }
                self.settings.max_frame_size = value;
                self.max_frame_size = value;
            } else if id == 6 {
                self.settings.max_header_list_size = Some(value);
            }
            i = i + 1;
        }
        Ok(())
    }

    /// The data carried by a DATA frame.
    pub fn parse_data(&self, header: &FrameHeader, payload: &[u8]) -> (r: Result<Vec<u8>, Http2ParseError>)
        ensures
            header.stream_id == 0 ==> r == Err::<Vec<u8>, Http2ParseError>(
                Http2ParseError::ConnectionError(ErrorCode::ProtocolError),
            ),
            header.stream_id != 0 ==> match data_of(payload@, header.flags.0) {
                Ok(d) => r is Ok && r.unwrap()@ == d,
                Err(e) => r == Err::<Vec<u8>, Http2ParseError>(e),
            },
    {
        if header.stream_id == 0 {
            return Err(Http2ParseError::ConnectionError(ErrorCode::ProtocolError));
        }
        let len = payload.len();
        let mut out: Vec<u8> = Vec::new();
        if header.flags.has(8u8) {
            if len == 0 || payload[0] as usize >= len {
                return Err(Http2ParseError::ConnectionError(ErrorCode::ProtocolError));
            }
            crate::http1::append_bytes(&mut out, slice_subrange(payload, 1, len - payload[0] as usize));
        } else {
            crate::http1::append_bytes(&mut out, payload);
        }
        assert(out@ =~= data_of(payload@, header.flags.0)->Ok_0);
        Ok(out)
    }

    /// The increment carried by a WINDOW_UPDATE frame (reserved bit cleared).
    pub fn parse_window_update(&self, payload: &[u8]) -> (r: Result<u32, Http2ParseError>)
        ensures
            payload@.len() != 4 ==> r == Err::<u32, Http2ParseError>(
                Http2ParseError::ConnectionError(ErrorCode::FrameSizeError),
            ),
            payload@.len() == 4 ==> {
                let d = (be32(payload@, 0) % 2147483648) as u32;
                if d == 0 {
                    r == Err::<u32, Http2ParseError>(
                        Http2ParseError::ConnectionError(ErrorCode::ProtocolError),
                    )
                } else {
                    r == Ok::<u32, Http2ParseError>(d)
                }
            },
    {
        if payload.len() != 4 {
            return Err(Http2ParseError::ConnectionError(ErrorCode::FrameSizeError));
        }
        let d = read_be32(payload, 0) % 2147483648;
        if d == 0 {
            return Err(Http2ParseError::ConnectionError(ErrorCode::ProtocolError));
        }
        Ok(d)
    }

    /// The error code carried by an RST_STREAM frame.
    pub fn parse_rst_stream(&self, header: &FrameHeader, payload: &[u8]) -> (r: Result<u32, Http2ParseError>)
        ensures
            r == if header.stream_id == 0 {
                Err::<u32, Http2ParseError>(Http2ParseError::ConnectionError(ErrorCode::ProtocolError))
            } else if payload@.len() != 4 {
                Err(Http2ParseError::ConnectionError(ErrorCode::FrameSizeError))
            } else {
                Ok(be32(payload@, 0))
            },
    {
        if header.stream_id == 0 {
            return Err(Http2ParseError::ConnectionError(ErrorCode::ProtocolError));
        }
        if payload.len() != 4 {
            return Err(Http2ParseError::ConnectionError(ErrorCode::FrameSizeError));
        }
        Ok(read_be32(payload, 0))
    }

    /// Checks a PING frame: eight bytes on stream 0.
    pub fn check_ping(&self, header: &FrameHeader, payload: &[u8]) -> (r: Result<(), Http2ParseError>)
        ensures
            r == if header.stream_id != 0 {
                Err::<(), Http2ParseError>(Http2ParseError::ConnectionError(ErrorCode::ProtocolError))
            } else if payload@.len() != 8 {
                Err(Http2ParseError::ConnectionError(ErrorCode::FrameSizeError))
            } else {
                Ok(())
            },
    {
        if header.stream_id != 0 {
            return Err(Http2ParseError::ConnectionError(ErrorCode::ProtocolError));
        }
        if payload.len() != 8 {
            return Err(Http2ParseError::ConnectionError(ErrorCode::FrameSizeError));
        }
        Ok(())
    }

    /// The last stream id and error code of a GOAWAY frame.
    pub fn parse_goaway(&self, payload: &[u8]) -> (r: Result<(u32, u32), Http2ParseError>)
        ensures
            r == if payload@.len() < 8 {
                Err::<(u32, u32), Http2ParseError>(
                    Http2ParseError::ConnectionError(ErrorCode::FrameSizeError),
                )
            } else {
                Ok(((be32(payload@, 0) % 2147483648) as u32, be32(payload@, 4)))
            },
    {
        if payload.len() < 8 {
            return Err(Http2ParseError::ConnectionError(ErrorCode::FrameSizeError));
        }
        Ok((read_be32(payload, 0) % 2147483648, read_be32(payload, 4)))
    }

    /// Checks a SETTINGS frame header: stream 0, and no payload with ACK.
    pub fn check_settings_frame(&self, header: &FrameHeader) -> (r: Result<(), Http2ParseError>)
        ensures
            r == if header.stream_id != 0 {
                Err::<(), Http2ParseError>(Http2ParseError::ConnectionError(ErrorCode::ProtocolError))
            } else if header.flags.0 & 1u8 != 0 && header.length != 0 {
                Err(Http2ParseError::ConnectionError(ErrorCode::FrameSizeError))
            } else if header.length % 6 != 0 {
                Err(Http2ParseError::ConnectionError(ErrorCode::FrameSizeError))
            } else {
                Ok(())
            },
    {
        if header.stream_id != 0 {
            return Err(Http2ParseError::ConnectionError(ErrorCode::ProtocolError));
        }
        if header.flags.has(1u8) && header.length != 0 {
            return Err(Http2ParseError::ConnectionError(ErrorCode::FrameSizeError));
        }
        if header.length % 6 != 0 {
            return Err(Http2ParseError::ConnectionError(ErrorCode::FrameSizeError));
        }
        Ok(())
    }
}

/// Writes frames.
pub struct Http2FrameBuilder {
    buffer: Vec<u8>,
}

impl Http2FrameBuilder {
    /// The bytes written so far.
    pub closed spec fn written(&self) -> Seq<u8> {
        self.buffer@
    }

    pub fn new() -> (r: Self)
        ensures
            r.written() == Seq::<u8>::empty(),
    {
        Http2FrameBuilder { buffer: Vec::new() }
    }

    /// Writes a frame header.
    pub fn header(&mut self, frame_type: FrameType, flags: u8, stream_id: u32, length: u32)
        ensures
            final(self).written() == old(self).written() + header_bytes(
                frame_type_code(frame_type),
                flags,
                stream_id,
                length,
            ),
    {
        let ghost before = self.buffer@;
        self.buffer.push(((length / 65536) % 256) as u8);
        self.buffer.push(((length / 256) % 256) as u8);
        self.buffer.push((length % 256) as u8);
        self.buffer.push(frame_type.code());
        self.buffer.push(flags);
        self.buffer.push(((stream_id / 16777216) % 128) as u8);
        self.buffer.push(((stream_id / 65536) % 256) as u8);
        self.buffer.push(((stream_id / 256) % 256) as u8);
        self.buffer.push((stream_id % 256) as u8);
        assert(self.buffer@ =~= before + header_bytes(frame_type_code(frame_type), flags, stream_id, length));
    }

    /// Appends payload bytes.
    pub fn payload(&mut self, data: &[u8])
        ensures
            final(self).written() == old(self).written() + data@,
    {
        crate::http1::append_bytes(&mut self.buffer, data);
    }

    /// The frame bytes.
    pub fn build(self) -> (r: Vec<u8>)
        ensures
            r@ == self.written(),
    {
        self.buffer
    }

    /// A SETTINGS frame on stream 0 carrying `settings` in order.
    pub fn settings_frame(settings: &[(u16, u32)]) -> (r: Vec<u8>)
        requires
            settings@.len() * 6 < 16777216,
        ensures
            r@.len() == 9 + 6 * settings@.len(),
            r@.take(9) == header_bytes(4, 0, 0, (6 * settings@.len()) as u32),
            settings_list(r@.skip(9)) == settings@,
    {
        let mut payload: Vec<u8> = Vec::new();
        let mut i: usize = 0;
        while i < settings.len()
            invariant
                i <= settings@.len(),
                settings@.len() * 6 < 16777216,
                payload@.len() == 6 * i,
                settings_list(payload@) == settings@.take(i as int),
            decreases settings@.len() - i,
        {
            let (id, value) = settings[i];
            let ghost before = payload@;
            payload.push((id / 256) as u8);
            payload.push((id % 256) as u8);
            payload.push(((value / 16777216) % 256) as u8);
            payload.push(((value / 65536) % 256) as u8);
            payload.push(((value / 256) % 256) as u8);
            payload.push((value % 256) as u8);
            proof {
                assert(id == ((id / 256) as u8 as u16) * 256 + ((id % 256) as u8 as u16));
                assert(value == (((value / 16777216) % 256) as u8 as u32) * 16777216 + (((value / 65536)
                    % 256) as u8 as u32) * 65536 + (((value / 256) % 256) as u8 as u32) * 256 + ((value
                    % 256) as u8 as u32));
                assert(settings_list(payload@) =~= settings@.take(i as int + 1)) by {
                    assert forall|k: int| 0 <= k < i implies settings_list(payload@)[k] == settings_list(
                        before,
                    )[k] by {}
                }
            }
            i = i + 1;
        }
        assert(settings@.take(settings@.len() as int) =~= settings@);
        let mut b = Http2FrameBuilder::new();
        b.header(FrameType::Settings, 0, 0, payload.len() as u32);
        b.payload(payload.as_slice());
        let r = b.build();
        assert(r@.take(9) =~= header_bytes(4, 0, 0, (6 * settings@.len()) as u32));
        assert(r@.skip(9) =~= payload@);
        r
    }
}

} // verus!
