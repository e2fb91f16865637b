use angelax::hpack::HpackDecoder;
use angelax::http2::{connection_preface, FrameFlags, FrameType, Http2FrameBuilder, Http2ParseError, Http2Parser, ErrorCode};
use angelax::huffman::{huffman_decode, HuffmanDecoder};

#[test]
fn test_frame_header_parsing() {
    let parser = Http2Parser::new();
    let header_bytes = [0x00, 0x00, 0x08, 0x00, 0x01, 0x00, 0x00, 0x00, 0x01];
    let header = parser.parse_frame_header(&header_bytes).unwrap();
    assert_eq!(header.length, 8);
    assert_eq!(header.frame_type, FrameType::Data);
    assert!(header.flags.has(FrameFlags::END_STREAM));
    assert_eq!(header.stream_id, 1);
}

#[test]
fn frame_header_reserved_bit_and_size_limit() {
    let parser = Http2Parser::new();
    let h = parser.parse_frame_header(&[0x00, 0x40, 0x00, 0x00, 0x00, 0x80, 0x00, 0x00, 0x03]).unwrap();
    assert_eq!(h.length, 16384);
    assert_eq!(h.stream_id, 3);
    let too_big = parser.parse_frame_header(&[0x00, 0x40, 0x01, 0x00, 0x00, 0x00, 0x00, 0x00, 0x01]);
    assert_eq!(too_big, Err(Http2ParseError::InvalidFrameSize));
    assert_eq!(parser.parse_frame_header(&[0, 0, 0]), Err(Http2ParseError::IncompleteFrame));
}

#[test]
fn test_connection_preface() {
    let parser = Http2Parser::new();
    assert!(parser.check_preface(&connection_preface()).unwrap());
    assert!(!parser.check_preface(b"Invalid preface").unwrap());
    assert!(!parser.check_preface(b"PRI").unwrap());
    assert_eq!(parser.check_preface(b"PRI * HTTP/2.0\r\n\r\nXX\r\n\r\n"), Err(Http2ParseError::InvalidPreface));
}

#[test]
fn test_settings_parsing() {
    let parser = Http2Parser::new();
    let settings_payload = [0x00, 0x03, 0x00, 0x00, 0x00, 0x64, 0x00, 0x04, 0x00, 0x01, 0x00, 0x00];
    let settings = parser.parse_settings(&settings_payload).unwrap();
    assert_eq!(settings.len(), 2);
    assert_eq!(settings[0], (3, 100));
    assert_eq!(settings[1], (4, 65536));
    assert_eq!(parser.parse_settings(&[0, 1, 2]), Err(Http2ParseError::InvalidSettings));
}

#[test]
fn settings_are_applied_and_checked() {
    let mut parser = Http2Parser::new();
    parser.update_settings(&[(3, 100), (4, 65536), (99, 7)]).unwrap();
    assert_eq!(parser.settings().max_concurrent_streams, Some(100));
    assert_eq!(parser.settings().initial_window_size, 65536);
    assert_eq!(parser.update_settings(&[(5, 100)]), Err(Http2ParseError::ConnectionError(ErrorCode::ProtocolError)));
    assert_eq!(parser.update_settings(&[(4, 2147483648)]), Err(Http2ParseError::ConnectionError(ErrorCode::FlowControlError)));
    assert_eq!(parser.update_settings(&[(2, 2)]), Err(Http2ParseError::ConnectionError(ErrorCode::ProtocolError)));
    parser.update_settings(&[(5, 16777215)]).unwrap();
    assert!(parser.parse_frame_header(&[0xFF, 0xFF, 0xFF, 0, 0, 0, 0, 0, 1]).is_ok());
}

#[test]
fn test_frame_builder() {
    let mut builder = Http2FrameBuilder::new();
    builder.header(FrameType::Data, FrameFlags::END_STREAM, 1, 5);
    builder.payload(b"Hello");
    let frame = builder.build();
    assert_eq!(frame.len(), 14);
    assert_eq!(&frame[9..], b"Hello");
}

#[test]
fn test_settings_frame_builder() {
    let settings = vec![(1, 4096), (3, 100)];
    let frame = Http2FrameBuilder::settings_frame(&settings);
    assert_eq!(frame.len(), 21);
    assert_eq!(frame[3], FrameType::Settings.code());
    let parser = Http2Parser::new();
    assert_eq!(parser.parse_settings(&frame[9..]).unwrap(), settings);
}

#[test]
fn test_hpack_integer_decoding() {
    let decoder = HpackDecoder::new(4096);
    assert_eq!(decoder.decode_integer(&[0x0A], 5).unwrap(), 10);
    let multi_byte = [0x1F, 0x9A, 0x0A];
    assert_eq!(decoder.decode_integer(&multi_byte, 5).unwrap(), 1337);
}

#[test]
fn hpack_integer_takes_three_bytes() {
    let decoder = HpackDecoder::new(4096);
    assert_eq!(decoder.decode_integer_len(&[0x1F, 0x9A, 0x0A], 5).unwrap(), (1337, 3));
    assert_eq!(decoder.decode_integer_len(&[0x1F, 0xE1, 0x03], 5).unwrap(), (31 + 97 + 3 * 128, 3));
    assert!(decoder.decode_integer_len(&[0x1F, 0xE1], 5).is_err());
    assert!(decoder.decode_integer_len(&[0x1F, 0x80, 0x80, 0x80, 0x80, 0x80, 0x01], 5).is_err());
    assert_eq!(decoder.decode_integer_len(&[0x1F, 0x80, 0x80, 0x80, 0x80, 0x01], 5).unwrap(), (31 + (1u64 << 28), 6));
}

#[test]
fn test_frame_type_conversion() {
    assert_eq!(FrameType::try_from(0x0).unwrap(), FrameType::Data);
    assert_eq!(FrameType::try_from(0x1).unwrap(), FrameType::Headers);
    assert!(FrameType::try_from(0xFF).is_err());
}

#[test]
fn hpack_literal_with_indexing_enters_table() {
    let mut d = HpackDecoder::new(4096);
    let block = [
        0x40, 0x0a, b'c', b'u', b's', b't', b'o', b'm', b'-', b'k', b'e', b'y', 0x0d, b'c', b'u', b's', b't', b'o',
        b'm', b'-', b'h', b'e', b'a', b'd', b'e', b'r',
    ];
    let hs = d.decode(&block).unwrap();
    assert_eq!(hs, vec![(b"custom-key".to_vec(), b"custom-header".to_vec())]);
    assert_eq!(d.table_size(), 55);
    let again = d.decode(&[0xbe]).unwrap();
    assert_eq!(again, vec![(b"custom-key".to_vec(), b"custom-header".to_vec())]);
}

#[test]
fn hpack_huffman_request_with_static_table() {
    let mut d = HpackDecoder::new(4096);
    let block = [0x82, 0x86, 0x84, 0x41, 0x8c, 0xf1, 0xe3, 0xc2, 0xe5, 0xf2, 0x3a, 0x6b, 0xa0, 0xab, 0x90, 0xf4, 0xff];
    let hs = d.decode(&block).unwrap();
    assert_eq!(
        hs,
        vec![
            (b":method".to_vec(), b"GET".to_vec()),
            (b":scheme".to_vec(), b"http".to_vec()),
            (b":path".to_vec(), b"/".to_vec()),
            (b":authority".to_vec(), b"www.example.com".to_vec()),
        ]
    );
    assert_eq!(d.table_size(), 57);
}

#[test]
fn hpack_errors() {
    let mut d = HpackDecoder::new(4096);
    assert_eq!(d.decode(&[0x80]), Err(Http2ParseError::CompressionError));
    assert_eq!(d.decode(&[0xbe]), Err(Http2ParseError::CompressionError));
    assert_eq!(d.decode(&[0x3f, 0xe2, 0x1f]), Err(Http2ParseError::CompressionError));
    assert!(d.decode(&[0x3f, 0xe1, 0x1f]).is_ok());
}

#[test]
fn hpack_table_stays_within_budget() {
    let mut d = HpackDecoder::new(64);
    for i in 0..10u8 {
        let block = [0x40, 0x01, b'a' + i, 0x01, b'v'];
        d.decode(&block).unwrap();
        assert!(d.table_size() <= 64);
    }
    assert_eq!(d.table_len(), 1);
    let big = [0x40, 0x01, b'n', 0x20, b'x', b'x', b'x', b'x', b'x', b'x', b'x', b'x', b'x', b'x', b'x', b'x', b'x', b'x', b'x', b'x', b'x', b'x', b'x', b'x', b'x', b'x', b'x', b'x', b'x', b'x', b'x', b'x', b'x', b'x', b'x', b'x'];
    d.decode(&big).unwrap();
    assert_eq!(d.table_len(), 0);
    assert_eq!(d.table_size(), 0);
}

fn encode_int(out: &mut Vec<u8>, first: u8, prefix_bits: u32, mut v: u64) {
    let max = (1u64 << prefix_bits) - 1;
    if v < max {
        out.push(first | v as u8);
        return;
    }
    out.push(first | max as u8);
    v -= max;
    while v >= 128 {
        out.push((v % 128) as u8 | 0x80);
        v /= 128;
    }
    out.push(v as u8);
}

fn encode_headers(headers: &[(Vec<u8>, Vec<u8>)]) -> Vec<u8> {
    let mut out = Vec::new();
    for (n, v) in headers {
        encode_int(&mut out, 0x40, 6, 0);
        encode_int(&mut out, 0x00, 7, n.len() as u64);
        out.extend_from_slice(n);
        encode_int(&mut out, 0x00, 7, v.len() as u64);
        out.extend_from_slice(v);
    }
    out
}

#[test]
fn hpack_round_trip_through_reference_encoder() {
    let headers: Vec<(Vec<u8>, Vec<u8>)> = (0..40)
        .map(|i| (format!("x-name-{}", i).into_bytes(), vec![b'v'; i * 7]))
        .collect();
    for table in [0usize, 100, 4096] {
        let mut d = HpackDecoder::new(table);
        let mut decoded = Vec::new();
        for chunk in headers.chunks(7) {
            decoded.extend(d.decode(&encode_headers(chunk)).unwrap());
            assert!(d.table_size() <= table);
        }
        assert_eq!(decoded, headers);
    }
}

#[test]
fn huffman_resumes_across_a_split() {
    let coded = [0xf1, 0xe3, 0xc2, 0xe5, 0xf2, 0x3a, 0x6b, 0xa0, 0xab, 0x90, 0xf4, 0xff];
    for cut in 0..coded.len() {
        let mut d = HuffmanDecoder::new();
        d.feed(&coded[..cut]);
        d.feed(&coded[cut..]);
        assert_eq!(d.finish().unwrap(), b"www.example.com".to_vec());
    }
    assert_eq!(huffman_decode(&coded).unwrap(), b"www.example.com".to_vec());
}

#[test]
fn huffman_rejects_bad_padding_and_eos() {
    assert!(huffman_decode(&[0xf1, 0xe3, 0xc2, 0xe5, 0xf2, 0x3a, 0x6b, 0xa0, 0xab, 0x90, 0xf4, 0xfe]).is_none());
    assert!(huffman_decode(&[0xff, 0xff, 0xff, 0xff]).is_none());
    assert_eq!(huffman_decode(&[]).unwrap(), Vec::<u8>::new());
    assert_eq!(huffman_decode(&[0x07]).unwrap(), b"0".to_vec());
}

#[test]
fn headers_payload_padding_and_priority() {
    let mut parser = Http2Parser::new();
    let payload = [0x02, 0, 0, 0, 0, 0x10, 0x82, 0, 0];
    let hs = parser.parse_headers(&payload, FrameFlags(0x08 | 0x20)).unwrap();
    assert_eq!(hs, vec![(b":method".to_vec(), b"GET".to_vec())]);
    assert_eq!(parser.parse_headers(&[0x05, 0x82], FrameFlags(0x08)), Err(Http2ParseError::InvalidPadding));
    assert_eq!(parser.parse_headers(&[0x82], FrameFlags(0x20)), Err(Http2ParseError::InvalidPriority));
}

#[test]
fn window_update_and_other_frames() {
    let parser = Http2Parser::new();
    assert_eq!(parser.parse_window_update(&[0x80, 0, 0, 0x10]), Ok(16));
    assert_eq!(parser.parse_window_update(&[0x80, 0, 0, 0]), Err(Http2ParseError::ConnectionError(ErrorCode::ProtocolError)));
    let h = parser.parse_frame_header(&[0, 0, 4, 3, 0, 0, 0, 0, 0]).unwrap();
    assert_eq!(parser.parse_rst_stream(&h, &[0, 0, 0, 8]), Err(Http2ParseError::ConnectionError(ErrorCode::ProtocolError)));
    let data = parser.parse_frame_header(&[0, 0, 4, 0, 0x08, 0, 0, 0, 1]).unwrap();
    assert_eq!(parser.parse_data(&data, &[2, b'h', 0, 0]).unwrap(), b"h".to_vec());
    assert!(parser.parse_data(&data, &[4, b'h', 0, 0]).is_err());
    assert_eq!(parser.parse_goaway(&[0x80, 0, 0, 5, 0, 0, 0, 3]), Ok((5, 3)));
}

#[test]
fn header_block_limit_in_parse_headers() {
    let mut parser = Http2Parser::new();
    parser.set_header_block_limit(4);
    let ok = [0x82, 0x86, 0x84, 0x87];
    assert!(parser.parse_headers(&ok, FrameFlags(0x04)).is_ok());
    let over = [0x82, 0x86, 0x84, 0x87, 0x82];
    assert_eq!(parser.parse_headers(&over, FrameFlags(0x04)), Err(Http2ParseError::ConnectionError(ErrorCode::EnhanceYourCalm)));
}
