use angelax::huffman::{raw_code, validate_lut, LutGenerator, STATE_CONTINUE_LUT, STATE_EOS_DECODED};

#[test]
fn test_single_symbol_decoding() {
    let generator = LutGenerator::new();
    let pattern = 0b00000000;
    let entry = generator.decode_pattern(pattern);
    assert_eq!(entry.num_decoded, 1);
    assert_eq!(entry.symbols[0], 48);
    assert_eq!(entry.bits_consumed, 5);
}

#[test]
fn test_lut_generation() {
    let generator = LutGenerator::new();
    let lut = generator.generate_lut();
    assert_eq!(lut.len(), 256);
    validate_lut(&lut).expect("Generated LUT should be valid");
}

#[test]
fn test_eos_handling() {
    let generator = LutGenerator::new();
    let lut = generator.generate_lut();
    for entry in &lut {
        assert_ne!(entry.next_decoder_state_id, STATE_EOS_DECODED);
    }
}

#[test]
fn test_format_output() {
    let generator = LutGenerator::new();
    let lut = generator.generate_lut();
    let code = generator.format_lut_as_rust_code(&lut);
    assert!(code.contains("pub const DECODING_LUT"));
    assert!(code.contains("LutEntry {"));
    assert!(code.contains("STATE_CONTINUE_LUT"));
    assert!(code.contains("// Pattern: 0b11111111\n"));
}

#[test]
fn lut_entries_for_known_patterns() {
    let generator = LutGenerator::new();
    // 'a' is 00011 (5 bits): followed by 111 it is one symbol and 5 bits.
    let e = generator.decode_pattern(0b00011111);
    assert_eq!((e.num_decoded, e.symbols[0], e.bits_consumed), (1, b'a', 5));
    assert_eq!(e.next_decoder_state_id, STATE_CONTINUE_LUT);
    // Eight one-bits complete no code: a continuation state is reported.
    let e = generator.decode_pattern(0xff);
    assert_eq!((e.num_decoded, e.bits_consumed), (0, 8));
    assert_eq!(e.next_decoder_state_id, 256 + 255);
    assert!(validate_lut(&lut_short()).is_err());
}

fn lut_short() -> Vec<angelax::huffman::LutEntry> {
    LutGenerator::new().generate_lut().into_iter().take(10).collect()
}

#[test]
fn raw_codes_match_the_table() {
    let eos = raw_code(256);
    assert_eq!((eos.code, eos.bits), (0x3fffffff, 30));
    let zero = raw_code(48);
    assert_eq!((zero.code, zero.bits), (0, 5));
    let c249 = raw_code(249);
    assert_eq!((c249.code, c249.bits), (0xffffffe, 28));
}

#[test]
fn fsm_states_cover_inner_nodes() {
    let generator = LutGenerator::new();
    let states = generator.build_fsm_states();
    // All 30 nodes of depth 1 to 4 are inner: the shortest codes have 5 bits.
    assert_eq!(states.iter().filter(|s| s.len <= 4).count(), 2 + 4 + 8 + 16);
    for s in &states {
        assert_eq!(s.id, (1u32 << s.len) | s.code);
        assert!(s.id < 1000);
    }
    // From 0000 a zero bit completes '0' (00000), a one bit completes '1'.
    let s = states.iter().find(|s| s.len == 4 && s.code == 0).unwrap();
    assert_eq!(s.on_zero, (0, Some(48)));
    assert_eq!(s.on_one, (0, Some(49)));
    assert_eq!(generator.follow_bit_from_path(1, 1, 1), ((1 << 2) | 3, None));
}

#[test]
fn validate_lut_names_the_problem() {
    let mut lut = LutGenerator::new().generate_lut();
    lut[7].bits_consumed = 9;
    lut[9].num_decoded = 3;
    assert_eq!(validate_lut(&lut), Err(7));
    assert_eq!(validate_lut(&lut[..10]), Err(10));
}
