use rust_websocket::control::is_close_code;
use rust_websocket::mask::apply_mask;
use rust_websocket::wire::{put_u16, put_u64};
use rust_websocket::{Frame, Opcode, ParseResult, ProtocolError};

fn frame(fin: bool, opcode: Opcode, payload: &[u8]) -> Frame {
    Frame { fin, opcode, payload: payload.to_vec() }
}

fn complete(res: ParseResult) -> (Frame, usize) {
    match res {
        ParseResult::Complete(frame, consumed) => (frame, consumed),
        other => panic!("expected a complete frame, got {:?}", other),
    }
}

#[test]
fn opcode_values_match_the_wire_table() {
    assert_eq!(Opcode::Continuation.as_value(), 0);
    assert_eq!(Opcode::Text.as_value(), 1);
    assert_eq!(Opcode::Binary.as_value(), 2);
    assert_eq!(Opcode::Close.as_value(), 8);
    assert_eq!(Opcode::Ping.as_value(), 9);
    assert_eq!(Opcode::Pong.as_value(), 10);
}

#[test]
fn opcode_parse_inverts_as_value() {
    for op in [
        Opcode::Continuation,
        Opcode::Text,
        Opcode::Binary,
        Opcode::Close,
        Opcode::Ping,
        Opcode::Pong,
    ] {
        assert_eq!(Opcode::parse(op.as_value()), Some(op));
    }
}

#[test]
fn opcode_parse_rejects_reserved_values() {
    for val in [3u8, 4, 5, 6, 7, 11, 12, 13, 14, 15, 16, 200, 255] {
        assert_eq!(Opcode::parse(val), None);
    }
}

#[test]
fn control_opcodes_are_close_ping_pong() {
    assert!(Opcode::Close.is_control());
    assert!(Opcode::Ping.is_control());
    assert!(Opcode::Pong.is_control());
    assert!(!Opcode::Continuation.is_control());
    assert!(!Opcode::Text.is_control());
    assert!(!Opcode::Binary.is_control());
}

#[test]
fn server_reads_masked_hello() {
    let bytes = [0x81u8, 0x85, 0x37, 0xFA, 0x21, 0x3D, 0x7F, 0x9F, 0x4D, 0x51, 0x58];
    let (parsed, consumed) = complete(Frame::parse(&bytes, true));
    assert_eq!(parsed, frame(true, Opcode::Text, b"Hello"));
    assert_eq!(consumed, 11);
}

#[test]
fn server_emits_hello() {
    let hello = frame(true, Opcode::Text, b"Hello");
    assert_eq!(hello.encode(), vec![0x81, 0x05, 0x48, 0x65, 0x6C, 0x6C, 0x6F]);
}

#[test]
fn close_round_trip() {
    let close = frame(true, Opcode::Close, &[0x03, 0xE8]);
    let bytes = close.encode();
    assert_eq!(bytes, vec![0x88, 0x02, 0x03, 0xE8]);
    let (parsed, consumed) = complete(Frame::parse(&bytes, false));
    assert_eq!(parsed, close);
    assert_eq!(consumed, 4);
    assert_eq!(parsed.close_code(), Some(1000));
}

#[test]
fn pong_reply_carries_the_ping_payload() {
    let ping = frame(true, Opcode::Ping, b"are you there");
    let pong = ping.reply().expect("a ping calls for a reply");
    assert_eq!(pong, frame(true, Opcode::Pong, b"are you there"));
    assert!(pong.is_valid());
}

#[test]
fn close_reply_echoes_the_status_code() {
    let close = frame(true, Opcode::Close, &[0x03, 0xE9, b'b', b'y', b'e']);
    assert_eq!(close.reply(), Some(frame(true, Opcode::Close, &[0x03, 0xE9])));
    let bare = frame(true, Opcode::Close, &[]);
    assert_eq!(bare.reply(), Some(frame(true, Opcode::Close, &[])));
}

#[test]
fn data_and_pong_frames_call_for_no_reply() {
    assert_eq!(frame(true, Opcode::Text, b"x").reply(), None);
    assert_eq!(frame(true, Opcode::Binary, b"x").reply(), None);
    assert_eq!(frame(false, Opcode::Continuation, b"x").reply(), None);
    assert_eq!(frame(true, Opcode::Pong, b"x").reply(), None);
}

#[test]
fn close_frame_from_code() {
    let close = Frame::close(1000);
    assert_eq!(close, frame(true, Opcode::Close, &[0x03, 0xE8]));
    assert_eq!(Frame::close(4999).close_code(), Some(4999));
    assert_eq!(frame(true, Opcode::Close, &[0x03]).close_code(), None);
}

#[test]
fn close_code_ranges() {
    assert!(is_close_code(1000));
    assert!(is_close_code(1011));
    assert!(!is_close_code(1012));
    assert!(!is_close_code(999));
    assert!(!is_close_code(2999));
    assert!(is_close_code(3000));
    assert!(is_close_code(3999));
    assert!(is_close_code(4000));
    assert!(is_close_code(4999));
    assert!(!is_close_code(5000));
}

#[test]
fn length_125_uses_the_seven_bit_form() {
    let bytes = frame(true, Opcode::Binary, &[7u8; 125]).encode();
    assert_eq!(bytes.len(), 2 + 125);
    assert_eq!(bytes[1], 125);
}

#[test]
fn length_126_uses_the_sixteen_bit_form() {
    let bytes = frame(true, Opcode::Binary, &[7u8; 126]).encode();
    assert_eq!(bytes.len(), 4 + 126);
    assert_eq!(&bytes[..4], &[0x82, 126, 0x00, 0x7E]);
}

#[test]
fn length_65535_uses_the_sixteen_bit_form() {
    let bytes = frame(true, Opcode::Binary, &vec![7u8; 65535]).encode();
    assert_eq!(bytes.len(), 4 + 65535);
    assert_eq!(&bytes[..4], &[0x82, 126, 0xFF, 0xFF]);
}

#[test]
fn length_65536_uses_the_sixty_four_bit_form() {
    let bytes = frame(true, Opcode::Binary, &vec![7u8; 65536]).encode();
    assert_eq!(bytes.len(), 10 + 65536);
    assert_eq!(&bytes[..10], &[0x82, 127, 0, 0, 0, 0, 0, 1, 0, 0]);
}

#[test]
fn masked_encoding_has_the_mask_flag_and_key() {
    let key = [0x37u8, 0xFA, 0x21, 0x3D];
    let bytes = frame(true, Opcode::Text, b"Hello").encode_with_key(&key);
    assert_eq!(bytes, vec![0x81, 0x85, 0x37, 0xFA, 0x21, 0x3D, 0x7F, 0x9F, 0x4D, 0x51, 0x58]);
}

#[test]
fn round_trip_server_to_client() {
    for len in [0usize, 1, 125, 126, 127, 300, 65535, 65536, 70000] {
        let payload: Vec<u8> = (0..len).map(|i| (i % 251) as u8).collect();
        for (fin, opcode) in
            [(true, Opcode::Text), (true, Opcode::Binary), (false, Opcode::Continuation)]
        {
            let sent = Frame { fin, opcode, payload: payload.clone() };
            let bytes = sent.encode();
            let (parsed, consumed) = complete(Frame::parse(&bytes, false));
            assert_eq!(parsed, sent);
            assert_eq!(consumed, bytes.len());
        }
    }
}

#[test]
fn round_trip_client_to_server_with_given_key() {
    let key = [0xA5u8, 0x00, 0xFF, 0x5A];
    for len in [0usize, 1, 3, 4, 5, 125, 126, 65536] {
        let payload: Vec<u8> = (0..len).map(|i| (i * 7 % 256) as u8).collect();
        let sent = Frame { fin: false, opcode: Opcode::Binary, payload };
        let bytes = sent.encode_with_key(&key);
        let (parsed, consumed) = complete(Frame::parse(&bytes, true));
        assert_eq!(parsed, sent);
        assert_eq!(consumed, bytes.len());
    }
}

#[test]
fn round_trip_client_to_server_with_random_key() {
    let sent = frame(true, Opcode::Text, b"masked with whatever key was drawn");
    for _ in 0..16 {
        let bytes = sent.encode_with_mask();
        assert_eq!(bytes.len(), 2 + 4 + sent.payload.len());
        assert_eq!(bytes[1], 0x80 | sent.payload.len() as u8);
        let (parsed, _) = complete(Frame::parse(&bytes, true));
        assert_eq!(parsed, sent);
    }
}

#[test]
fn encoding_leaves_the_frame_untouched() {
    let sent = frame(true, Opcode::Text, b"still here");
    let _ = sent.encode();
    let _ = sent.encode_with_mask();
    assert_eq!(sent.payload, b"still here".to_vec());
}

#[test]
fn masking_twice_restores_the_bytes() {
    let key = [0x12u8, 0x34, 0x56, 0x78];
    let data: Vec<u8> = (0..=255u8).collect();
    let masked = apply_mask(&data, &key);
    assert_ne!(masked, data);
    assert_eq!(apply_mask(&masked, &key), data);
}

#[test]
fn masking_xors_with_the_key_byte_of_the_position() {
    let key = [1u8, 2, 4, 8];
    assert_eq!(apply_mask(&[0, 0, 0, 0, 0, 0xFF], &key), vec![1, 2, 4, 8, 1, 0xFD]);
    assert_eq!(apply_mask(&[], &key), Vec::<u8>::new());
}

#[test]
fn every_proper_prefix_is_incomplete() {
    let key = [9u8, 8, 7, 6];
    let payload = vec![0x42u8; 300];
    let unmasked = frame(true, Opcode::Binary, &payload).encode();
    let masked = frame(true, Opcode::Binary, &payload).encode_with_key(&key);
    for cut in 0..unmasked.len() {
        assert_eq!(Frame::parse(&unmasked[..cut], false), ParseResult::Incomplete);
    }
    for cut in 0..masked.len() {
        assert_eq!(Frame::parse(&masked[..cut], true), ParseResult::Incomplete);
    }
    assert!(matches!(Frame::parse(&unmasked, false), ParseResult::Complete(_, _)));
    assert!(matches!(Frame::parse(&masked, true), ParseResult::Complete(_, _)));
}

#[test]
fn bytes_behind_a_frame_are_left_alone() {
    let mut bytes = frame(true, Opcode::Text, b"one").encode();
    let first_len = bytes.len();
    bytes.extend_from_slice(&frame(true, Opcode::Text, b"two").encode());
    let (parsed, consumed) = complete(Frame::parse(&bytes, false));
    assert_eq!(parsed.payload, b"one".to_vec());
    assert_eq!(consumed, first_len);
    let (second, _) = complete(Frame::parse(&bytes[consumed..], false));
    assert_eq!(second.payload, b"two".to_vec());
}

#[test]
fn reserved_opcodes_are_rejected() {
    for code in [3u8, 4, 5, 6, 7, 11, 12, 13, 14, 15] {
        for role in [true, false] {
            for second in [0x00u8, 0x80, 0x7F, 0xFF] {
                assert_eq!(
                    Frame::parse(&[0x80 | code, second], role),
                    ParseResult::Invalid(ProtocolError::ReservedOpcode)
                );
            }
        }
    }
}

#[test]
fn reserved_bits_are_rejected() {
    for rsv in [0x40u8, 0x20, 0x10, 0x70] {
        assert_eq!(
            Frame::parse(&[0x81 | rsv, 0x00], false),
            ParseResult::Invalid(ProtocolError::ReservedRsvBits)
        );
    }
}

#[test]
fn server_rejects_unmasked_frames() {
    assert_eq!(
        Frame::parse(&[0x81, 0x05, b'H', b'e', b'l', b'l', b'o'], true),
        ParseResult::Invalid(ProtocolError::UnmaskedClientFrame)
    );
}

#[test]
fn client_rejects_masked_frames() {
    assert_eq!(
        Frame::parse(&[0x81, 0x85, 0x37, 0xFA, 0x21, 0x3D, 0x7F, 0x9F, 0x4D, 0x51, 0x58], false),
        ParseResult::Invalid(ProtocolError::MaskedServerFrame)
    );
}

#[test]
fn fragmented_control_frame_is_rejected() {
    assert_eq!(
        Frame::parse(&[0x09, 0x00], false),
        ParseResult::Invalid(ProtocolError::BadControlFrame)
    );
}

#[test]
fn long_control_frame_is_rejected() {
    let mut bytes = vec![0x89u8, 126, 0x00, 0x7E];
    bytes.extend_from_slice(&[0u8; 126]);
    assert_eq!(Frame::parse(&bytes, false), ParseResult::Invalid(ProtocolError::BadControlFrame));
    assert_eq!(
        Frame::parse(&bytes[..4], false),
        ParseResult::Invalid(ProtocolError::BadControlFrame)
    );
}

#[test]
fn length_with_top_bit_set_is_rejected() {
    assert_eq!(
        Frame::parse(&[0x82, 127, 0x80, 0, 0, 0, 0, 0, 0, 0], false),
        ParseResult::Invalid(ProtocolError::LengthOverflow)
    );
}

#[test]
fn huge_length_is_incomplete_not_a_crash() {
    assert_eq!(
        Frame::parse(&[0x82, 127, 0x7F, 0xFF, 0xFF, 0xFF, 0xFF, 0xFF, 0xFF, 0xFF, 1, 2, 3], false),
        ParseResult::Incomplete
    );
}

#[test]
fn non_minimal_lengths_are_accepted() {
    let (short, consumed) = complete(Frame::parse(&[0x82, 126, 0x00, 0x03, 1, 2, 3], false));
    assert_eq!(short, frame(true, Opcode::Binary, &[1, 2, 3]));
    assert_eq!(consumed, 7);
    let (long, consumed) =
        complete(Frame::parse(&[0x82, 127, 0, 0, 0, 0, 0, 0, 0, 2, 9, 8], false));
    assert_eq!(long, frame(true, Opcode::Binary, &[9, 8]));
    assert_eq!(consumed, 12);
    let (ping, _) = complete(Frame::parse(&[0x89, 126, 0x00, 0x01, 0x55], false));
    assert_eq!(ping, frame(true, Opcode::Ping, &[0x55]));
}

#[test]
fn fin_flag_is_read_and_written() {
    let part = frame(false, Opcode::Text, b"frag");
    let bytes = part.encode();
    assert_eq!(bytes[0], 0x01);
    let (parsed, _) = complete(Frame::parse(&bytes, false));
    assert!(!parsed.fin);
}

#[test]
fn frame_validity() {
    assert!(frame(true, Opcode::Ping, &[0u8; 125]).is_valid());
    assert!(!frame(true, Opcode::Ping, &[0u8; 126]).is_valid());
    assert!(!frame(false, Opcode::Close, &[]).is_valid());
    assert!(frame(false, Opcode::Text, &[0u8; 1000]).is_valid());
}

#[test]
fn big_endian_writers() {
    let mut buf = vec![0xAAu8];
    put_u16(&mut buf, 0x0102);
    put_u64(&mut buf, 0x0304_0506_0708_090A);
    assert_eq!(buf, vec![0xAA, 1, 2, 3, 4, 5, 6, 7, 8, 9, 10]);
}

#[test]
fn extended_lengths_are_read_big_endian() {
    let mut bytes = vec![0x82u8, 126, 0x01, 0x02];
    bytes.extend_from_slice(&vec![0u8; 0x0102]);
    let (parsed, consumed) = complete(Frame::parse(&bytes, false));
    assert_eq!(parsed.payload.len(), 0x0102);
    assert_eq!(consumed, 4 + 0x0102);
    let mut bytes = vec![0x82u8, 127, 0, 0, 0, 0, 0, 0x01, 0x00, 0x02];
    bytes.extend_from_slice(&vec![0u8; 0x10002]);
    let (parsed, consumed) = complete(Frame::parse(&bytes, false));
    assert_eq!(parsed.payload.len(), 0x10002);
    assert_eq!(consumed, 10 + 0x10002);
}
