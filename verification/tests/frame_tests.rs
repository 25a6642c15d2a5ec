use haske_core::frame::{
    get_frame_type, get_payload_length, is_final_frame, is_masked_frame, validate_websocket_frame,
    DecodeResult, WebSocketFrame,
};
use haske_core::CoreError;

fn assert_roundtrip(payload: Vec<u8>, masked: bool) {
    let frame = WebSocketFrame::new(2, payload.clone(), true, masked);
    let key = [0x11u8, 0x22, 0x33, 0x44];
    let encoded = frame.encode(masked, if masked { Some(&key) } else { None });
    match WebSocketFrame::parse(&encoded) {
        DecodeResult::Decoded(decoded, consumed) => {
            assert_eq!(consumed, encoded.len());
            assert_eq!(decoded.opcode, 2);
            assert!(decoded.is_final);
            assert_eq!(decoded.is_masked, masked);
            assert_eq!(decoded.payload, payload);
        },
        _ => panic!("expected a decoded frame"),
    }
}

#[test]
fn roundtrip_all_length_tiers_unmasked() {
    for n in [0usize, 1, 125, 126, 65535, 65536] {
        let payload: Vec<u8> = (0..n).map(|i| (i % 251) as u8).collect();
        assert_roundtrip(payload, false);
    }
}

#[test]
fn roundtrip_all_length_tiers_masked() {
    for n in [0usize, 1, 125, 126, 65535, 65536] {
        let payload: Vec<u8> = (0..n).map(|i| (i % 251) as u8).collect();
        assert_roundtrip(payload, true);
    }
}

#[test]
fn text_frame_known_bytes() {
    let frame = WebSocketFrame::text("Hello");
    let bytes = frame.to_bytes();
    assert_eq!(bytes, vec![0x81, 0x05, b'H', b'e', b'l', b'l', b'o']);
}

#[test]
fn binary_frame_known_bytes() {
    let frame = WebSocketFrame::binary(&[1, 2, 3]);
    assert_eq!(frame.to_bytes(), vec![0x82, 0x03, 1, 2, 3]);
}

#[test]
fn sixteen_bit_length_bytes() {
    let payload = vec![7u8; 300];
    let frame = WebSocketFrame::binary(&payload);
    let bytes = frame.to_bytes();
    assert_eq!(bytes[0], 0x82);
    assert_eq!(bytes[1], 126);
    assert_eq!(bytes[2], 0x01);
    assert_eq!(bytes[3], 0x2c);
    assert_eq!(bytes.len(), 4 + 300);
}

#[test]
fn sixty_four_bit_length_bytes() {
    let payload = vec![9u8; 65536];
    let frame = WebSocketFrame::binary(&payload);
    let bytes = frame.to_bytes();
    assert_eq!(bytes[1], 127);
    assert_eq!(&bytes[2..10], &[0, 0, 0, 0, 0, 1, 0, 0]);
    assert_eq!(bytes.len(), 10 + 65536);
}

#[test]
fn close_frame_payload() {
    let frame = WebSocketFrame::close(Some(1000), Some("bye"));
    assert_eq!(frame.opcode, 8);
    assert_eq!(frame.payload, vec![0x03, 0xe8, b'b', b'y', b'e']);
    let code_only = WebSocketFrame::close(Some(1001), None);
    assert_eq!(code_only.payload, vec![0x03, 0xe9]);
    let reason_only = WebSocketFrame::close(None, Some("x"));
    assert_eq!(reason_only.payload, vec![b'x']);
    let neither = WebSocketFrame::close(None, None);
    assert!(neither.payload.is_empty());
}

#[test]
fn ping_pong_frames() {
    let ping = WebSocketFrame::ping(Some(&[1, 2]));
    assert_eq!(ping.opcode, 9);
    assert_eq!(ping.payload, vec![1, 2]);
    let pong = WebSocketFrame::pong(None);
    assert_eq!(pong.opcode, 10);
    assert!(pong.payload.is_empty());
}

#[test]
fn masked_wire_bytes_are_xored() {
    let frame = WebSocketFrame::new(1, vec![0xaa, 0xbb], true, true);
    let key = [0x01u8, 0x02, 0x03, 0x04];
    let bytes = frame.encode(true, Some(&key));
    assert_eq!(bytes[0], 0x81);
    assert_eq!(bytes[1], 0x80 | 2);
    assert_eq!(&bytes[2..6], &key);
    assert_eq!(bytes[6], 0xaa ^ 0x01);
    assert_eq!(bytes[7], 0xbb ^ 0x02);
}

#[test]
fn strict_prefixes_need_more_data() {
    let frame = WebSocketFrame::new(2, (0..200u8).collect(), true, true);
    let key = [9u8, 8, 7, 6];
    let encoded = frame.encode(true, Some(&key));
    for cut in 0..encoded.len() {
        match WebSocketFrame::parse(&encoded[..cut]) {
            DecodeResult::NeedMoreData => {},
            _ => panic!("prefix of length {} should need more data", cut),
        }
    }
}

#[test]
fn is_complete_agrees_with_parse_on_all_prefixes() {
    let frame = WebSocketFrame::new(1, (0..150u8).collect(), true, false);
    let encoded = frame.encode(false, None);
    for cut in 0..=encoded.len() {
        let slice = &encoded[..cut];
        let complete = validate_websocket_frame(slice);
        let decoded = matches!(WebSocketFrame::parse(slice), DecodeResult::Decoded(..));
        assert_eq!(complete, decoded, "disagreement at prefix {}", cut);
    }
    assert!(validate_websocket_frame(&encoded));
}

#[test]
fn parse_leaves_following_bytes_to_the_caller() {
    let first = WebSocketFrame::text("ab");
    let mut stream = first.to_bytes();
    let second = WebSocketFrame::ping(None);
    stream.extend_from_slice(&second.to_bytes());
    match WebSocketFrame::parse(&stream) {
        DecodeResult::Decoded(frame, consumed) => {
            assert_eq!(frame.opcode, 1);
            assert_eq!(frame.payload, b"ab".to_vec());
            assert_eq!(consumed, 4);
            match WebSocketFrame::parse(&stream[consumed..]) {
                DecodeResult::Decoded(rest, used) => {
                    assert_eq!(rest.opcode, 9);
                    assert_eq!(used, 2);
                },
                _ => panic!("second frame should decode"),
            }
        },
        _ => panic!("first frame should decode"),
    }
}

#[test]
fn header_helpers_read_the_bits() {
    assert!(!is_final_frame(&[]));
    assert!(is_final_frame(&[0x81]));
    assert!(!is_final_frame(&[0x01]));
    assert_eq!(get_frame_type(&[]), None);
    assert_eq!(get_frame_type(&[0x89]), Some(9));
    assert!(!is_masked_frame(&[0x81]));
    assert!(is_masked_frame(&[0x81, 0x80]));
    assert!(!is_masked_frame(&[0x81, 0x7f]));
}

#[test]
fn payload_length_tiers_and_errors() {
    assert_eq!(get_payload_length(&[0x81]), Err(CoreError::FrameTooShort));
    assert_eq!(get_payload_length(&[0x81, 5]), Ok(5));
    assert_eq!(get_payload_length(&[0x81, 126]), Err(CoreError::FrameTooShort));
    assert_eq!(get_payload_length(&[0x81, 126, 0x01, 0x2c]), Ok(300));
    assert_eq!(get_payload_length(&[0x81, 127, 0, 0]), Err(CoreError::FrameTooShort));
    assert_eq!(
        get_payload_length(&[0x81, 127, 0, 0, 0, 0, 0, 1, 0, 0]),
        Ok(65536)
    );
}
