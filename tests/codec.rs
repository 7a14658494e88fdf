use ual_rs::codec::{decode, decode_minimal, Encoder, EXTENDED_FRAME_LEN, MINIMAL_FRAME_LEN};
use ual_rs::types::{UALError, UALMessage};
use ual_rs::MicroAgent;

fn msg(action_id: u16, target_id: u16, value: i32) -> UALMessage {
    UALMessage { action_id, target_id, value }
}

#[test]
fn encode_action_0x1234_into_four_bytes() {
    let enc = Encoder::new();
    let mut buf = [0u8; 4];
    let r = enc.encode(&msg(0x1234, 0, 0), &mut buf);
    assert_eq!(r.unwrap(), 4);
    assert_eq!(buf, [0x55, 0x41, 0x12, 0x34]);
}

#[test]
fn encode_into_three_bytes_is_too_small() {
    let enc = Encoder::new();
    let mut buf = [0u8; 3];
    let r = enc.encode(&msg(0x1234, 0, 0), &mut buf);
    assert_eq!(r, Err(UALError::BufferTooSmall));
}

#[test]
fn encode_short_buffers_never_written() {
    let enc = Encoder::new();
    for n in 0..MINIMAL_FRAME_LEN {
        let mut buf = vec![0xAAu8; n];
        let r = enc.encode(&msg(0xBEEF, 1, 2), &mut buf);
        assert_eq!(r, Err(UALError::BufferTooSmall));
        assert!(buf.iter().all(|b| *b == 0xAA));
    }
}

#[test]
fn encode_leaves_bytes_past_frame() {
    let enc = Encoder::new();
    let mut buf = [0xEEu8; 6];
    assert_eq!(enc.encode(&msg(0x00FF, 9, 9), &mut buf), Ok(4));
    assert_eq!(buf, [0x55, 0x41, 0x00, 0xFF, 0xEE, 0xEE]);
}

#[test]
fn encode_extended_layout() {
    let enc = Encoder::new();
    let mut buf = [0u8; 10];
    let r = enc.encode_extended(&msg(0x1234, 0xABCD, -2), &mut buf);
    assert_eq!(r, Ok(EXTENDED_FRAME_LEN));
    assert_eq!(buf, [0x55, 0x41, 0x12, 0x34, 0xAB, 0xCD, 0xFF, 0xFF, 0xFF, 0xFE]);
}

#[test]
fn encode_extended_positive_value() {
    let enc = Encoder::new();
    let mut buf = [0u8; 12];
    assert_eq!(enc.encode_extended(&msg(1, 2, 0x0102_0304), &mut buf), Ok(10));
    assert_eq!(&buf[..10], &[0x55, 0x41, 0, 1, 0, 2, 1, 2, 3, 4]);
    assert_eq!(&buf[10..], &[0, 0]);
}

#[test]
fn encode_extended_too_small() {
    let enc = Encoder::new();
    let mut buf = [7u8; 9];
    assert_eq!(enc.encode_extended(&msg(1, 2, 3), &mut buf), Err(UALError::BufferTooSmall));
    assert_eq!(buf, [7u8; 9]);
}

#[test]
fn round_trip_extended() {
    let enc = Encoder::new();
    let cases = [
        msg(0x1234, 0xABCD, -2),
        msg(1, 0, 0),
        msg(u16::MAX, u16::MAX, i32::MAX),
        msg(0, 0, i32::MIN),
        msg(42, 7, -1),
    ];
    for m in cases {
        let mut buf = [0x5Au8; 16];
        assert_eq!(enc.encode_extended(&m, &mut buf), Ok(10));
        assert_eq!(decode(&buf), Ok(m));
    }
}

#[test]
fn round_trip_minimal() {
    let enc = Encoder::new();
    for a in [0u16, 1, 0x1234, 0xFF00, u16::MAX] {
        let mut buf = [0u8; 4];
        assert_eq!(enc.encode(&msg(a, 3, 4), &mut buf), Ok(4));
        assert_eq!(decode_minimal(&buf), Ok(a));
    }
}

#[test]
fn encode_is_deterministic() {
    let enc = Encoder::new();
    let m = msg(0x0A0B, 0x0C0D, 123456);
    let mut a = [0u8; 10];
    let mut b = [0xFFu8; 10];
    assert_eq!(enc.encode_extended(&m, &mut a), enc.encode_extended(&m, &mut b));
    assert_eq!(a, b);
    let mut c = [1u8; 4];
    let mut d = [2u8; 4];
    assert_eq!(enc.encode(&m, &mut c), enc.encode(&m, &mut d));
    assert_eq!(c, d);
}

#[test]
fn decode_bad_header_whatever_follows() {
    let frames: [&[u8]; 4] = [
        &[0x00, 0x41, 0x12, 0x34, 0, 0, 0, 0, 0, 0],
        &[0x55, 0x00],
        &[0x41, 0x55, 0x12, 0x34],
        &[0xFF, 0xFF, 0x55, 0x41, 1, 2, 3, 4, 5, 6, 7],
    ];
    for f in frames {
        assert_eq!(decode(f), Err(UALError::InvalidHeader));
        assert_eq!(decode_minimal(f), Err(UALError::InvalidHeader));
    }
}

#[test]
fn decode_truncated() {
    assert_eq!(decode(&[]), Err(UALError::BufferTooSmall));
    assert_eq!(decode(&[0x55]), Err(UALError::BufferTooSmall));
    assert_eq!(decode(&[0x55, 0x41, 0x12, 0x34]), Err(UALError::BufferTooSmall));
    assert_eq!(decode(&[0x55, 0x41, 0, 1, 0, 2, 0, 0, 0]), Err(UALError::BufferTooSmall));
    assert_eq!(decode_minimal(&[0x55, 0x41, 0x12]), Err(UALError::BufferTooSmall));
    assert_eq!(decode_minimal(&[]), Err(UALError::BufferTooSmall));
}

#[test]
fn decode_known_frame() {
    let b = [0x55, 0x41, 0x12, 0x34, 0x00, 0x07, 0x80, 0x00, 0x00, 0x00, 0x99];
    assert_eq!(decode(&b), Ok(msg(0x1234, 7, i32::MIN)));
    assert_eq!(decode_minimal(&b), Ok(0x1234));
}

#[test]
fn agent_delegates_to_codec() {
    let agent = MicroAgent::new("sensor-7");
    assert_eq!(agent.id(), "sensor-7");
    let mut buf = [0u8; 4];
    assert_eq!(agent.encode_into(&msg(0x1234, 0, 0), &mut buf), Ok(4));
    assert_eq!(buf, [0x55, 0x41, 0x12, 0x34]);
    let mut small = [0u8; 3];
    assert_eq!(agent.encode_into(&msg(0x1234, 0, 0), &mut small), Err(UALError::BufferTooSmall));
    let mut ext = [0u8; 10];
    let m = msg(5, 6, -7);
    assert_eq!(agent.encode_extended_into(&m, &mut ext), Ok(10));
    assert_eq!(agent.decode_from(&ext), Ok(m));
    assert_eq!(agent.decode_action_from(&buf), Ok(0x1234));
}
