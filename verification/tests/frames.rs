use chat_relay::codec::{decode, encode, FrameError, FRAME_LEN};

fn frame_with(payload: &[u8]) -> Vec<u8> {
    let mut f = vec![0u8; FRAME_LEN];
    f[..payload.len()].copy_from_slice(payload);
    f
}

#[test]
fn encode_fills_one_frame() {
    let f = encode("hi").unwrap();
    assert_eq!(f.len(), FRAME_LEN);
    assert_eq!(&f[..2], b"hi");
    assert!(f[2..].iter().all(|&b| b == 0));
}

#[test]
fn encode_of_empty_message_is_all_zeros() {
    let f = encode("").unwrap();
    assert_eq!(f, vec![0u8; FRAME_LEN]);
}

#[test]
fn encode_zero_pads_after_payload() {
    let f = encode("abc").unwrap();
    assert_eq!(&f[..3], b"abc");
    assert_eq!(&f[3..], &[0u8; FRAME_LEN - 3]);
}

#[test]
fn round_trip_returns_message() {
    let f = encode("hello").unwrap();
    assert_eq!(&f[..5], &[0x68, 0x65, 0x6c, 0x6c, 0x6f]);
    assert_eq!(decode(&f).unwrap(), "hello");
}

#[test]
fn round_trip_keeps_multibyte_characters() {
    let msg = "héllo ← ☃";
    assert!(msg.len() < FRAME_LEN);
    let f = encode(msg).unwrap();
    assert_eq!(decode(&f).unwrap(), msg);
}

#[test]
fn round_trip_of_full_width_message() {
    let msg = "abcdefghijklmnopqrstuvwxyz012345";
    assert_eq!(msg.len(), FRAME_LEN);
    let f = encode(msg).unwrap();
    assert_eq!(decode(&f).unwrap(), msg);
}

#[test]
fn encode_rejects_overlong_message() {
    let msg = "0123456789012345678901234567890123456789";
    assert_eq!(msg.len(), 40);
    assert_eq!(encode(msg), Err(FrameError::FrameTooLong));
}

#[test]
fn encoder_stays_usable_after_rejection() {
    let long = "x".repeat(FRAME_LEN + 1);
    assert_eq!(encode(&long), Err(FrameError::FrameTooLong));
    let f = encode("ok").unwrap();
    assert_eq!(decode(&f).unwrap(), "ok");
}

#[test]
fn decode_stops_at_first_zero() {
    let mut f = frame_with(b"hi");
    f[3] = b'z';
    f[31] = b'!';
    assert_eq!(decode(&f).unwrap(), "hi");
}

#[test]
fn decode_ignores_bytes_after_first_zero() {
    let mut noisy = frame_with(b"ping");
    for i in 5..FRAME_LEN {
        noisy[i] = 0xff;
    }
    let clean = frame_with(b"ping");
    assert_eq!(decode(&noisy).unwrap(), decode(&clean).unwrap());
}

#[test]
fn decode_rejects_invalid_utf8() {
    let f = frame_with(&[0xff, 0xfe]);
    assert_eq!(decode(&f), Err(FrameError::BadEncoding));
}

#[test]
fn decode_of_all_zero_frame_is_empty() {
    let f = vec![0u8; FRAME_LEN];
    assert_eq!(decode(&f).unwrap(), "");
}

#[test]
fn interior_zero_truncates_on_decode() {
    let f = frame_with(b"a\0b");
    assert_eq!(decode(&f).unwrap(), "a");
}
