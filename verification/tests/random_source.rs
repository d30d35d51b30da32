use rust_websocket::random::u32_to_u8_vec;
use rust_websocket::{base64_encode, generate_random_base64_str, random_i32_to_u8_vec};

#[test]
fn base64_of_known_inputs() {
    assert_eq!(base64_encode(b""), "");
    assert_eq!(base64_encode(b"f"), "Zg==");
    assert_eq!(base64_encode(b"fo"), "Zm8=");
    assert_eq!(base64_encode(b"foo"), "Zm9v");
    assert_eq!(base64_encode(b"hello world~"), "aGVsbG8gd29ybGR+");
    assert_eq!(base64_encode(&[0xFB, 0xFF]), "+/8=");
}

#[test]
fn masking_key_has_four_bytes() {
    for _ in 0..32 {
        assert_eq!(random_i32_to_u8_vec().len(), 4);
    }
}

#[test]
fn masking_keys_vary() {
    let first = random_i32_to_u8_vec();
    assert!((0..64).any(|_| random_i32_to_u8_vec() != first));
}

#[test]
fn u32_splits_most_significant_byte_first() {
    assert_eq!(u32_to_u8_vec(0x0102_0304), vec![1, 2, 3, 4]);
    assert_eq!(u32_to_u8_vec(0), vec![0, 0, 0, 0]);
    assert_eq!(u32_to_u8_vec(u32::MAX), vec![255, 255, 255, 255]);
    assert_eq!(u32_to_u8_vec(0x8000_0001), vec![0x80, 0, 0, 1]);
}

#[test]
fn nonce_is_base64_of_sixteen_bytes() {
    let nonce = generate_random_base64_str();
    assert_eq!(nonce.len(), 24);
    assert!(nonce.ends_with("=="));
    assert!(nonce[..22].bytes().all(|b| b.is_ascii_alphanumeric() || b == b'+' || b == b'/'));
}

#[test]
fn nonces_are_fresh() {
    assert_ne!(generate_random_base64_str(), generate_random_base64_str());
}
