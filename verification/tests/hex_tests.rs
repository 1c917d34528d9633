use pool_core::hex_codec::{hex_decode_bytes, hex_digit_value, hex_encode, hex_encode_bytes};

#[test]
fn encodes_lowercase_pairs() {
    assert_eq!(hex_encode(&[]), "");
    assert_eq!(hex_encode(&[0x00]), "00");
    assert_eq!(hex_encode(&[0xaa, 0xbb, 0x0f]), "aabb0f");
}

#[test]
fn decodes_both_cases() {
    assert_eq!(hex_decode_bytes(b"00ff10"), Some(vec![0x00, 0xff, 0x10]));
    assert_eq!(hex_decode_bytes(b"ABCDEF"), Some(vec![0xab, 0xcd, 0xef]));
    assert_eq!(hex_decode_bytes(b""), Some(vec![]));
}

#[test]
fn rejects_odd_length() {
    assert_eq!(hex_decode_bytes(b"abc"), None);
}

#[test]
fn rejects_non_hex() {
    assert_eq!(hex_decode_bytes(b"zz"), None);
    assert_eq!(hex_decode_bytes(b"0g"), None);
}

#[test]
fn round_trips() {
    let data: Vec<u8> = (0u16..=255).map(|b| b as u8).collect();
    let encoded = hex_encode_bytes(&data);
    let decoded = hex_decode_bytes(&encoded).unwrap();
    assert_eq!(decoded, data);
}

#[test]
fn agrees_with_reference_implementation() {
    let data = vec![0x01u8, 0x9f, 0x00, 0xde, 0xad, 0xbe, 0xef];
    assert_eq!(hex_encode(&data), hex::encode(&data));
    assert_eq!(
        hex_decode_bytes(hex::encode(&data).as_bytes()).unwrap(),
        hex::decode(hex::encode(&data)).unwrap()
    );
}

#[test]
fn digit_values() {
    assert_eq!(hex_digit_value(b'0'), Some(0));
    assert_eq!(hex_digit_value(b'9'), Some(9));
    assert_eq!(hex_digit_value(b'a'), Some(10));
    assert_eq!(hex_digit_value(b'f'), Some(15));
    assert_eq!(hex_digit_value(b'A'), Some(10));
    assert_eq!(hex_digit_value(b'F'), Some(15));
    assert_eq!(hex_digit_value(b'g'), None);
    assert_eq!(hex_digit_value(b' '), None);
}
