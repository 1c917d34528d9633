use pool_core::block::Block;
use pool_core::datum::{block_to_target_state, splice_nonce};
use pool_core::datum_parse::decode_block_datum;

fn sample_block() -> Block {
    Block {
        block_number: 1,
        current_hash: vec![0xaa, 0xbb],
        leading_zeroes: 4,
        difficulty_number: 65535,
        epoch_time: 100_000,
        current_time: 23,
        extra: vec![],
        interlink: vec![vec![0x01], vec![0x02, 0x03]],
        output_index: 0,
        transaction_id: String::new(),
    }
}

fn sample_nonce() -> [u8; 16] {
    let mut nonce = [0u8; 16];
    for (i, b) in nonce.iter_mut().enumerate() {
        *b = i as u8;
    }
    nonce
}

#[test]
fn encodes_fixed_order_tagged_record() {
    let encoded = block_to_target_state(&sample_block(), &sample_nonce());
    let expected: Vec<u8> = vec![
        0xd8, 0x79, // constructor tag 121
        0x9f, // indefinite array
        0x50, 0x00, 0x01, 0x02, 0x03, 0x04, 0x05, 0x06, 0x07, 0x08, 0x09, 0x0a, 0x0b, 0x0c, 0x0d,
        0x0e, 0x0f, // 16-byte nonce
        0x01, // block_number 1
        0x42, 0xaa, 0xbb, // current_hash
        0x04, // leading_zeroes 4
        0x19, 0xff, 0xff, // difficulty_number 65535
        0x1a, 0x00, 0x01, 0x86, 0xa0, // epoch_time 100000
        0x17, // current_time 23
        0x40, // extra: empty bytes
        0x9f, 0x41, 0x01, 0x42, 0x02, 0x03, 0xff, // interlink list
        0xff, // close record
    ];
    assert_eq!(encoded, expected);
}

#[test]
fn nonce_sits_at_fixed_offset() {
    let encoded = block_to_target_state(&sample_block(), &sample_nonce());
    assert_eq!(&encoded[4..20], &sample_nonce());
}

#[test]
fn decoding_yields_identical_field_values() {
    let block = sample_block();
    let nonce = sample_nonce();
    let encoded = block_to_target_state(&block, &nonce);
    let decoded = decode_block_datum(&encoded).expect("decode");
    assert_eq!(decoded.nonce, nonce.to_vec());
    assert_eq!(decoded.block_number, block.block_number);
    assert_eq!(decoded.current_hash, block.current_hash);
    assert_eq!(decoded.leading_zeroes, block.leading_zeroes);
    assert_eq!(decoded.difficulty_number, block.difficulty_number);
    assert_eq!(decoded.epoch_time, block.epoch_time);
    assert_eq!(decoded.current_time, block.current_time);
    assert_eq!(decoded.extra, block.extra);
    assert_eq!(decoded.interlink, block.interlink);
}

#[test]
fn splicing_matches_direct_encoding() {
    let block = sample_block();
    let mut buffer = block_to_target_state(&block, &[0u8; 16]);
    let nonce = sample_nonce();
    splice_nonce(&mut buffer, &nonce);
    assert_eq!(buffer, block_to_target_state(&block, &nonce));
}

#[test]
fn decode_rejects_wrong_tag() {
    let mut encoded = block_to_target_state(&sample_block(), &sample_nonce());
    encoded[1] = 0x7a;
    assert!(decode_block_datum(&encoded).is_none());
}

#[test]
fn decode_rejects_truncated_record() {
    let encoded = block_to_target_state(&sample_block(), &sample_nonce());
    assert!(decode_block_datum(&encoded[..encoded.len() - 1]).is_none());
}

#[test]
fn decode_rejects_trailing_bytes() {
    let mut encoded = block_to_target_state(&sample_block(), &sample_nonce());
    encoded.push(0x00);
    assert!(decode_block_datum(&encoded).is_none());
}

#[test]
fn decode_rejects_short_nonce_field() {
    // A record whose first field is a 1-byte string is not a block datum.
    let bytes: Vec<u8> = vec![0xd8, 0x79, 0x9f, 0x41, 0x00, 0x01, 0x40, 0x00, 0x00, 0x00, 0x00,
        0x40, 0x9f, 0xff, 0xff];
    assert!(decode_block_datum(&bytes).is_none());
}

#[test]
fn round_trips_large_fields() {
    let block = Block {
        block_number: 9_000_000_000,
        current_hash: vec![0x11; 300],
        leading_zeroes: 255,
        difficulty_number: 30000,
        epoch_time: u64::MAX,
        current_time: 24,
        extra: vec![0x42; 25],
        interlink: vec![],
        output_index: 3,
        transaction_id: String::from("tx"),
    };
    let nonce = [0xfe; 16];
    let encoded = block_to_target_state(&block, &nonce);
    let decoded = decode_block_datum(&encoded).expect("decode");
    assert_eq!(decoded.block_number, block.block_number);
    assert_eq!(decoded.current_hash, block.current_hash);
    assert_eq!(decoded.epoch_time, block.epoch_time);
    assert_eq!(decoded.extra, block.extra);
    assert_eq!(decoded.interlink, block.interlink);
}
