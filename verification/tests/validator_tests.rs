use pool_core::block::Block;
use pool_core::datum::block_to_target_state;
use pool_core::hashing::double_sha256;
use pool_core::validator::{
    build_submission_response, clamp_sampling_difficulty, is_winning_share,
    meets_sampling_difficulty, process_submission, SubmissionEntry,
};

fn working_block() -> Block {
    Block {
        block_number: 42,
        current_hash: vec![0x12, 0x34],
        leading_zeroes: 2,
        difficulty_number: 50000,
        epoch_time: 1000,
        current_time: 2000,
        extra: vec![],
        interlink: vec![],
        output_index: 1,
        transaction_id: String::from("tx"),
    }
}

fn entries(nonces: &[&str]) -> Vec<SubmissionEntry> {
    nonces.iter().map(|n| SubmissionEntry { nonce: String::from(*n) }).collect()
}

#[test]
fn accepts_exactly_the_well_formed_entries() {
    // Miner 1 in pool 7: a valid nonce ends in 00 00 01 07. Ten entries,
    // three valid; at sampling difficulty 0 every valid one is accepted.
    let batch = entries(&[
        "000102030405060708090a0b00000107", // valid
        "ffffffffffffffffffffffff00000107", // valid
        "000102030405060708090a0b00000108", // wrong pool id
        "000102030405060708090a0b00000207", // wrong miner tag
        "0001020304",                       // wrong length
        "abc",                              // odd-length hex
        "zz0102030405060708090a0b00000107", // not hex
        "",                                 // empty
        "000102030405060708090a0b0000010700", // 17 bytes
        "0102030405060708090a0b0c00000107", // valid
    ]);
    let outcome = process_submission(&working_block(), &batch, 1, 7, 0, 255);
    assert_eq!(outcome.accepted.len(), 3);
    assert!(outcome.winner.is_none());
    for share in &outcome.accepted {
        assert_eq!(share.miner_id, 1);
        assert_eq!(share.block_number, 42);
        assert_eq!(share.sampling_difficulty, 0);
        assert_eq!(&share.nonce[12..16], &[0x00, 0x00, 0x01, 0x07]);
        // The recorded hash is the double SHA-256 of the target state with
        // this nonce spliced in.
        let expected = double_sha256(&block_to_target_state(&working_block(), &share.nonce));
        assert_eq!(share.sha, expected);
    }
}

#[test]
fn sampling_difficulty_gates_acceptance() {
    // A real candidate hash is astronomically unlikely to carry 8 leading
    // zero nibbles, so at sampling difficulty 8 a well-formed nonce is
    // still rejected unless its hash happens to meet the threshold.
    let batch = entries(&["000102030405060708090a0b00000107"]);
    let block = working_block();
    let outcome = process_submission(&block, &batch, 1, 7, 8, 255);
    let nonce: [u8; 16] = hex::decode("000102030405060708090a0b00000107")
        .unwrap()
        .try_into()
        .unwrap();
    let hash = double_sha256(&block_to_target_state(&block, &nonce));
    let meets = meets_sampling_difficulty(&hash, 8);
    assert_eq!(outcome.accepted.len(), if meets { 1 } else { 0 });
}

#[test]
fn ten_hashes_three_meet_difficulty_eight() {
    // A miner at sampling difficulty 8: of ten candidate hashes, the three
    // with at least 8 leading zero nibbles meet the threshold.
    let mut hashes: Vec<[u8; 32]> = Vec::new();
    for k in 0..10u8 {
        let mut h = [0xffu8; 32];
        if k < 3 {
            // 4 zero bytes = 8 zero nibbles.
            h[0] = 0;
            h[1] = 0;
            h[2] = 0;
            h[3] = 0;
            h[4] = 0x10 + k;
        } else {
            // 3 zero bytes and a non-zero high nibble: only 6 zero nibbles.
            h[0] = 0;
            h[1] = 0;
            h[2] = 0;
            h[3] = 0x10 + k;
        }
        hashes.push(h);
    }
    let num_accepted = hashes.iter().filter(|h| meets_sampling_difficulty(&h[..], 8)).count();
    assert_eq!(num_accepted, 3);
}

#[test]
fn winner_needs_more_zeroes_than_the_block() {
    let block = working_block(); // requires 2 leading zeroes, difficulty 50000
    // 3 leading zero nibbles beat the block's 2.
    let mut win = [0u8; 32];
    win[0] = 0x00;
    win[1] = 0x0a;
    assert!(is_winning_share(&win, &block, 2));
    // ... but not over the absolute minimum of 3.
    assert!(!is_winning_share(&win, &block, 3));
    // 2 leading zeroes with a lower difficulty number also beat it.
    let mut equal = [0u8; 32];
    equal[0] = 0x00;
    equal[1] = 0xa0; // leading_zeroes 2, difficulty 0xa0 * 256 = 40960 < 50000
    assert!(is_winning_share(&equal, &block, 1));
    // 2 leading zeroes with a higher difficulty number do not.
    let mut worse = [0u8; 32];
    worse[0] = 0x00;
    worse[1] = 0xc4;
    worse[2] = 0x50; // 0xc4 * 256 + 0x50 = 50256 > 50000
    assert!(!is_winning_share(&worse, &block, 1));
}

#[test]
fn clamp_floors_requested_difficulty() {
    assert_eq!(clamp_sampling_difficulty(Some(3), 5, 8), 5);
    assert_eq!(clamp_sampling_difficulty(Some(5), 5, 8), 5);
    assert_eq!(clamp_sampling_difficulty(Some(11), 5, 8), 11);
    assert_eq!(clamp_sampling_difficulty(None, 5, 8), 8);
}

#[test]
fn submission_response_renders_nonce_and_block() {
    let nonce = [0xabu8; 16];
    let response = build_submission_response(3, &nonce, &working_block());
    assert_eq!(response.num_accepted, 3);
    assert_eq!(response.nonce, "ab".repeat(16));
    assert_eq!(response.working_block.block_number, 42);
    assert_eq!(response.working_block.current_hash, "1234");
}
