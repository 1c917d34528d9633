use pool_core::difficulty::get_difficulty;

#[test]
fn all_zero_hash_scores_32_and_0() {
    let hash = [0u8; 32];
    let d = get_difficulty(&hash);
    assert_eq!(d.leading_zeroes, 32);
    assert_eq!(d.difficulty_number, 0);
}

#[test]
fn nibble_counting_counts_half_bytes() {
    // 0x00 0x0F ...: two full zero bytes' worth of nibbles would be 4, but
    // the second byte's high nibble is zero, so the score is 3, not 2.
    let mut hash = [0u8; 32];
    hash[0] = 0x00;
    hash[1] = 0x0F;
    hash[2] = 0x12;
    hash[3] = 0x34;
    let d = get_difficulty(&hash);
    assert_eq!(d.leading_zeroes, 3);
    assert_eq!(d.difficulty_number, 0x0F * 4096 + 0x12 * 16 + 0x34 / 16);
}

#[test]
fn full_byte_leading_zeroes() {
    let mut hash = [0u8; 32];
    hash[0] = 0x00;
    hash[1] = 0xF0;
    hash[2] = 0x56;
    let d = get_difficulty(&hash);
    assert_eq!(d.leading_zeroes, 2);
    assert_eq!(d.difficulty_number, 0xF0 * 256 + 0x56);
}

#[test]
fn nonzero_first_nibble_scores_zero() {
    let mut hash = [0u8; 32];
    hash[0] = 0x80;
    hash[1] = 0x01;
    let d = get_difficulty(&hash);
    assert_eq!(d.leading_zeroes, 0);
    assert_eq!(d.difficulty_number, 0x80 * 256 + 0x01);
}

#[test]
fn wrong_length_hash_scores_zero() {
    let d = get_difficulty(&[0u8; 31]);
    assert_eq!(d.leading_zeroes, 0);
    assert_eq!(d.difficulty_number, 0);
    let d = get_difficulty(&[0u8; 33]);
    assert_eq!(d.leading_zeroes, 0);
    assert_eq!(d.difficulty_number, 0);
}

#[test]
fn nonzero_in_last_byte_only() {
    let mut hash = [0u8; 32];
    hash[31] = 0x01;
    let d = get_difficulty(&hash);
    // 31 zero bytes then a zero high nibble: 63 zero nibbles counted as
    // 2 * 31 + 1; the bytes past the end read as zero.
    assert_eq!(d.leading_zeroes, 63);
    assert_eq!(d.difficulty_number, 0x01 * 4096);
}
