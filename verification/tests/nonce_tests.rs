use pool_core::nonce::{generate_nonce, make_nonce, verify_nonce};

#[test]
fn made_nonce_verifies_for_its_pair() {
    let entropy = [7u8; 12];
    let nonce = make_nonce(&entropy, 1, 7);
    assert_eq!(&nonce[0..12], &entropy);
    assert_eq!(&nonce[12..16], &[0x00, 0x00, 0x01, 0x07]);
    assert!(verify_nonce(&nonce, 1, 7));
}

#[test]
fn verify_rejects_other_miner() {
    let nonce = make_nonce(&[0u8; 12], 1, 7);
    assert!(!verify_nonce(&nonce, 2, 7));
}

#[test]
fn verify_rejects_other_pool() {
    let nonce = make_nonce(&[0u8; 12], 1, 7);
    assert!(!verify_nonce(&nonce, 1, 8));
}

#[test]
fn verify_rejects_wrong_length() {
    assert!(!verify_nonce(&[0u8; 15], 0, 0));
    assert!(!verify_nonce(&[0u8; 17], 0, 0));
}

#[test]
fn generated_nonce_verifies() {
    let nonce = generate_nonce(5, 9);
    assert!(verify_nonce(&nonce, 5, 9));
    assert!(!verify_nonce(&nonce, 6, 9));
    assert!(!verify_nonce(&nonce, 5, 10));
}

#[test]
fn big_miner_id_uses_low_three_bytes() {
    let nonce = make_nonce(&[0u8; 12], 0x0a_b1_c2_d3, 7);
    assert_eq!(&nonce[12..16], &[0xb1, 0xc2, 0xd3, 0x07]);
    assert!(verify_nonce(&nonce, 0x0a_b1_c2_d3, 7));
    // A miner id that agrees on the low 3 bytes also verifies: provenance
    // binds exactly the encoded tag.
    assert!(verify_nonce(&nonce, 0x0b_b1_c2_d3, 7));
}

#[test]
fn negative_miner_id_round_trips() {
    let nonce = make_nonce(&[1u8; 12], -1, 3);
    assert_eq!(&nonce[12..16], &[0xff, 0xff, 0xff, 0x03]);
    assert!(verify_nonce(&nonce, -1, 3));
}
