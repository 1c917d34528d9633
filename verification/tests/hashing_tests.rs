use pool_core::hashing::double_sha256;

#[test]
fn double_sha256_known_vector() {
    let digest = double_sha256(b"abc");
    assert_eq!(
        hex::encode(digest),
        "4f8b42c22dd3729b519ba6f68d2da7cc5b2d606d05daed5ad5128cc03e6c6358"
    );
}

#[test]
fn double_sha256_is_deterministic() {
    // Recomputing over the same buffer always yields the same hash.
    let buffer: Vec<u8> = (0u16..200).map(|b| (b % 251) as u8).collect();
    let first = double_sha256(&buffer);
    let second = double_sha256(&buffer);
    assert_eq!(first, second);
}
