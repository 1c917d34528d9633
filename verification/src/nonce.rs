//! Nonce templates binding work to a miner and a pool identity.
//!
//! A nonce is 16 bytes: the first 12 are entropy, bytes 12-14 are the
//! big-endian low 3 bytes of the miner id, and byte 15 is the pool id.
//! This partitions the nonce space between miners and pools and lets the
//! validator check provenance without a lookup.

use vstd::prelude::*;
use rand::Rng;

verus! {

/// The miner id reinterpreted as its 32-bit two's-complement word.
pub open spec fn miner_word(m: i32) -> u32 {
    m as u32
}

/// The big-endian low 3 bytes of the miner id, as carried in a nonce.
pub open spec fn miner_tag(m: i32) -> Seq<u8> {
    seq![
        (miner_word(m) / 0x10000 % 0x100) as u8,
        (miner_word(m) / 0x100 % 0x100) as u8,
        (miner_word(m) % 0x100) as u8,
    ]
}

/// A 16-byte nonce whose last 4 bytes encode exactly this miner id and pool id.
pub open spec fn nonce_matches(n: Seq<u8>, miner_id: i32, pool_id: u8) -> bool {
    &&& n.len() == 16
    &&& n[12] == miner_tag(miner_id)[0]
    &&& n[13] == miner_tag(miner_id)[1]
    &&& n[14] == miner_tag(miner_id)[2]
    &&& n[15] == pool_id
}

/// Checks that a submitted nonce was issued to this miner by this pool:
/// exactly 16 bytes, with the last 4 encoding (miner id low 3 bytes, pool id).
pub fn verify_nonce(nonce_bytes: &[u8], miner_id: i32, pool_id: u8) -> (r: bool)
    ensures
        r == nonce_matches(nonce_bytes@, miner_id, pool_id),
{
    if nonce_bytes.len() != 16 {
        return false;
    }
    let word: u32 = #[verifier::truncate] (miner_id as u32);
    let t0: u8 = (word / 0x10000 % 0x100) as u8;
    let t1: u8 = (word / 0x100 % 0x100) as u8;
    let t2: u8 = (word % 0x100) as u8;
    nonce_bytes[12] == t0 && nonce_bytes[13] == t1 && nonce_bytes[14] == t2 && nonce_bytes[15]
        == pool_id
}

/// Assembles a nonce from 12 entropy bytes, the miner id and the pool id.
pub fn make_nonce(entropy: &[u8; 12], miner_id: i32, pool_id: u8) -> (r: [u8; 16])
    ensures
        nonce_matches(r@, miner_id, pool_id),
        r@.subrange(0, 12) == entropy@,
{
    let mut nonce: [u8; 16] = [0u8; 16];
    let mut i: usize = 0;
    while i < 12
        invariant
            0 <= i <= 12,
            nonce@.len() == 16,
            forall|j: int| 0 <= j < i ==> nonce@[j] == entropy@[j],
        decreases 12 - i,
    {
        nonce[i] = entropy[i];
        i = i + 1;
    }
    let word: u32 = #[verifier::truncate] (miner_id as u32);
    nonce[12] = (word / 0x10000 % 0x100) as u8;
    nonce[13] = (word / 0x100 % 0x100) as u8;
    nonce[14] = (word % 0x100) as u8;
    nonce[15] = pool_id;
    proof {
        assert(nonce@.subrange(0, 12) =~= entropy@);
    }
    nonce
}

/// Relies on rand::thread_rng and rand::Rng::gen to draw 12 random bytes;
/// nothing is assumed of their values.
#[verifier::external_body]
fn random_bytes() -> [u8; 12] {
    let mut rng = rand::thread_rng();
    rng.gen::<[u8; 12]>()
}

/// Issues a fresh nonce template for a miner: 12 random bytes followed by
/// the miner and pool identity, so the result always verifies as coming
/// from this (miner, pool) pair.
pub fn generate_nonce(miner_id: i32, pool_id: u8) -> (r: [u8; 16])
    ensures
        nonce_matches(r@, miner_id, pool_id),
{
    let entropy = random_bytes();
    make_nonce(&entropy, miner_id, pool_id)
}

/// Provenance: a nonce carries exactly one (miner tag, pool id) pair. If it
/// verifies for two identity pairs, those pairs agree on the pool id and on
/// the low 24 bits of the miner id.
pub proof fn lemma_nonce_provenance(n: Seq<u8>, m1: i32, p1: u8, m2: i32, p2: u8)
    requires
        nonce_matches(n, m1, p1),
        nonce_matches(n, m2, p2),
    ensures
        p1 == p2,
        miner_tag(m1) == miner_tag(m2),
        miner_word(m1) % 0x1000000 == miner_word(m2) % 0x1000000,
{
    assert(miner_tag(m1) =~= miner_tag(m2));
    let u1 = miner_word(m1);
    let u2 = miner_word(m2);
    assert(u1 % 0x1000000 == u2 % 0x1000000) by (bit_vector)
        requires
            u1 / 0x10000 % 0x100 == u2 / 0x10000 % 0x100,
            u1 / 0x100 % 0x100 == u2 / 0x100 % 0x100,
            u1 % 0x100 == u2 % 0x100,
    ;
}

} // verus!
