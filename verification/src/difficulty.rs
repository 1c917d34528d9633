//! Difficulty scoring of candidate hashes.
//!
//! A hash is scored by the number of leading zero nibbles (4-bit units,
//! counted from the most significant end) and by a secondary numeric
//! difficulty taken from the first non-zero nibble and the bytes that
//! follow it; a lower numeric value is harder.

use vstd::prelude::*;

verus! {

/// Score of a candidate hash: leading zero nibble count and the secondary
/// numeric threshold read at the first non-zero nibble.
#[derive(Clone, Copy, Debug, PartialEq, Eq, Structural)]
pub struct Difficulty {
    pub leading_zeroes: u128,
    pub difficulty_number: u128,
}

/// The byte at index `i`, with positions past the end reading as zero.
pub open spec fn byte_at(h: Seq<u8>, i: int) -> u8 {
    if 0 <= i < h.len() {
        h[i]
    } else {
        0
    }
}

/// Leading-zero-nibble count when the first non-zero byte of `h` at or after
/// `i` is at index `j`: two nibbles for every zero byte before it, plus one
/// more when its high nibble is also zero.
pub open spec fn scan_leading_zeroes(h: Seq<u8>, i: int) -> nat
    recommends
        0 <= i <= h.len(),
    decreases h.len() - i,
{
    if i < 0 || i >= h.len() {
        32
    } else if h[i] == 0 {
        scan_leading_zeroes(h, i + 1)
    } else if h[i] < 16 {
        (2 * i + 1) as nat
    } else {
        (2 * i) as nat
    }
}

/// Secondary difficulty number read at the first non-zero byte of `h` at or
/// after `i`: the sixteen bits that start at the first non-zero nibble.
pub open spec fn scan_difficulty_number(h: Seq<u8>, i: int) -> nat
    recommends
        0 <= i <= h.len(),
    decreases h.len() - i,
{
    if i < 0 || i >= h.len() {
        0
    } else if h[i] == 0 {
        scan_difficulty_number(h, i + 1)
    } else if h[i] < 16 {
        (h[i] * 4096 + byte_at(h, i + 1) * 16 + byte_at(h, i + 2) / 16) as nat
    } else {
        (h[i] * 256 + byte_at(h, i + 1)) as nat
    }
}

/// Leading zero nibbles of a 32-byte hash; an all-zero hash scores 32.
/// Hashes of any other length score zero.
pub open spec fn leading_zeroes_of(h: Seq<u8>) -> nat {
    if h.len() == 32 {
        scan_leading_zeroes(h, 0)
    } else {
        0
    }
}

/// Secondary difficulty number of a 32-byte hash; an all-zero hash scores 0.
/// Hashes of any other length score zero.
pub open spec fn difficulty_number_of(h: Seq<u8>) -> nat {
    if h.len() == 32 {
        scan_difficulty_number(h, 0)
    } else {
        0
    }
}

/// A scan over nothing but zero bytes scores 32 and 0.
proof fn lemma_scan_zeroes(h: Seq<u8>, i: int)
    requires
        0 <= i <= h.len(),
        forall|j: int| i <= j < h.len() ==> h[j] == 0,
    ensures
        scan_leading_zeroes(h, i) == 32,
        scan_difficulty_number(h, i) == 0,
    decreases h.len() - i,
{
    if i < h.len() {
        lemma_scan_zeroes(h, i + 1);
    }
}

/// Difficulty edge case: a 32-byte all-zero hash scores 32 leading zeroes
/// and difficulty number 0.
pub proof fn lemma_all_zero_hash_score(h: Seq<u8>)
    requires
        h.len() == 32,
        forall|i: int| 0 <= i < h.len() ==> h[i] == 0,
    ensures
        leading_zeroes_of(h) == 32,
        difficulty_number_of(h) == 0,
{
    lemma_scan_zeroes(h, 0);
}

/// Nibble counting: a hash whose first byte is zero and whose second byte
/// is non-zero with a zero high nibble scores three leading zeroes — two
/// for the full zero byte plus one for the zero high nibble, not two.
pub proof fn lemma_nibble_counting(h: Seq<u8>)
    requires
        h.len() == 32,
        h[0] == 0,
        0 < h[1] < 16,
    ensures
        leading_zeroes_of(h) == 3,
{
    assert(scan_leading_zeroes(h, 0) == scan_leading_zeroes(h, 1));
    assert(scan_leading_zeroes(h, 1) == 3);
}

/// Scores a hash: counts its leading zero nibbles and reads the secondary
/// numeric difficulty at the first non-zero nibble. Hashes that are not
/// exactly 32 bytes score (0, 0).
pub fn get_difficulty(hash: &[u8]) -> (r: Difficulty)
    ensures
        r.leading_zeroes == leading_zeroes_of(hash@),
        r.difficulty_number == difficulty_number_of(hash@),
{
    if hash.len() != 32 {
        return Difficulty { leading_zeroes: 0, difficulty_number: 0 };
    }

    let mut idx: usize = 0;
    while idx < 32
        invariant
            0 <= idx <= 32,
            hash@.len() == 32,
            scan_leading_zeroes(hash@, 0) == scan_leading_zeroes(hash@, idx as int),
            scan_difficulty_number(hash@, 0) == scan_difficulty_number(hash@, idx as int),
        decreases 32 - idx,
    {
        let chr = hash[idx];
        if chr != 0 {
            if chr < 16 {
                let b1: u128 = if idx + 1 < 32 {
                    hash[idx + 1] as u128
                } else {
                    0
                };
                let b2: u128 = if idx + 2 < 32 {
                    hash[idx + 2] as u128
                } else {
                    0
                };
                return Difficulty {
                    leading_zeroes: 2 * (idx as u128) + 1,
                    difficulty_number: (chr as u128) * 4096 + b1 * 16 + b2 / 16,
                };
            } else {
                let b1: u128 = if idx + 1 < 32 {
                    hash[idx + 1] as u128
                } else {
                    0
                };
                return Difficulty {
                    leading_zeroes: 2 * (idx as u128),
                    difficulty_number: (chr as u128) * 256 + b1,
                };
            }
        }
        idx = idx + 1;
    }

    Difficulty { leading_zeroes: 32, difficulty_number: 0 }
}

} // verus!
