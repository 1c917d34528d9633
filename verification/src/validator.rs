//! Proof-of-work validation: scoring, acceptance and winner detection.
//!
//! A miner submits a batch of hex nonces. Each entry is decoded, its
//! provenance checked against the miner and pool identity, the candidate
//! hash recomputed as double SHA-256 of the target state with that nonce
//! spliced in, and the hash scored. An entry is accepted exactly when it
//! meets the miner's sampling difficulty; among accepted entries the first
//! one that also beats the block's own difficulty is flagged as winning.

use vstd::prelude::*;
use crate::block::{Block, BlockView, ReadableBlock, hex_chars_of};
use crate::datum::{datum_bytes, block_to_target_state, splice_nonce, lemma_splice_target};
use crate::difficulty::{get_difficulty, leading_zeroes_of, difficulty_number_of};
use crate::hashing::{double_sha256, double_sha256_of};
use crate::hex_codec::{hex_decode_bytes, hex_encode, is_hex_string, hex_decoding_of};
use crate::nonce::{verify_nonce, nonce_matches};

verus! {

/// One submitted candidate: a nonce as lowercase hex text.
#[derive(Debug)]
pub struct SubmissionEntry {
    pub nonce: String,
}

/// A batch of candidates from one miner.
#[derive(Debug)]
pub struct Submission {
    pub address: String,
    pub entries: Vec<SubmissionEntry>,
}

/// An accepted share, ready to be persisted.
#[derive(Debug)]
pub struct ProcessedSubmissionEntry {
    pub miner_id: i32,
    pub block_number: i64,
    pub nonce: [u8; 16],
    pub sha: [u8; 32],
    pub sampling_difficulty: u8,
}

/// The UTF-8 bytes of an entry's nonce text.
pub open spec fn entry_bytes(e: SubmissionEntry) -> Seq<u8> {
    vstd::utf8::encode_utf8(e.nonce@)
}

/// The candidate hash of a block with a nonce spliced into its target
/// state: double SHA-256 of the canonical encoding.
pub open spec fn candidate_hash(b: BlockView, nonce: Seq<u8>) -> Seq<u8> {
    double_sha256_of(datum_bytes(b, nonce))
}

/// An entry is accepted exactly when its text is valid hex for 16 bytes,
/// those bytes carry this miner's and pool's identity, and the candidate
/// hash meets the miner's sampling difficulty.
pub open spec fn entry_accepted(
    sb: Seq<u8>,
    b: BlockView,
    miner_id: i32,
    pool_id: u8,
    sampling_difficulty: u8,
) -> bool {
    &&& is_hex_string(sb)
    &&& hex_decoding_of(sb).len() == 16
    &&& nonce_matches(hex_decoding_of(sb), miner_id, pool_id)
    &&& leading_zeroes_of(candidate_hash(b, hex_decoding_of(sb))) >= sampling_difficulty
}

/// How many of the first `entries` are accepted.
pub open spec fn accepted_count(
    entries: Seq<SubmissionEntry>,
    b: BlockView,
    miner_id: i32,
    pool_id: u8,
    sampling_difficulty: u8,
) -> nat
    decreases entries.len(),
{
    if entries.len() == 0 {
        0
    } else {
        accepted_count(entries.drop_last(), b, miner_id, pool_id, sampling_difficulty) + if
            entry_accepted(entry_bytes(entries.last()), b, miner_id, pool_id, sampling_difficulty) {
            1nat
        } else {
            0nat
        }
    }
}

/// The nonces of the accepted entries, in submission order.
pub open spec fn accepted_nonces(
    entries: Seq<SubmissionEntry>,
    b: BlockView,
    miner_id: i32,
    pool_id: u8,
    sampling_difficulty: u8,
) -> Seq<Seq<u8>>
    decreases entries.len(),
{
    if entries.len() == 0 {
        Seq::empty()
    } else {
        let rest = accepted_nonces(entries.drop_last(), b, miner_id, pool_id, sampling_difficulty);
        if entry_accepted(entry_bytes(entries.last()), b, miner_id, pool_id, sampling_difficulty) {
            rest.push(hex_decoding_of(entry_bytes(entries.last())))
        } else {
            rest
        }
    }
}

/// A hash beats the current block: more leading zero nibbles than required,
/// or equally many with a strictly lower difficulty number — and in any case
/// more leading zeroes than the network-specific absolute minimum.
pub open spec fn wins_block(h: Seq<u8>, b: BlockView, min_winning_zeroes: u8) -> bool {
    let lz = leading_zeroes_of(h);
    let dn = difficulty_number_of(h);
    &&& lz > min_winning_zeroes
    &&& (lz > b.leading_zeroes || (lz == b.leading_zeroes && dn < b.difficulty_number))
}

/// Does this hash meet a miner's sampling difficulty?
pub fn meets_sampling_difficulty(hash: &[u8], sampling_difficulty: u8) -> (r: bool)
    ensures
        r == (leading_zeroes_of(hash@) >= sampling_difficulty),
{
    let d = get_difficulty(hash);
    d.leading_zeroes >= sampling_difficulty as u128
}

/// Does this hash beat the current block's difficulty, over the absolute
/// minimum?
pub fn is_winning_share(hash: &[u8], block: &Block, min_winning_zeroes: u8) -> (r: bool)
    ensures
        r == wins_block(hash@, block@, min_winning_zeroes),
{
    let d = get_difficulty(hash);
    let enough_zeroes = d.leading_zeroes > min_winning_zeroes as u128;
    let too_many_zeroes = d.leading_zeroes > block.leading_zeroes as u128;
    let just_enough_zeroes = d.leading_zeroes == block.leading_zeroes as u128;
    let enough_difficulty = d.difficulty_number < block.difficulty_number as u128;
    enough_zeroes && (too_many_zeroes || (just_enough_zeroes && enough_difficulty))
}

/// Copies exactly 16 bytes into an array.
fn bytes16(v: &Vec<u8>) -> (r: [u8; 16])
    requires
        v@.len() == 16,
    ensures
        r@ == v@,
{
    let mut out: [u8; 16] = [0u8; 16];
    let mut i: usize = 0;
    while i < 16
        invariant
            0 <= i <= 16,
            v@.len() == 16,
            out@.len() == 16,
            forall|j: int| 0 <= j < i ==> out@[j] == v@[j],
        decreases 16 - i,
    {
        out[i] = v[i];
        i = i + 1;
    }
    proof {
        assert(out@ =~= v@);
    }
    out
}

/// The validated outcome of one submission batch: the accepted shares in
/// submission order, and the index of the first winning share, if any.
#[derive(Debug)]
pub struct SubmissionOutcome {
    pub accepted: Vec<ProcessedSubmissionEntry>,
    pub winner: Option<usize>,
}

/// Validates a batch of submitted nonces against the current block.
///
/// Every entry that decodes to 16 bytes, proves its provenance and meets
/// the sampling difficulty is accepted, with its recomputed candidate hash;
/// nothing else is. The winner, if any, is the first accepted share that
/// beats the block's difficulty over the absolute minimum.
#[verifier::rlimit(50)]
pub fn process_submission(
    block: &Block,
    entries: &Vec<SubmissionEntry>,
    miner_id: i32,
    pool_id: u8,
    sampling_difficulty: u8,
    min_winning_zeroes: u8,
) -> (r: SubmissionOutcome)
    requires
        block.block_number >= 0,
    ensures
        r.accepted@.len() == accepted_count(
            entries@,
            block@,
            miner_id,
            pool_id,
            sampling_difficulty,
        ),
        r.accepted@.map_values(|e: ProcessedSubmissionEntry| e.nonce@) == accepted_nonces(
            entries@,
            block@,
            miner_id,
            pool_id,
            sampling_difficulty,
        ),
        forall|k: int|
            0 <= k < r.accepted@.len() ==> {
                let e = #[trigger] r.accepted@[k];
                &&& e.miner_id == miner_id
                &&& e.block_number == block.block_number
                &&& e.sampling_difficulty == sampling_difficulty
                &&& nonce_matches(e.nonce@, miner_id, pool_id)
                &&& e.sha@ == candidate_hash(block@, e.nonce@)
                &&& leading_zeroes_of(e.sha@) >= sampling_difficulty
            },
        match r.winner {
            Some(w) => 0 <= w < r.accepted@.len() && wins_block(
                r.accepted@[w as int].sha@,
                block@,
                min_winning_zeroes,
            ) && forall|j: int|
                0 <= j < w ==> !wins_block(
                    (#[trigger] r.accepted@[j]).sha@,
                    block@,
                    min_winning_zeroes,
                ),
            None => forall|j: int|
                0 <= j < r.accepted@.len() ==> !wins_block(
                    (#[trigger] r.accepted@[j]).sha@,
                    block@,
                    min_winning_zeroes,
                ),
        },
{
    let zero_nonce: [u8; 16] = [0u8; 16];
    let mut target = block_to_target_state(block, &zero_nonce);
    let ghost mut cur_nonce: Seq<u8> = zero_nonce@;
    let mut accepted: Vec<ProcessedSubmissionEntry> = Vec::new();
    let mut i: usize = 0;
    while i < entries.len()
        invariant
            0 <= i <= entries@.len(),
            block.block_number >= 0,
            cur_nonce.len() == 16,
            target@ == datum_bytes(block@, cur_nonce),
            accepted@.len() == accepted_count(
                entries@.take(i as int),
                block@,
                miner_id,
                pool_id,
                sampling_difficulty,
            ),
            accepted@.map_values(|e: ProcessedSubmissionEntry| e.nonce@) == accepted_nonces(
                entries@.take(i as int),
                block@,
                miner_id,
                pool_id,
                sampling_difficulty,
            ),
            forall|k: int|
                0 <= k < accepted@.len() ==> {
                    let e = #[trigger] accepted@[k];
                    &&& e.miner_id == miner_id
                    &&& e.block_number == block.block_number
                    &&& e.sampling_difficulty == sampling_difficulty
                    &&& nonce_matches(e.nonce@, miner_id, pool_id)
                    &&& e.sha@ == candidate_hash(block@, e.nonce@)
                    &&& leading_zeroes_of(e.sha@) >= sampling_difficulty
                },
        decreases entries@.len() - i,
    {
        let entry = &entries[i];
        let ghost sb = entry_bytes(entries@[i as int]);
        let ghost prev_nonces = accepted@.map_values(|e: ProcessedSubmissionEntry| e.nonce@);
        let nonce_vec_opt = hex_decode_bytes(entry.nonce.as_str().as_bytes());
        let is_accepted: bool = match nonce_vec_opt {
            None => false,
            Some(nonce_vec) => {
                if nonce_vec.len() != 16 {
                    false
                } else {
                    let nonce_arr = bytes16(&nonce_vec);
                    let ghost before_splice = target@;
                    splice_nonce(&mut target, &nonce_arr);
                    proof {
                        lemma_splice_target(
                            block@,
                            cur_nonce,
                            nonce_arr@,
                            before_splice,
                            target@,
                        );
                        cur_nonce = nonce_arr@;
                    }
                    let hash = double_sha256(target.as_slice());
                    if !meets_sampling_difficulty(hash.as_slice(), sampling_difficulty) {
                        false
                    } else if !verify_nonce(nonce_arr.as_slice(), miner_id, pool_id) {
                        false
                    } else {
                        accepted.push(
                            ProcessedSubmissionEntry {
                                miner_id,
                                block_number: block.block_number,
                                nonce: nonce_arr,
                                sha: hash,
                                sampling_difficulty,
                            },
                        );
                        true
                    }
                }
            },
        };
        proof {
            assert(entries@.take(i + 1).drop_last() =~= entries@.take(i as int));
            assert(entries@.take(i + 1).last() == entries@[i as int]);
            assert(is_accepted == entry_accepted(
                sb,
                block@,
                miner_id,
                pool_id,
                sampling_difficulty,
            ));
            if is_accepted {
                assert(accepted@.last().nonce@ == hex_decoding_of(sb));
                assert(accepted@.map_values(|e: ProcessedSubmissionEntry| e.nonce@)
                    =~= prev_nonces.push(hex_decoding_of(sb)));
            } else {
                assert(accepted@.map_values(|e: ProcessedSubmissionEntry| e.nonce@)
                    =~= prev_nonces);
            }
        }
        i = i + 1;
    }
    proof {
        assert(entries@.take(entries@.len() as int) =~= entries@);
    }
    let mut winner: Option<usize> = None;
    let mut w: usize = 0;
    while w < accepted.len()
        invariant
            0 <= w <= accepted@.len(),
            winner is None,
            accepted@.len() == accepted_count(
                entries@,
                block@,
                miner_id,
                pool_id,
                sampling_difficulty,
            ),
            accepted@.map_values(|e: ProcessedSubmissionEntry| e.nonce@) == accepted_nonces(
                entries@,
                block@,
                miner_id,
                pool_id,
                sampling_difficulty,
            ),
            forall|k: int|
                0 <= k < accepted@.len() ==> {
                    let e = #[trigger] accepted@[k];
                    &&& e.miner_id == miner_id
                    &&& e.block_number == block.block_number
                    &&& e.sampling_difficulty == sampling_difficulty
                    &&& nonce_matches(e.nonce@, miner_id, pool_id)
                    &&& e.sha@ == candidate_hash(block@, e.nonce@)
                    &&& leading_zeroes_of(e.sha@) >= sampling_difficulty
                },
            forall|j: int|
                0 <= j < w ==> !wins_block(
                    (#[trigger] accepted@[j]).sha@,
                    block@,
                    min_winning_zeroes,
                ),
        decreases accepted@.len() - w,
    {
        if is_winning_share(accepted[w].sha.as_slice(), block, min_winning_zeroes) {
            winner = Some(w);
            return SubmissionOutcome { accepted, winner };
        }
        w = w + 1;
    }
    SubmissionOutcome { accepted, winner }
}

/// What a miner gets back for a batch: how many shares were accepted, a
/// fresh nonce for the next round, and the block it should keep working on.
#[derive(Debug)]
pub struct SubmitProofOfWorkResponse {
    pub num_accepted: u64,
    pub nonce: String,
    pub working_block: ReadableBlock,
}

/// The raw variant of the response: the next round's full target-state
/// buffer instead of a readable block.
#[derive(Debug)]
pub struct RawSubmitProofOfWorkResponse {
    pub num_accepted: u64,
    pub raw_target_state: String,
}

/// Renders the response to a submission batch: the accepted count, the next
/// nonce as hex, and the working block rendered for clients.
pub fn build_submission_response(num_accepted: u64, next_nonce: &[u8; 16], block: &Block) -> (r:
    SubmitProofOfWorkResponse)
    ensures
        r.num_accepted == num_accepted,
        r.nonce@ == hex_chars_of(next_nonce@),
        r.working_block.block_number == block@.block_number,
        r.working_block.current_hash@ == hex_chars_of(block@.current_hash),
        r.working_block.leading_zeroes == block@.leading_zeroes,
        r.working_block.difficulty_number == block@.difficulty_number,
        r.working_block.epoch_time == block@.epoch_time,
        r.working_block.current_time == block@.current_time,
        r.working_block.extra@ == hex_chars_of(block@.extra),
        r.working_block.interlink.deep_view() == block@.interlink.map_values(
            |b: Seq<u8>| hex_chars_of(b),
        ),
{
    SubmitProofOfWorkResponse {
        num_accepted,
        nonce: hex_encode(next_nonce.as_slice()),
        working_block: block.to_readable(),
    }
}

/// Renders the raw response: the accepted count and the next round's target
/// state as hex.
pub fn build_raw_submission_response(num_accepted: u64, block: &Block, next_nonce: &[u8; 16]) -> (r:
    RawSubmitProofOfWorkResponse)
    requires
        block.block_number >= 0,
    ensures
        r.num_accepted == num_accepted,
        r.raw_target_state@ == hex_chars_of(datum_bytes(block@, next_nonce@)),
{
    let target = block_to_target_state(block, next_nonce);
    RawSubmitProofOfWorkResponse {
        num_accepted,
        raw_target_state: hex_encode(target.as_slice()),
    }
}

/// The sampling difficulty granted for a work request: the requested value
/// floor-clamped to the configured minimum, or the default when nothing was
/// requested.
pub fn clamp_sampling_difficulty(requested: Option<u8>, minimum: u8, default_diff: u8) -> (r: u8)
    ensures
        r == match requested {
            Some(d) => if d < minimum {
                minimum
            } else {
                d
            },
            None => default_diff,
        },
{
    match requested {
        Some(d) => if d < minimum {
            minimum
        } else {
            d
        },
        None => default_diff,
    }
}

} // verus!
