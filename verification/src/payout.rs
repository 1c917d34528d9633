//! Windowed proportional payouts (pay-per-last-N-shares style).
//!
//! A miner's expected work for one accepted share at sampling difficulty `d`
//! is `16^d` raw hash attempts under a uniform-hash model, so a miner's
//! windowed work is `count * 16^d` and its hashrate is that divided by the
//! window length in seconds. Shares of a reward pool are proportional to
//! work; since every miner is measured over the same window, the window
//! length cancels in the ratio and payouts are computed from hash counts.
//! Each payout is truncated toward zero; the truncation remainder is
//! deliberately retained by the pool, not redistributed.

use vstd::prelude::*;
use vstd::arithmetic::div_mod::{
    lemma_fundamental_div_mod,
    lemma_div_is_ordered,
    lemma_div_multiples_vanish,
    lemma_div_nonincreasing,
    lemma_div_pos_is_pos,
    lemma_mod_division_less_than_divisor,
};
use vstd::arithmetic::mul::{
    lemma_mul_is_distributive_add,
    lemma_mul_inequality,
    lemma_mul_is_commutative,
};

verus! {

/// Powers of sixteen: the expected number of raw hash attempts per share
/// accepted at a given leading-zero-nibble difficulty.
pub open spec fn pow16(z: nat) -> nat
    decreases z,
{
    if z == 0 {
        1
    } else {
        16 * pow16((z - 1) as nat)
    }
}

/// Powers of sixteen are positive and monotone.
pub proof fn lemma_pow16_monotone(a: nat, b: nat)
    requires
        a <= b,
    ensures
        1 <= pow16(a) <= pow16(b),
    decreases b,
{
    if b == 0 {
    } else if a == b {
        lemma_pow16_monotone((a - 1) as nat, (b - 1) as nat);
    } else {
        lemma_pow16_monotone(a, (b - 1) as nat);
    }
}

/// One miner's accepted-share count over the payout window, with the
/// sampling difficulty those shares were accepted at, and where the pay
/// should go.
#[derive(Debug)]
pub struct MinerWork {
    pub miner_id: i64,
    pub address: String,
    pub proof_count: u64,
    pub sampling_difficulty: u8,
}

/// The raw hash attempts a miner's windowed shares stand for.
pub open spec fn miner_hashes(m: MinerWork) -> nat {
    (m.proof_count * pow16(m.sampling_difficulty as nat)) as nat
}

/// Pool-wide raw hash attempts over the window.
pub open spec fn total_hashes(ms: Seq<MinerWork>) -> nat
    decreases ms.len(),
{
    if ms.len() == 0 {
        0
    } else {
        total_hashes(ms.drop_last()) + miner_hashes(ms.last())
    }
}

/// A prefix of the miners accounts for at most the whole pool's hashes.
pub proof fn lemma_total_hashes_take_le(ms: Seq<MinerWork>, i: int)
    requires
        0 <= i <= ms.len(),
    ensures
        total_hashes(ms.take(i)) <= total_hashes(ms),
    decreases ms.len() - i,
{
    if i == ms.len() {
        assert(ms.take(i) =~= ms);
    } else {
        lemma_total_hashes_take_le(ms, i + 1);
        assert(ms.take(i + 1).drop_last() =~= ms.take(i));
        assert(ms.take(i + 1).last() == ms[i]);
    }
}

/// Estimated raw hash attempts behind `proof_count` shares accepted at
/// `zeros` leading zero nibbles: `proof_count * 16^zeros`.
pub fn estimate_hashes_for_difficulty(proof_count: u64, zeros: u8) -> (r: u128)
    requires
        proof_count * pow16(zeros as nat) <= u128::MAX,
    ensures
        r == proof_count * pow16(zeros as nat),
{
    if proof_count == 0 {
        return 0;
    }
    let mut acc: u128 = 1;
    let mut k: u8 = 0;
    proof {
        lemma_pow16_monotone(0, zeros as nat);
        assert(1 * pow16(zeros as nat) <= proof_count * pow16(zeros as nat)) by (nonlinear_arith)
            requires
                1 <= proof_count,
        ;
    }
    while k < zeros
        invariant
            0 <= k <= zeros,
            acc == pow16(k as nat),
            pow16(zeros as nat) <= u128::MAX,
            1 <= proof_count,
            proof_count * pow16(zeros as nat) <= u128::MAX,
        decreases zeros - k,
    {
        proof {
            lemma_pow16_monotone((k + 1) as nat, zeros as nat);
        }
        acc = acc * 16;
        k = k + 1;
    }
    proof {
        assert(proof_count * acc <= u128::MAX);
    }
    (proof_count as u128) * acc
}

/// One miner accounts for at most the whole pool's hashes.
proof fn lemma_miner_hashes_le_total(ms: Seq<MinerWork>, i: int)
    requires
        0 <= i < ms.len(),
    ensures
        miner_hashes(ms[i]) <= total_hashes(ms),
{
    lemma_total_hashes_take_le(ms, i + 1);
    assert(ms.take(i + 1).drop_last() =~= ms.take(i));
    assert(ms.take(i + 1).last() == ms[i]);
}

/// Computes the pool's total raw hash attempts, or `None` exactly when the
/// total does not fit a u128. Callers that must establish the bounds the
/// other payout functions ask for can test this value first.
pub fn try_total_hashes(work: &Vec<MinerWork>) -> (r: Option<u128>)
    ensures
        r is Some <==> total_hashes(work@) <= u128::MAX,
        r is Some ==> r->0 == total_hashes(work@),
{
    let mut acc: u128 = 0;
    let mut i: usize = 0;
    while i < work.len()
        invariant
            0 <= i <= work@.len(),
            acc == total_hashes(work@.take(i as int)),
        decreases work@.len() - i,
    {
        proof {
            assert(work@.take(i + 1).drop_last() =~= work@.take(i as int));
            assert(work@.take(i + 1).last() == work@[i as int]);
        }
        let count: u64 = work[i].proof_count;
        let d: u8 = work[i].sampling_difficulty;
        if count > 0 {
            let mut pw: u128 = 1;
            let mut k: u8 = 0;
            while k < d
                invariant
                    0 <= k <= d,
                    pw == pow16(k as nat),
                    i < work@.len(),
                    work@[i as int].proof_count == count,
                    work@[i as int].sampling_difficulty == d,
                    count >= 1,
                decreases d - k,
            {
                pw = match pw.checked_mul(16) {
                    Some(x) => x,
                    None => {
                        proof {
                            lemma_pow16_monotone((k + 1) as nat, d as nat);
                            let c = work@[i as int].proof_count;
                            let p = pow16(d as nat);
                            assert(c * p >= p) by (nonlinear_arith)
                                requires
                                    c >= 1,
                                    p >= 0,
                            ;
                            assert(miner_hashes(work@[i as int]) == c * p);
                            lemma_miner_hashes_le_total(work@, i as int);
                        }
                        return None;
                    },
                };
                k = k + 1;
            }
            let term: u128 = match (count as u128).checked_mul(pw) {
                Some(t) => t,
                None => {
                    proof {
                        lemma_miner_hashes_le_total(work@, i as int);
                    }
                    return None;
                },
            };
            acc = match acc.checked_add(term) {
                Some(a) => a,
                None => {
                    proof {
                        lemma_total_hashes_take_le(work@, i + 1);
                    }
                    return None;
                },
            };
        } else {
            proof {
                let p = pow16(work@[i as int].sampling_difficulty as nat);
                assert(0 * p == 0) by (nonlinear_arith);
                assert(miner_hashes(work@[i as int]) == 0);
            }
        }
        i = i + 1;
    }
    proof {
        assert(work@.take(work@.len() as int) =~= work@);
    }
    Some(acc)
}

/// One miner's hashrate over the window: its raw hash attempts divided by
/// the window length in seconds, truncated.
pub open spec fn miner_hashrate(m: MinerWork, window_seconds: u64) -> int
    recommends
        window_seconds > 0,
{
    miner_hashes(m) as int / window_seconds as int
}

/// Pool-wide hashrate: the sum of the miners' hashrates over the same window.
pub open spec fn sum_hashrates(ms: Seq<MinerWork>, window_seconds: u64) -> int
    recommends
        window_seconds > 0,
    decreases ms.len(),
{
    if ms.len() == 0 {
        0
    } else {
        sum_hashrates(ms.drop_last(), window_seconds) + miner_hashrate(ms.last(), window_seconds)
    }
}

/// Each miner's hashrate is at most its hash count, so the hashrate sum of
/// a prefix is bounded by the whole pool's hash count.
proof fn lemma_sum_hashrates_le_hashes(ms: Seq<MinerWork>, window_seconds: u64)
    requires
        window_seconds > 0,
    ensures
        0 <= sum_hashrates(ms, window_seconds) <= total_hashes(ms),
    decreases ms.len(),
{
    if ms.len() > 0 {
        lemma_sum_hashrates_le_hashes(ms.drop_last(), window_seconds);
        lemma_div_nonincreasing(miner_hashes(ms.last()) as int, window_seconds as int);
        lemma_div_pos_is_pos(miner_hashes(ms.last()) as int, window_seconds as int);
    }
}

/// The pool hashrate is additive: measuring two groups of miners over the
/// same window and adding gives the same as measuring them together.
pub proof fn lemma_hashrate_additive(a: Seq<MinerWork>, b: Seq<MinerWork>, window_seconds: u64)
    requires
        window_seconds > 0,
    ensures
        sum_hashrates(a + b, window_seconds) == sum_hashrates(a, window_seconds) + sum_hashrates(
            b,
            window_seconds,
        ),
    decreases b.len(),
{
    if b.len() == 0 {
        assert(a + b =~= a);
    } else {
        lemma_hashrate_additive(a, b.drop_last(), window_seconds);
        assert((a + b).drop_last() =~= a + b.drop_last());
        assert((a + b).last() == b.last());
    }
}

/// Estimated pool hashrate: the sum across miners of each miner's raw hash
/// attempts divided by the window length in seconds (each truncated).
pub fn estimate_hashrate(work: &Vec<MinerWork>, window_seconds: u64) -> (r: u128)
    requires
        window_seconds > 0,
        total_hashes(work@) <= u128::MAX,
    ensures
        r == sum_hashrates(work@, window_seconds),
{
    let mut acc: u128 = 0;
    let mut i: usize = 0;
    while i < work.len()
        invariant
            0 <= i <= work@.len(),
            window_seconds > 0,
            acc == sum_hashrates(work@.take(i as int), window_seconds),
            total_hashes(work@) <= u128::MAX,
        decreases work@.len() - i,
    {
        proof {
            lemma_total_hashes_take_le(work@, i + 1);
            lemma_sum_hashrates_le_hashes(work@.take(i + 1), window_seconds);
            assert(work@.take(i + 1).drop_last() =~= work@.take(i as int));
            assert(work@.take(i + 1).last() == work@[i as int]);
        }
        let h = estimate_hashes_for_difficulty(
            work[i].proof_count,
            work[i].sampling_difficulty,
        );
        acc = acc + h / (window_seconds as u128);
        i = i + 1;
    }
    proof {
        assert(work@.take(work@.len() as int) =~= work@);
    }
    acc
}

/// One miner's truncated share of a reward pool: `reward_pool * miner_hashes
/// / total_hashes`, rounded toward zero.
pub fn proportional_payout(reward_pool: u64, miner_hashes: u128, total_hashes: u128) -> (r: u64)
    requires
        0 < total_hashes,
        miner_hashes <= total_hashes,
        reward_pool * total_hashes <= u128::MAX,
    ensures
        r == reward_pool * miner_hashes / (total_hashes as int),
        r <= reward_pool,
{
    proof {
        assert(reward_pool * miner_hashes <= reward_pool * total_hashes) by (nonlinear_arith)
            requires
                miner_hashes <= total_hashes,
                0 <= reward_pool,
        ;
        lemma_div_is_ordered(
            reward_pool as int * miner_hashes as int,
            reward_pool as int * total_hashes as int,
            total_hashes as int,
        );
        lemma_mul_is_commutative(reward_pool as int, total_hashes as int);
        lemma_div_multiples_vanish(reward_pool as int, total_hashes as int);
    }
    let wide = (reward_pool as u128) * miner_hashes;
    (wide / total_hashes) as u64
}

/// Sum of two truncated quotients never exceeds the truncated quotient of
/// the sum.
proof fn lemma_div_add_le(a: int, b: int, t: int)
    requires
        0 <= a,
        0 <= b,
        0 < t,
    ensures
        a / t + b / t <= (a + b) / t,
{
    lemma_fundamental_div_mod(a, t);
    lemma_fundamental_div_mod(b, t);
    lemma_mod_division_less_than_divisor(a, t);
    lemma_mod_division_less_than_divisor(b, t);
    let q = a / t + b / t;
    lemma_mul_is_distributive_add(t, a / t, b / t);
    assert(t * q == t * (a / t) + t * (b / t));
    assert(q * t <= a + b) by {
        lemma_mul_is_commutative(q, t);
    }
    lemma_div_is_ordered(q * t, a + b, t);
    lemma_mul_is_commutative(q, t);
    lemma_div_multiples_vanish(q, t);
}

/// Sum of the truncated base payouts of a set of miners.
pub open spec fn sum_base_payouts(ms: Seq<MinerWork>, reward_pool: nat, total: nat) -> nat
    decreases ms.len(),
{
    if ms.len() == 0 {
        0
    } else {
        sum_base_payouts(ms.drop_last(), reward_pool, total) + reward_pool * miner_hashes(
            ms.last(),
        ) / total
    }
}

/// The base payouts sum to at most `reward_pool * total_hashes / total`.
proof fn lemma_sum_base_payouts_le(ms: Seq<MinerWork>, reward_pool: nat, total: nat)
    requires
        0 < total,
    ensures
        sum_base_payouts(ms, reward_pool, total) <= reward_pool * total_hashes(ms) / total,
    decreases ms.len(),
{
    if ms.len() == 0 {
    } else {
        let dl = ms.drop_last();
        let h = miner_hashes(ms.last());
        lemma_sum_base_payouts_le(dl, reward_pool, total);
        lemma_div_add_le(
            reward_pool as int * total_hashes(dl) as int,
            reward_pool as int * h as int,
            total as int,
        );
        lemma_mul_is_distributive_add(
            reward_pool as int,
            total_hashes(dl) as int,
            h as int,
        );
    }
}

/// Payouts never exceed the reward pool: however the pool's work divides
/// among miners, the truncated proportional payouts sum to at most the
/// datum's reward pool after fees.
pub proof fn lemma_payouts_bounded(ms: Seq<MinerWork>, reward_pool: nat)
    requires
        0 < total_hashes(ms),
    ensures
        sum_base_payouts(ms, reward_pool, total_hashes(ms)) <= reward_pool,
{
    let total = total_hashes(ms);
    lemma_sum_base_payouts_le(ms, reward_pool, total);
    lemma_mul_is_commutative(reward_pool as int, total as int);
    lemma_div_multiples_vanish(reward_pool as int, total as int);
}

/// Proportionality: two miners with windowed work `h1` and `h2` split a
/// reward pool in the ratio `h1 : h2`, up to integer truncation. Cross-
/// multiplied: each payout is below the other's scaled up by one unit.
pub proof fn lemma_two_miner_split(reward_pool: nat, h1: nat, h2: nat)
    requires
        0 < h1,
        0 < h2,
    ensures
        reward_pool * h1 / (h1 + h2) * h2 < (reward_pool * h2 / (h1 + h2) + 1) * h1,
        reward_pool * h2 / (h1 + h2) * h1 < (reward_pool * h1 / (h1 + h2) + 1) * h2,
{
    let t = (h1 + h2) as int;
    let p1 = reward_pool as int * h1 as int / t;
    let p2 = reward_pool as int * h2 as int / t;
    lemma_fundamental_div_mod(reward_pool as int * h1 as int, t);
    lemma_fundamental_div_mod(reward_pool as int * h2 as int, t);
    lemma_mod_division_less_than_divisor(reward_pool as int * h1 as int, t);
    lemma_mod_division_less_than_divisor(reward_pool as int * h2 as int, t);
    let r1 = reward_pool as int * h1 as int % t;
    let r2 = reward_pool as int * h2 as int % t;
    assert(p1 * h2 < (p2 + 1) * h1) by (nonlinear_arith)
        requires
            reward_pool as int * h1 as int == t * p1 + r1,
            reward_pool as int * h2 as int == t * p2 + r2,
            0 <= r1 < t,
            0 <= r2 < t,
            t == h1 + h2,
            0 < h1,
            0 < h2,
    ;
    assert(p2 * h1 < (p1 + 1) * h2) by (nonlinear_arith)
        requires
            reward_pool as int * h1 as int == t * p1 + r1,
            reward_pool as int * h2 as int == t * p2 + r2,
            0 <= r1 < t,
            0 <= r2 < t,
            t == h1 + h2,
            0 < h1,
            0 < h2,
    ;
}

/// A computed payment obligation: where to pay and how much.
#[derive(Debug)]
pub struct MinerPayment {
    pub address: String,
    pub amount: u64,
}

/// The payment owed to one miner: its truncated proportional share of the
/// reward pool, plus the finder's bonus if it found the winning share.
pub open spec fn expected_payment(
    m: MinerWork,
    reward_pool: nat,
    total: nat,
    finders_fee: nat,
    finder_miner_id: i64,
) -> nat {
    reward_pool * miner_hashes(m) / total + if m.miner_id == finder_miner_id {
        finders_fee
    } else {
        0
    }
}

/// Computes the per-miner payments for one datum's reward pool: each miner's
/// truncated proportional share of the pool by windowed work, with the
/// finder's bonus credited to the miner that found the winning share.
pub fn compute_miner_payments(
    work: &Vec<MinerWork>,
    reward_pool: u64,
    finders_fee: u64,
    finder_miner_id: i64,
) -> (r: Vec<MinerPayment>)
    requires
        0 < total_hashes(work@),
        total_hashes(work@) <= u128::MAX,
        reward_pool * total_hashes(work@) <= u128::MAX,
        reward_pool + finders_fee <= u64::MAX,
    ensures
        r@.len() == work@.len(),
        forall|k: int|
            0 <= k < work@.len() ==> {
                &&& (#[trigger] r@[k]).address@ == work@[k].address@
                &&& r@[k].amount == expected_payment(
                    work@[k],
                    reward_pool as nat,
                    total_hashes(work@),
                    finders_fee as nat,
                    finder_miner_id,
                )
            },
{
    let ghost total_spec = total_hashes(work@);
    let mut total: u128 = 0;
    let mut i: usize = 0;
    while i < work.len()
        invariant
            0 <= i <= work@.len(),
            total == total_hashes(work@.take(i as int)),
            total_hashes(work@) <= u128::MAX,
        decreases work@.len() - i,
    {
        proof {
            lemma_total_hashes_take_le(work@, i + 1);
            assert(work@.take(i + 1).drop_last() =~= work@.take(i as int));
            assert(work@.take(i + 1).last() == work@[i as int]);
        }
        let h = estimate_hashes_for_difficulty(
            work[i].proof_count,
            work[i].sampling_difficulty,
        );
        total = total + h;
        i = i + 1;
    }
    proof {
        assert(work@.take(work@.len() as int) =~= work@);
    }
    let mut payments: Vec<MinerPayment> = Vec::new();
    let mut j: usize = 0;
    while j < work.len()
        invariant
            0 <= j <= work@.len(),
            total == total_hashes(work@),
            0 < total_hashes(work@),
            total_hashes(work@) <= u128::MAX,
            reward_pool * total_hashes(work@) <= u128::MAX,
            reward_pool + finders_fee <= u64::MAX,
            payments@.len() == j,
            forall|k: int|
                0 <= k < j ==> {
                    &&& (#[trigger] payments@[k]).address@ == work@[k].address@
                    &&& payments@[k].amount == expected_payment(
                        work@[k],
                        reward_pool as nat,
                        total_hashes(work@),
                        finders_fee as nat,
                        finder_miner_id,
                    )
                },
        decreases work@.len() - j,
    {
        proof {
            lemma_total_hashes_take_le(work@, j + 1);
            assert(work@.take(j + 1).drop_last() =~= work@.take(j as int));
            assert(work@.take(j + 1).last() == work@[j as int]);
            assert(miner_hashes(work@[j as int]) <= total_hashes(work@));
        }
        let h = estimate_hashes_for_difficulty(
            work[j].proof_count,
            work[j].sampling_difficulty,
        );
        let base = proportional_payout(reward_pool, h, total);
        let bonus: u64 = if work[j].miner_id == finder_miner_id {
            finders_fee
        } else {
            0
        };
        let mut addr = String::new();
        addr.append(work[j].address.as_str());
        payments.push(MinerPayment { address: addr, amount: base + bonus });
        j = j + 1;
    }
    payments
}

/// The start of the payout window: the later of the last settled datum's
/// timestamp and the oldest still-unpaid datum's creation time; if no datum
/// has ever been settled, the oldest recorded share's creation time; if
/// there are no shares either, no window.
pub fn payout_window_start(
    last_settled_at: Option<i64>,
    oldest_unpaid_created: i64,
    oldest_share_created: Option<i64>,
) -> (r: Option<i64>)
    ensures
        r == match last_settled_at {
            Some(t) => Some(
                if t > oldest_unpaid_created {
                    t
                } else {
                    oldest_unpaid_created
                },
            ),
            None => oldest_share_created,
        },
{
    match last_settled_at {
        Some(t) => if t > oldest_unpaid_created {
            Some(t)
        } else {
            Some(oldest_unpaid_created)
        },
        None => oldest_share_created,
    }
}

} // verus!
