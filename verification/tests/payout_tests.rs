use pool_core::payout::{
    compute_miner_payments, estimate_hashes_for_difficulty, estimate_hashrate, payout_window_start,
    proportional_payout, try_total_hashes, MinerWork,
};

fn work(miner_id: i64, address: &str, proof_count: u64, sampling_difficulty: u8) -> MinerWork {
    MinerWork { miner_id, address: String::from(address), proof_count, sampling_difficulty }
}

#[test]
fn hashes_per_share_grow_sixteenfold_per_nibble() {
    assert_eq!(estimate_hashes_for_difficulty(1, 0), 1);
    assert_eq!(estimate_hashes_for_difficulty(1, 1), 16);
    assert_eq!(estimate_hashes_for_difficulty(3, 8), 3 * 4_294_967_296);
    assert_eq!(estimate_hashes_for_difficulty(0, 200), 0);
}

#[test]
fn hashrate_sums_per_miner_rates() {
    let miners = vec![work(1, "a", 2, 1), work(2, "b", 4, 0)];
    // Per miner over 4 seconds: 32 / 4 = 8 and 4 / 4 = 1.
    assert_eq!(estimate_hashrate(&miners, 4), 9);
    // Each miner's rate truncates toward zero: 32 / 5 = 6 and 4 / 5 = 0.
    assert_eq!(estimate_hashrate(&miners, 5), 6);
}

#[test]
fn pool_hashrate_is_additive() {
    let a = work(1, "a", 2, 1);
    let b = work(2, "b", 4, 0);
    let c = work(3, "c", 7, 2);
    let together = estimate_hashrate(&vec![a, b, c], 5);
    let apart = estimate_hashrate(&vec![work(1, "a", 2, 1)], 5)
        + estimate_hashrate(&vec![work(2, "b", 4, 0)], 5)
        + estimate_hashrate(&vec![work(3, "c", 7, 2)], 5);
    assert_eq!(together, apart);
}

#[test]
fn total_hashes_are_computed_or_refused() {
    let miners = vec![work(1, "a", 2, 1), work(2, "b", 4, 0)];
    assert_eq!(try_total_hashes(&miners), Some(36));
    assert_eq!(try_total_hashes(&Vec::new()), Some(0));
    // A sampling difficulty past what a u128 holds is refused, not wrapped.
    let huge = vec![work(1, "a", 1, 200)];
    assert_eq!(try_total_hashes(&huge), None);
    // ... unless its count is zero, in which case it contributes nothing.
    let idle = vec![work(1, "a", 0, 200)];
    assert_eq!(try_total_hashes(&idle), Some(0));
}

#[test]
fn proportional_payout_truncates_toward_zero() {
    assert_eq!(proportional_payout(1000, 300, 400), 750);
    assert_eq!(proportional_payout(1000, 100, 400), 250);
    assert_eq!(proportional_payout(10, 1, 3), 3);
    assert_eq!(proportional_payout(10, 2, 3), 6);
}

#[test]
fn two_miners_split_the_pool_by_hashrate_ratio() {
    // H1 = 300, H2 = 100 over the same window: payouts 750 and 250 stand in
    // exactly the 3:1 ratio of the hashrates.
    let p1 = proportional_payout(1000, 300, 400);
    let p2 = proportional_payout(1000, 100, 400);
    assert_eq!(p1, 750);
    assert_eq!(p2, 250);
    assert_eq!(p1 * 100, p2 * 300);
    // The truncation remainder stays with the pool: payouts never exceed it.
    assert!(p1 + p2 <= 1000);
}

#[test]
fn uneven_split_stays_within_one_unit_of_proportional() {
    let reward: u64 = 100;
    let h1: u128 = 3;
    let h2: u128 = 7;
    let p1 = proportional_payout(reward, h1, h1 + h2);
    let p2 = proportional_payout(reward, h2, h1 + h2);
    assert_eq!(p1, 30);
    assert_eq!(p2, 70);
    assert!(u128::from(p1) * h2 < (u128::from(p2) + 1) * h1);
    assert!(u128::from(p2) * h1 < (u128::from(p1) + 1) * h2);
}

#[test]
fn payments_include_finders_bonus() {
    let miners = vec![work(1, "addr_a", 3, 0), work(2, "addr_b", 1, 0)];
    let payments = compute_miner_payments(&miners, 100, 10, 2);
    assert_eq!(payments.len(), 2);
    assert_eq!(payments[0].address, "addr_a");
    assert_eq!(payments[0].amount, 75);
    assert_eq!(payments[1].address, "addr_b");
    assert_eq!(payments[1].amount, 25 + 10);
}

#[test]
fn payouts_never_exceed_pool_plus_bonus() {
    let miners = vec![
        work(1, "a", 1, 2),
        work(2, "b", 3, 1),
        work(3, "c", 7, 0),
    ];
    let reward: u64 = 997;
    let payments = compute_miner_payments(&miners, reward, 13, 2);
    let total: u64 = payments.iter().map(|p| p.amount).sum();
    assert!(total <= reward + 13);
}

#[test]
fn window_starts_at_the_later_timestamp() {
    assert_eq!(payout_window_start(Some(10), 5, Some(1)), Some(10));
    assert_eq!(payout_window_start(Some(3), 5, Some(1)), Some(5));
    assert_eq!(payout_window_start(None, 5, Some(1)), Some(1));
    assert_eq!(payout_window_start(None, 5, None), None);
}
