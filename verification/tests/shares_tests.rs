use pool_core::shares::{ProofOfWork, ShareLedger};

fn share(miner_id: i32, sha: &str, nonce: &str, created_at: i64) -> ProofOfWork {
    ProofOfWork {
        miner_id,
        miner_address: String::from("addr"),
        block_number: 1,
        sha: String::from(sha),
        nonce: String::from(nonce),
        created_at,
        sampling_difficulty: 8,
    }
}

#[test]
fn records_a_batch() {
    let mut ledger = ShareLedger::new();
    let inserted = ledger.insert_shares(vec![share(1, "s1", "n1", 10), share(1, "s2", "n2", 11)]);
    assert_eq!(inserted, 2);
    assert_eq!(ledger.len(), 2);
}

#[test]
fn resubmission_is_not_double_counted() {
    // The same (miner, nonce) pair resubmitted later: its hash is already
    // recorded, so it is skipped — and the rest of the batch still lands.
    let mut ledger = ShareLedger::new();
    let first = ledger.insert_shares(vec![share(1, "s1", "n1", 10)]);
    assert_eq!(first, 1);
    let second = ledger.insert_shares(vec![share(1, "s1", "n1", 20), share(1, "s3", "n3", 21)]);
    assert_eq!(second, 1);
    assert_eq!(ledger.len(), 2);
}

#[test]
fn duplicate_inside_one_batch_is_skipped() {
    let mut ledger = ShareLedger::new();
    let inserted = ledger.insert_shares(vec![
        share(1, "s1", "n1", 10),
        share(2, "s1", "n1", 10),
        share(2, "s2", "n2", 10),
    ]);
    assert_eq!(inserted, 2);
    assert_eq!(ledger.len(), 2);
}

#[test]
fn counts_shares_per_miner_in_window() {
    let mut ledger = ShareLedger::new();
    ledger.insert_shares(vec![
        share(1, "s1", "n1", 10),
        share(1, "s2", "n2", 20),
        share(1, "s3", "n3", 30),
        share(2, "s4", "n4", 20),
    ]);
    assert_eq!(ledger.count_in_window(1, 10, 20), 2);
    assert_eq!(ledger.count_in_window(1, 0, 100), 3);
    assert_eq!(ledger.count_in_window(2, 0, 100), 1);
    assert_eq!(ledger.count_in_window(3, 0, 100), 0);
    assert_eq!(ledger.count_in_window(1, 21, 29), 0);
}

#[test]
fn oldest_share_time_finds_the_minimum() {
    let mut ledger = ShareLedger::new();
    assert_eq!(ledger.oldest_share_time(), None);
    ledger.insert_shares(vec![share(1, "s1", "n1", 30), share(1, "s2", "n2", 10), share(
        1, "s3", "n3", 20,
    )]);
    assert_eq!(ledger.oldest_share_time(), Some(10));
}

#[test]
fn prune_keeps_referenced_and_recent_shares() {
    let mut ledger = ShareLedger::new();
    ledger.insert_shares(vec![
        share(1, "old_unreferenced", "n1", 10),
        share(1, "old_referenced", "n2", 11),
        share(1, "recent", "n3", 100),
    ]);
    ledger.prune(50, &vec![String::from("old_referenced")]);
    assert_eq!(ledger.len(), 2);
    assert_eq!(ledger.count_in_window(1, 0, 50), 1);
    assert_eq!(ledger.count_in_window(1, 51, 200), 1);
}
