use pool_core::reconcile::{
    apply_datum_decision, create_payment_batch, datum_poll_decision, mark_batch_tentative,
    payment_poll_decision, settle_payment_batch, should_create_payments, DatumDecision,
    DatumSubmission, PaymentDecision, PayoutDue,
};

fn datum(tx: &str, created_at: i64) -> DatumSubmission {
    DatumSubmission {
        transaction_hash: String::from(tx),
        sha: String::from("sha"),
        created_at,
        rejected: false,
        block_number: 1,
        confirmed_in_slot: None,
        confirmed_at: None,
    }
}

fn payout(id: i64, address: &str, owed: i64, datum_tx: &str) -> PayoutDue {
    PayoutDue {
        id,
        miner_id: id,
        owed,
        is_paid: false,
        created_at: 0,
        transaction_hash: Some(String::from("payment_tx")),
        transaction_time: Some(0),
        address: String::from(address),
        datum_transaction_hash: String::from(datum_tx),
    }
}

#[test]
fn datum_found_is_confirmed() {
    assert_eq!(datum_poll_decision(true, 0, 1000, 120), DatumDecision::Confirm);
}

#[test]
fn datum_absent_past_threshold_is_rejected() {
    assert_eq!(datum_poll_decision(false, 0, 121, 120), DatumDecision::Reject);
    assert_eq!(datum_poll_decision(false, 0, 120, 120), DatumDecision::Wait);
}

#[test]
fn confirming_records_slot_and_time() {
    let confirmed = apply_datum_decision(datum("tx1", 0), &DatumDecision::Confirm, 777, 60);
    assert!(!confirmed.rejected);
    assert_eq!(confirmed.confirmed_in_slot, Some(777));
    assert_eq!(confirmed.confirmed_at, Some(60));
    let rejected = apply_datum_decision(datum("tx1", 0), &DatumDecision::Reject, 0, 200);
    assert!(rejected.rejected);
    assert_eq!(rejected.confirmed_in_slot, None);
}

#[test]
fn payment_found_is_marked_paid() {
    assert_eq!(payment_poll_decision(true, 0, 1000, 120), PaymentDecision::MarkPaid);
    let rows = settle_payment_batch(vec![payout(1, "a", 5, "d1")], &PaymentDecision::MarkPaid);
    assert!(rows[0].is_paid);
    assert_eq!(rows[0].transaction_hash, Some(String::from("payment_tx")));
}

#[test]
fn tentative_batch_absent_past_timeout_returns_to_due() {
    // A TENTATIVE payment whose transaction hash stayed absent from the
    // indexer for over 2 minutes goes back to DUE with the hash cleared.
    let decision = payment_poll_decision(false, 0, 121, 120);
    assert_eq!(decision, PaymentDecision::ResetToDue);
    let rows = settle_payment_batch(
        vec![payout(1, "a", 5, "d1"), payout(2, "b", 6, "d1")],
        &decision,
    );
    for row in &rows {
        assert!(!row.is_paid);
        assert_eq!(row.transaction_hash, None);
        assert_eq!(row.transaction_time, None);
    }
}

#[test]
fn young_tentative_batch_waits() {
    assert_eq!(payment_poll_decision(false, 0, 120, 120), PaymentDecision::Wait);
    let rows = settle_payment_batch(vec![payout(1, "a", 5, "d1")], &PaymentDecision::Wait);
    assert!(!rows[0].is_paid);
    assert_eq!(rows[0].transaction_hash, Some(String::from("payment_tx")));
}

#[test]
fn new_payments_only_without_outstanding_batch() {
    assert!(should_create_payments(&None));
    assert!(!should_create_payments(&Some(payout(1, "a", 5, "d1"))));
}

#[test]
fn marking_tentative_touches_exactly_the_due_rows() {
    let mut due = payout(1, "a", 5, "d1");
    due.transaction_hash = None;
    due.transaction_time = None;
    let mut paid = payout(2, "b", 6, "d1");
    paid.is_paid = true;
    paid.transaction_hash = None;
    let in_flight = payout(3, "c", 7, "d2"); // already carries a hash
    let rows = mark_batch_tentative(vec![due, paid, in_flight], &String::from("tx9"), 42);
    assert_eq!(rows[0].transaction_hash, Some(String::from("tx9")));
    assert_eq!(rows[0].transaction_time, Some(42));
    assert!(!rows[0].is_paid);
    assert_eq!(rows[1].transaction_hash, None);
    assert!(rows[1].is_paid);
    assert_eq!(rows[2].transaction_hash, Some(String::from("payment_tx")));
    assert_eq!(rows[2].transaction_time, Some(0));
}

#[test]
fn payment_batch_keeps_first_appearance_order() {
    let rows = vec![
        payout(1, "x", 1, "h2"),
        payout(2, "y", 1, "h1"),
        payout(3, "x", 1, "h2"),
        payout(4, "z", 1, "h3"),
    ];
    let batch = create_payment_batch(&rows);
    assert_eq!(
        batch.datum_transaction_hashes,
        vec![String::from("h2"), String::from("h1"), String::from("h3")]
    );
    let addrs: Vec<String> = batch.payments.iter().map(|p| p.address.clone()).collect();
    assert_eq!(addrs, vec![String::from("x"), String::from("y"), String::from("z")]);
}

#[test]
fn payment_batch_sums_per_address_and_dedups_hashes() {
    let rows = vec![
        payout(1, "addr_x", 10, "h1"),
        payout(2, "addr_y", 5, "h1"),
        payout(3, "addr_x", 7, "h2"),
    ];
    let batch = create_payment_batch(&rows);
    assert_eq!(batch.datum_transaction_hashes, vec![String::from("h1"), String::from("h2")]);
    assert_eq!(batch.payments.len(), 2);
    assert_eq!(batch.payments[0].address, "addr_x");
    assert_eq!(batch.payments[0].amount, 17);
    assert_eq!(batch.payments[1].address, "addr_y");
    assert_eq!(batch.payments[1].amount, 5);
}
