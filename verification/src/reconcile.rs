//! Settlement reconciliation: datum and payment confirmation, and payment
//! batch assembly.
//!
//! Submissions and payments settle against an external ledger that can
//! delay, fail silently or duplicate outcomes, so both run eventually-
//! consistent state machines. A pending datum submission is confirmed when
//! its transaction appears in the indexer and rejected once it stays absent
//! past a threshold; both are terminal. Payout rows go DUE, then TENTATIVE
//! while exactly one payment batch is in flight, then PAID when its
//! transaction appears — or back to DUE, hash cleared, when it stays absent
//! past the timeout.

use vstd::prelude::*;

verus! {

/// A winning share submitted on-chain, tracked until the ledger confirms or
/// rejects it.
#[derive(Debug)]
pub struct DatumSubmission {
    pub transaction_hash: String,
    pub sha: String,
    pub created_at: i64,
    pub rejected: bool,
    pub block_number: i64,
    pub confirmed_in_slot: Option<i64>,
    pub confirmed_at: Option<i64>,
}

/// What the datum confirmation loop decides for one pending submission.
#[derive(Debug, PartialEq, Eq, Structural)]
pub enum DatumDecision {
    /// The transaction showed up: confirm, recording the slot.
    Confirm,
    /// Absent past the age threshold: reject, terminally.
    Reject,
    /// Still young and absent: poll again later.
    Wait,
}

/// Decides a pending datum submission from one indexer poll: present means
/// confirmed; absent past the threshold means rejected; otherwise wait.
pub fn datum_poll_decision(
    found_in_indexer: bool,
    created_at: i64,
    now: i64,
    reject_after_secs: i64,
) -> (r: DatumDecision)
    ensures
        r == (if found_in_indexer {
            DatumDecision::Confirm
        } else if now - created_at > reject_after_secs {
            DatumDecision::Reject
        } else {
            DatumDecision::Wait
        }),
{
    if found_in_indexer {
        DatumDecision::Confirm
    } else {
        let age: i128 = (now as i128) - (created_at as i128);
        if age > reject_after_secs as i128 {
            DatumDecision::Reject
        } else {
            DatumDecision::Wait
        }
    }
}

/// Applies a decision to a pending datum submission. Confirmation records
/// the confirming slot and time and clears any rejection; rejection is
/// terminal; waiting changes nothing.
pub fn apply_datum_decision(datum: DatumSubmission, decision: &DatumDecision, slot: i64, now: i64)
    -> (r: DatumSubmission)
    ensures
        r.transaction_hash == datum.transaction_hash,
        r.sha == datum.sha,
        r.created_at == datum.created_at,
        r.block_number == datum.block_number,
        decision is Confirm ==> !r.rejected && r.confirmed_in_slot == Some(slot) && r.confirmed_at
            == Some(now),
        decision is Reject ==> r.rejected && r.confirmed_in_slot == datum.confirmed_in_slot
            && r.confirmed_at == datum.confirmed_at,
        decision is Wait ==> r == datum,
{
    match decision {
        DatumDecision::Confirm => DatumSubmission {
            rejected: false,
            confirmed_in_slot: Some(slot),
            confirmed_at: Some(now),
            ..datum
        },
        DatumDecision::Reject => DatumSubmission { rejected: true, ..datum },
        DatumDecision::Wait => datum,
    }
}

/// A payout obligation: what a miner is owed for one datum, and where the
/// attempt to pay it stands.
#[derive(Debug)]
pub struct PayoutDue {
    pub id: i64,
    pub miner_id: i64,
    pub owed: i64,
    pub is_paid: bool,
    pub created_at: i64,
    pub transaction_hash: Option<String>,
    pub transaction_time: Option<i64>,
    pub address: String,
    pub datum_transaction_hash: String,
}

/// What the payment verification loop decides for one tentative batch.
#[derive(Debug, PartialEq, Eq, Structural)]
pub enum PaymentDecision {
    /// The payment transaction showed up: mark the rows paid.
    MarkPaid,
    /// Absent past the timeout: clear the hash and retry from DUE.
    ResetToDue,
    /// Still young and absent: poll again later.
    Wait,
}

/// Decides a tentative payment batch from one indexer poll: present means
/// paid; absent past the timeout means back to DUE; otherwise wait.
pub fn payment_poll_decision(
    found_in_indexer: bool,
    transaction_time: i64,
    now: i64,
    invalid_after_secs: i64,
) -> (r: PaymentDecision)
    ensures
        r == (if found_in_indexer {
            PaymentDecision::MarkPaid
        } else if now - transaction_time > invalid_after_secs {
            PaymentDecision::ResetToDue
        } else {
            PaymentDecision::Wait
        }),
{
    if found_in_indexer {
        PaymentDecision::MarkPaid
    } else {
        let age: i128 = (now as i128) - (transaction_time as i128);
        if age > invalid_after_secs as i128 {
            PaymentDecision::ResetToDue
        } else {
            PaymentDecision::Wait
        }
    }
}

/// One payout row after a payment decision: paid, reset to DUE with its
/// transaction hash and time cleared, or untouched.
pub open spec fn settled_row(row: PayoutDue, decision: PaymentDecision) -> PayoutDue {
    match decision {
        PaymentDecision::MarkPaid => PayoutDue { is_paid: true, ..row },
        PaymentDecision::ResetToDue => PayoutDue {
            transaction_hash: None,
            transaction_time: None,
            ..row
        },
        PaymentDecision::Wait => row,
    }
}

/// Applies a payment decision to a whole tentative batch: every row is
/// marked paid, or every row goes back to DUE with its transaction hash
/// cleared, or nothing changes.
pub fn settle_payment_batch(rows: Vec<PayoutDue>, decision: &PaymentDecision) -> (r: Vec<
    PayoutDue,
>)
    ensures
        r@.len() == rows@.len(),
        forall|k: int| 0 <= k < rows@.len() ==> r@[k] == settled_row(#[trigger] rows@[k], *decision),
{
    let ghost all = rows@;
    let mut rows = rows;
    let mut out: Vec<PayoutDue> = Vec::new();
    let mut k: usize = 0;
    let n = rows.len();
    while rows.len() > 0
        invariant
            k + rows@.len() == n,
            n == all.len(),
            rows@ == all.subrange(k as int, n as int),
            out@.len() == k,
            forall|j: int| 0 <= j < k ==> out@[j] == settled_row(#[trigger] all[j], *decision),
        decreases rows@.len(),
    {
        let row = rows.remove(0);
        proof {
            assert(row == all[k as int]);
            assert(rows@ =~= all.subrange(k + 1, n as int));
        }
        let settled = match decision {
            PaymentDecision::MarkPaid => PayoutDue { is_paid: true, ..row },
            PaymentDecision::ResetToDue => PayoutDue {
                transaction_hash: None,
                transaction_time: None,
                ..row
            },
            PaymentDecision::Wait => row,
        };
        out.push(settled);
        k = k + 1;
    }
    out
}

/// A row is DUE: unpaid, with no payment transaction in flight.
pub open spec fn row_is_due(row: PayoutDue) -> bool {
    !row.is_paid && row.transaction_hash is None
}

/// Moves every DUE row into TENTATIVE under one payment transaction: the
/// relay's transaction hash and the submission time are recorded on exactly
/// the DUE rows; every other row, and every other field, is untouched.
pub fn mark_batch_tentative(rows: Vec<PayoutDue>, tx_hash: &String, now: i64) -> (r: Vec<
    PayoutDue,
>)
    ensures
        r@.len() == rows@.len(),
        forall|k: int|
            0 <= k < rows@.len() && row_is_due(#[trigger] rows@[k]) ==> {
                let row = rows@[k];
                &&& r@[k].transaction_hash is Some
                &&& r@[k].transaction_hash->0@ == tx_hash@
                &&& r@[k].transaction_time == Some(now)
                &&& r@[k].id == row.id
                &&& r@[k].miner_id == row.miner_id
                &&& r@[k].owed == row.owed
                &&& r@[k].is_paid == row.is_paid
                &&& r@[k].created_at == row.created_at
                &&& r@[k].address == row.address
                &&& r@[k].datum_transaction_hash == row.datum_transaction_hash
            },
        forall|k: int|
            0 <= k < rows@.len() && !row_is_due(#[trigger] rows@[k]) ==> r@[k] == rows@[k],
{
    let ghost all = rows@;
    let mut rows = rows;
    let mut out: Vec<PayoutDue> = Vec::new();
    let mut k: usize = 0;
    let n = rows.len();
    while rows.len() > 0
        invariant
            k + rows@.len() == n,
            n == all.len(),
            rows@ == all.subrange(k as int, n as int),
            out@.len() == k,
            forall|j: int|
                0 <= j < k && row_is_due(#[trigger] all[j]) ==> {
                    let row = all[j];
                    &&& out@[j].transaction_hash is Some
                    &&& out@[j].transaction_hash->0@ == tx_hash@
                    &&& out@[j].transaction_time == Some(now)
                    &&& out@[j].id == row.id
                    &&& out@[j].miner_id == row.miner_id
                    &&& out@[j].owed == row.owed
                    &&& out@[j].is_paid == row.is_paid
                    &&& out@[j].created_at == row.created_at
                    &&& out@[j].address == row.address
                    &&& out@[j].datum_transaction_hash == row.datum_transaction_hash
                },
            forall|j: int| 0 <= j < k && !row_is_due(#[trigger] all[j]) ==> out@[j] == all[j],
        decreases rows@.len(),
    {
        let row = rows.remove(0);
        proof {
            assert(row == all[k as int]);
            assert(rows@ =~= all.subrange(k + 1, n as int));
        }
        let due = !row.is_paid && row.transaction_hash.is_none();
        let updated = if due {
            PayoutDue { transaction_hash: Some(tx_hash.clone()), transaction_time: Some(now), ..row }
        } else {
            row
        };
        out.push(updated);
        k = k + 1;
    }
    out
}

/// A new payment batch may only be created while no tentative batch is
/// outstanding, so at most one payment is ever in flight.
pub fn should_create_payments(oldest_unverified: &Option<PayoutDue>) -> (r: bool)
    ensures
        r == (oldest_unverified is None),
{
    match oldest_unverified {
        Some(_) => false,
        None => true,
    }
}

/// A payment batch for the external relay: the datum transactions being
/// settled and the amount owed to each address.
#[derive(Debug)]
pub struct DenoPayment {
    pub datum_transaction_hashes: Vec<String>,
    pub payments: Vec<crate::payout::MinerPayment>,
}

/// The relay's answer to a payment batch.
#[derive(Debug)]
pub struct DenoPaymentResponse {
    pub tx_hash: String,
    pub message: String,
}

/// The relay's answer to a block submission.
#[derive(Debug)]
pub struct DenoSubmissionResponse {
    pub tx_hash: String,
}

/// Sum of everything owed in these rows.
pub open spec fn sum_owed(rows: Seq<PayoutDue>) -> int
    decreases rows.len(),
{
    if rows.len() == 0 {
        0
    } else {
        sum_owed(rows.drop_last()) + rows.last().owed
    }
}

/// Sum of what these rows owe to one address.
pub open spec fn sum_owed_for(rows: Seq<PayoutDue>, addr: Seq<char>) -> int
    decreases rows.len(),
{
    if rows.len() == 0 {
        0
    } else {
        sum_owed_for(rows.drop_last(), addr) + if rows.last().address@ == addr {
            rows.last().owed
        } else {
            0
        }
    }
}

/// With nothing owed negative, one address's sum is bounded by the total.
proof fn lemma_sum_owed_for_le(rows: Seq<PayoutDue>, addr: Seq<char>)
    requires
        forall|j: int| 0 <= j < rows.len() ==> (#[trigger] rows[j]).owed >= 0,
    ensures
        0 <= sum_owed_for(rows, addr) <= sum_owed(rows),
    decreases rows.len(),
{
    if rows.len() == 0 {
    } else {
        assert forall|j: int|
            0 <= j < rows.drop_last().len() implies (#[trigger] rows.drop_last()[j]).owed >= 0 by {
            assert(rows.drop_last()[j] == rows[j]);
        }
        lemma_sum_owed_for_le(rows.drop_last(), addr);
        assert(rows.last() == rows[rows.len() - 1]);
    }
}

/// A prefix owes at most what the whole set owes.
proof fn lemma_sum_owed_take_le(rows: Seq<PayoutDue>, i: int)
    requires
        0 <= i <= rows.len(),
        forall|j: int| 0 <= j < rows.len() ==> (#[trigger] rows[j]).owed >= 0,
    ensures
        sum_owed(rows.take(i)) <= sum_owed(rows),
    decreases rows.len() - i,
{
    if i == rows.len() {
        assert(rows.take(i) =~= rows);
    } else {
        lemma_sum_owed_take_le(rows, i + 1);
        assert(rows.take(i + 1).drop_last() =~= rows.take(i));
        assert(rows.take(i + 1).last() == rows[i]);
    }
}

/// An address no row mentions is owed nothing.
proof fn lemma_sum_owed_for_absent(rows: Seq<PayoutDue>, addr: Seq<char>)
    requires
        forall|j: int| 0 <= j < rows.len() ==> (#[trigger] rows[j]).address@ != addr,
    ensures
        sum_owed_for(rows, addr) == 0,
    decreases rows.len(),
{
    if rows.len() == 0 {
    } else {
        assert forall|j: int|
            0 <= j < rows.drop_last().len() implies (#[trigger] rows.drop_last()[j]).address@
            != addr by {
            assert(rows.drop_last()[j] == rows[j]);
        }
        lemma_sum_owed_for_absent(rows.drop_last(), addr);
        assert(rows.last() == rows[rows.len() - 1]);
    }
}



/// The datum transaction hashes of a set of payout rows, in row order.
pub open spec fn row_hashes(rows: Seq<PayoutDue>) -> Seq<Seq<char>> {
    rows.map_values(|r: PayoutDue| r.datum_transaction_hash@)
}

/// The payout addresses of a set of payout rows, in row order.
pub open spec fn row_addrs(rows: Seq<PayoutDue>) -> Seq<Seq<char>> {
    rows.map_values(|r: PayoutDue| r.address@)
}

/// The addresses of a set of payments, in order.
pub open spec fn pay_addrs(ps: Seq<crate::payout::MinerPayment>) -> Seq<Seq<char>> {
    ps.map_values(|p: crate::payout::MinerPayment| p.address@)
}

/// The distinct datum transaction hashes of a set of payout rows, in order
/// of first appearance.
pub open spec fn distinct_row_hashes(rows: Seq<PayoutDue>) -> Seq<Seq<char>>
    decreases rows.len(),
{
    if rows.len() == 0 {
        Seq::empty()
    } else {
        let rest = distinct_row_hashes(rows.drop_last());
        if rest.contains(rows.last().datum_transaction_hash@) {
            rest
        } else {
            rest.push(rows.last().datum_transaction_hash@)
        }
    }
}

/// The distinct payout addresses of a set of payout rows, in order of first
/// appearance.
pub open spec fn distinct_row_addrs(rows: Seq<PayoutDue>) -> Seq<Seq<char>>
    decreases rows.len(),
{
    if rows.len() == 0 {
        Seq::empty()
    } else {
        let rest = distinct_row_addrs(rows.drop_last());
        if rest.contains(rows.last().address@) {
            rest
        } else {
            rest.push(rows.last().address@)
        }
    }
}

/// Whatever a sequence contains, it still contains after a push.
proof fn lemma_contains_after_push<T>(s: Seq<T>, e: T, x: T)
    requires
        s.contains(x),
    ensures
        s.push(e).contains(x),
{
    let i = choose|i: int| 0 <= i < s.len() && s[i] == x;
    assert(s.push(e)[i] == x);
}

/// Is this hash already collected?
fn contains_hash(hashes: &Vec<String>, h: &String) -> (r: bool)
    ensures
        r == hashes.deep_view().contains(h@),
{
    let mut i: usize = 0;
    while i < hashes.len()
        invariant
            0 <= i <= hashes@.len(),
            forall|j: int| 0 <= j < i ==> hashes.deep_view()[j] != h@,
        decreases hashes@.len() - i,
    {
        if hashes[i] == *h {
            proof {
                assert(hashes.deep_view()[i as int] == h@);
            }
            return true;
        }
        i = i + 1;
    }
    proof {
        assert(!hashes.deep_view().contains(h@));
    }
    false
}

/// Where a payment to this address sits, if one was already started.
fn find_payment_idx(payments: &Vec<crate::payout::MinerPayment>, addr: &String) -> (r: Option<
    usize,
>)
    ensures
        match r {
            Some(p) => 0 <= p < payments@.len() && payments@[p as int].address@ == addr@,
            None => forall|a: int|
                0 <= a < payments@.len() ==> (#[trigger] payments@[a]).address@ != addr@,
        },
{
    let mut i: usize = 0;
    while i < payments.len()
        invariant
            0 <= i <= payments@.len(),
            forall|j: int| 0 <= j < i ==> (#[trigger] payments@[j]).address@ != addr@,
        decreases payments@.len() - i,
    {
        if payments[i].address == *addr {
            return Some(i);
        }
        i = i + 1;
    }
    None
}

/// Collects each datum transaction hash once.
fn dedup_datum_hashes(rows: &Vec<PayoutDue>) -> (r: Vec<String>)
    ensures
        r.deep_view() == distinct_row_hashes(rows@),
        forall|a: int, b: int|
            0 <= a < b < r@.len() ==> r.deep_view()[a] != r.deep_view()[b],
        forall|a: int|
            0 <= a < r@.len() ==> row_hashes(rows@).contains(#[trigger] r.deep_view()[a]),
        forall|j: int|
            0 <= j < rows@.len() ==> r.deep_view().contains(
                (#[trigger] rows@[j]).datum_transaction_hash@,
            ),
{
    let mut hashes: Vec<String> = Vec::new();
    let mut i: usize = 0;
    while i < rows.len()
        invariant
            0 <= i <= rows@.len(),
            hashes.deep_view() == distinct_row_hashes(rows@.take(i as int)),
            forall|a: int, b: int|
                0 <= a < b < hashes@.len() ==> hashes.deep_view()[a] != hashes.deep_view()[b],
            forall|a: int|
                0 <= a < hashes@.len() ==> row_hashes(rows@).contains(
                    #[trigger] hashes.deep_view()[a],
                ),
            forall|j: int|
                0 <= j < i ==> hashes.deep_view().contains(
                    (#[trigger] rows@[j]).datum_transaction_hash@,
                ),
        decreases rows@.len() - i,
    {
        let row = &rows[i];
        let ghost old_hashes = hashes.deep_view();
        proof {
            assert(rows@.take(i + 1).drop_last() =~= rows@.take(i as int));
            assert(rows@.take(i + 1).last() == rows@[i as int]);
        }
        if !contains_hash(&hashes, &row.datum_transaction_hash) {
            let mut dup = String::new();
            dup.append(row.datum_transaction_hash.as_str());
            hashes.push(dup);
            proof {
                assert(hashes.deep_view() =~~= old_hashes.push(
                    rows@[i as int].datum_transaction_hash@,
                ));
                assert(row_hashes(rows@)[i as int] == rows@[i as int].datum_transaction_hash@);
                assert forall|a: int, b: int|
                    0 <= a < b < hashes@.len() implies hashes.deep_view()[a]
                    != hashes.deep_view()[b] by {
                    if b == hashes@.len() - 1 {
                        assert(hashes.deep_view()[a] == old_hashes[a]);
                    }
                }
                assert forall|j: int|
                    0 <= j < i + 1 implies hashes.deep_view().contains(
                    (#[trigger] rows@[j]).datum_transaction_hash@,
                ) by {
                    if j < i {
                        lemma_contains_after_push(
                            old_hashes,
                            rows@[i as int].datum_transaction_hash@,
                            rows@[j].datum_transaction_hash@,
                        );
                    } else {
                        assert(hashes.deep_view()[hashes.deep_view().len() - 1]
                            == rows@[i as int].datum_transaction_hash@);
                    }
                }
            }
        } else {
            proof {
                assert(hashes.deep_view() =~~= old_hashes);
            }
        }
        i = i + 1;
    }
    proof {
        assert(rows@.take(rows@.len() as int) =~= rows@);
    }
    hashes
}

/// Sums what the rows owe, one payment per distinct address.
#[verifier::rlimit(50)]
fn aggregate_owed(rows: &Vec<PayoutDue>) -> (r: Vec<crate::payout::MinerPayment>)
    requires
        forall|j: int| 0 <= j < rows@.len() ==> (#[trigger] rows@[j]).owed >= 0,
        sum_owed(rows@) <= u64::MAX,
    ensures
        pay_addrs(r@) == distinct_row_addrs(rows@),
        forall|a: int, b: int|
            0 <= a < b < r@.len() ==> (#[trigger] r@[a]).address@ != (#[trigger] r@[b]).address@,
        forall|a: int|
            0 <= a < r@.len() ==> (#[trigger] r@[a]).amount == sum_owed_for(rows@, r@[a].address@),
        forall|a: int| 0 <= a < r@.len() ==> row_addrs(rows@).contains((#[trigger] r@[a]).address@),
        forall|j: int|
            0 <= j < rows@.len() ==> pay_addrs(r@).contains((#[trigger] rows@[j]).address@),
{
    let mut payments: Vec<crate::payout::MinerPayment> = Vec::new();
    let mut i: usize = 0;
    while i < rows.len()
        invariant
            0 <= i <= rows@.len(),
            forall|j: int| 0 <= j < rows@.len() ==> (#[trigger] rows@[j]).owed >= 0,
            sum_owed(rows@) <= u64::MAX,
            pay_addrs(payments@) == distinct_row_addrs(rows@.take(i as int)),
            forall|a: int, b: int|
                0 <= a < b < payments@.len() ==> (#[trigger] payments@[a]).address@ != (
                #[trigger] payments@[b]).address@,
            forall|a: int|
                0 <= a < payments@.len() ==> (#[trigger] payments@[a]).amount == sum_owed_for(
                    rows@.take(i as int),
                    payments@[a].address@,
                ),
            forall|a: int|
                0 <= a < payments@.len() ==> row_addrs(rows@).contains(
                    (#[trigger] payments@[a]).address@,
                ),
            forall|j: int|
                0 <= j < i ==> pay_addrs(payments@).contains((#[trigger] rows@[j]).address@),
        decreases rows@.len() - i,
    {
        let row = &rows[i];
        let ghost pre = payments@;
        proof {
            assert(rows@.take(i + 1).drop_last() =~= rows@.take(i as int));
            assert(rows@.take(i + 1).last() == rows@[i as int]);
            assert(row_addrs(rows@)[i as int] == rows@[i as int].address@);
        }
        let owed_now: u64 = row.owed as u64;
        match find_payment_idx(&payments, &row.address) {
            Some(idx) => {
                proof {
                    lemma_sum_owed_for_le(rows@.take(i + 1), payments@[idx as int].address@);
                    lemma_sum_owed_take_le(rows@, i + 1);
                }
                let entry = payments.remove(idx);
                let bumped = crate::payout::MinerPayment {
                    address: entry.address,
                    amount: entry.amount + owed_now,
                };
                payments.insert(idx, bumped);
                proof {
                    assert(payments@ =~= pre.update(idx as int, bumped));
                    assert(pay_addrs(payments@) =~= pay_addrs(pre));
                    assert(pay_addrs(pre)[idx as int] == rows@[i as int].address@);
                    assert(distinct_row_addrs(rows@.take(i as int)).contains(
                        rows@[i as int].address@,
                    ));
                    assert forall|a: int|
                        0 <= a < payments@.len() implies (#[trigger] payments@[a]).amount
                        == sum_owed_for(rows@.take(i + 1), payments@[a].address@) by {
                        if a != idx {
                            assert(payments@[a] == pre[a]);
                            assert((payments@[a]).address@ != rows@[i as int].address@);
                        }
                    }
                    assert(pay_addrs(payments@)[idx as int] == rows@[i as int].address@);
                }
            },
            None => {
                proof {
                    lemma_sum_owed_for_absent(rows@.take(i as int), rows@[i as int].address@);
                }
                let mut addr = String::new();
                addr.append(row.address.as_str());
                payments.push(crate::payout::MinerPayment { address: addr, amount: owed_now });
                proof {
                    assert(payments@[payments@.len() - 1].address@ == rows@[i as int].address@);
                    assert(pay_addrs(payments@) =~= pay_addrs(pre).push(rows@[i as int].address@));
                    assert(!distinct_row_addrs(rows@.take(i as int)).contains(
                        rows@[i as int].address@,
                    )) by {
                        let target = rows@[i as int].address@;
                        if distinct_row_addrs(rows@.take(i as int)).contains(target) {
                            let a0 = choose|a0: int|
                                0 <= a0 < pay_addrs(pre).len() && pay_addrs(pre)[a0] == target;
                            assert((pre[a0]).address@ == target);
                        }
                    }
                    assert forall|a: int|
                        0 <= a < payments@.len() implies (#[trigger] payments@[a]).amount
                        == sum_owed_for(rows@.take(i + 1), payments@[a].address@) by {
                        if a < payments@.len() - 1 {
                            assert(payments@[a] == pre[a]);
                            assert((payments@[a]).address@ != rows@[i as int].address@);
                        }
                    }
                    assert forall|j: int|
                        0 <= j < i + 1 implies pay_addrs(payments@).contains(
                        (#[trigger] rows@[j]).address@,
                    ) by {
                        if j < i {
                            lemma_contains_after_push(
                                pay_addrs(pre),
                                rows@[i as int].address@,
                                rows@[j].address@,
                            );
                        } else {
                            assert(pay_addrs(payments@)[payments@.len() - 1]
                                == rows@[i as int].address@);
                        }
                    }
                }
            },
        }
        i = i + 1;
    }
    proof {
        assert(rows@.take(rows@.len() as int) =~= rows@);
    }
    payments
}

/// Assembles the payment batch for a set of unpaid payout rows: every
/// distinct datum transaction exactly once, and for every distinct address
/// the sum of what it is owed — nothing else and nobody else.
pub fn create_payment_batch(rows: &Vec<PayoutDue>) -> (r: DenoPayment)
    requires
        forall|j: int| 0 <= j < rows@.len() ==> (#[trigger] rows@[j]).owed >= 0,
        sum_owed(rows@) <= u64::MAX,
    ensures
        r.datum_transaction_hashes.deep_view() == distinct_row_hashes(rows@),
        pay_addrs(r.payments@) == distinct_row_addrs(rows@),
        forall|a: int, b: int|
            0 <= a < b < r.payments@.len() ==> (#[trigger] r.payments@[a]).address@ != (
            #[trigger] r.payments@[b]).address@,
        forall|a: int|
            0 <= a < r.payments@.len() ==> (#[trigger] r.payments@[a]).amount == sum_owed_for(
                rows@,
                r.payments@[a].address@,
            ),
        forall|a: int|
            0 <= a < r.payments@.len() ==> row_addrs(rows@).contains(
                (#[trigger] r.payments@[a]).address@,
            ),
        forall|j: int|
            0 <= j < rows@.len() ==> pay_addrs(r.payments@).contains(
                (#[trigger] rows@[j]).address@,
            ),
        forall|a: int, b: int|
            0 <= a < b < r.datum_transaction_hashes@.len()
                ==> r.datum_transaction_hashes.deep_view()[a]
                != r.datum_transaction_hashes.deep_view()[b],
        forall|a: int|
            0 <= a < r.datum_transaction_hashes@.len() ==> row_hashes(rows@).contains(
                #[trigger] r.datum_transaction_hashes.deep_view()[a],
            ),
        forall|j: int|
            0 <= j < rows@.len() ==> r.datum_transaction_hashes.deep_view().contains(
                (#[trigger] rows@[j]).datum_transaction_hash@,
            ),
{
    let hashes = dedup_datum_hashes(rows);
    let payments = aggregate_owed(rows);
    DenoPayment { datum_transaction_hashes: hashes, payments }
}

} // verus!
