//! Accounting of accepted shares.
//!
//! Shares are append-only and keyed by their hash: inserting a batch skips
//! every share whose hash is already recorded — a duplicate (the same miner
//! resubmitting a nonce, or two miners colliding) is dropped without
//! aborting the rest of the batch. Windowed counts over this ledger feed
//! the payout computation; confirmed-and-retired shares can be pruned once
//! nothing references them.

use vstd::prelude::*;

verus! {

/// One accepted share: who mined it, against which block, the candidate
/// hash and nonce as hex, when it was accepted, and at what sampling
/// difficulty.
#[derive(Debug)]
pub struct ProofOfWork {
    pub miner_id: i32,
    pub miner_address: String,
    pub block_number: i64,
    pub sha: String,
    pub nonce: String,
    pub created_at: i64,
    pub sampling_difficulty: u8,
}

/// Does the ledger already hold a share with this hash?
pub open spec fn contains_sha(s: Seq<ProofOfWork>, sha: Seq<char>) -> bool {
    exists|i: int| 0 <= i < s.len() && (#[trigger] s[i]).sha@ == sha
}

/// The ledger after inserting a batch in order, skipping every share whose
/// hash is already present (including hashes added earlier in the batch).
pub open spec fn insert_all(ledger: Seq<ProofOfWork>, batch: Seq<ProofOfWork>) -> Seq<ProofOfWork>
    decreases batch.len(),
{
    if batch.len() == 0 {
        ledger
    } else {
        let l2 = insert_all(ledger, batch.drop_last());
        if contains_sha(l2, batch.last().sha@) {
            l2
        } else {
            l2.push(batch.last())
        }
    }
}

/// Append-only ledger of accepted shares, hashes unique.
pub struct ShareLedger {
    shares: Vec<ProofOfWork>,
}

impl ShareLedger {
    /// The recorded shares, oldest first.
    pub closed spec fn view(&self) -> Seq<ProofOfWork> {
        self.shares@
    }

    /// Hashes are unique across the ledger.
    pub open spec fn well_formed(&self) -> bool {
        forall|i: int, j: int|
            0 <= i < j < self@.len() ==> (#[trigger] self@[i]).sha@ != (#[trigger] self@[j]).sha@
    }

    /// An empty ledger.
    pub fn new() -> (r: ShareLedger)
        ensures
            r@ == Seq::<ProofOfWork>::empty(),
            r.well_formed(),
    {
        let r = ShareLedger { shares: Vec::new() };
        proof {
            assert(r@ =~= Seq::<ProofOfWork>::empty());
        }
        r
    }

    /// How many shares are recorded.
    pub fn len(&self) -> (r: usize)
        ensures
            r == self@.len(),
    {
        self.shares.len()
    }

    /// Is a hash already recorded?
    fn holds_sha(&self, sha: &String) -> (r: bool)
        ensures
            r == contains_sha(self@, sha@),
    {
        let mut i: usize = 0;
        while i < self.shares.len()
            invariant
                0 <= i <= self@.len(),
                forall|j: int| 0 <= j < i ==> (#[trigger] self@[j]).sha@ != sha@,
            decreases self@.len() - i,
        {
            if self.shares[i].sha == *sha {
                return true;
            }
            i = i + 1;
        }
        false
    }

    /// Records a batch of shares in one pass. A share whose hash is already
    /// recorded — a resubmitted nonce or a collision — is skipped; the rest
    /// of the batch still goes through. Returns how many were recorded.
    pub fn insert_shares(&mut self, batch: Vec<ProofOfWork>) -> (r: u64)
        requires
            old(self).well_formed(),
            old(self)@.len() + batch@.len() <= u64::MAX,
        ensures
            final(self).well_formed(),
            final(self)@ == insert_all(old(self)@, batch@),
            old(self)@.len() + r == final(self)@.len(),
    {
        let ghost batch_view = batch@;
        let mut inserted: u64 = 0;
        let mut batch = batch;
        let mut k: usize = 0;
        let n = batch.len();
        while batch.len() > 0
            invariant
                k + batch@.len() == n,
                n == batch_view.len(),
                batch@ == batch_view.subrange(k as int, n as int),
                self.well_formed(),
                self@ == insert_all(old(self)@, batch_view.take(k as int)),
                old(self)@.len() + inserted == self@.len(),
                inserted <= old(self)@.len() + k,
                old(self)@.len() + batch_view.len() <= u64::MAX,
            decreases batch@.len(),
        {
            let share = batch.remove(0);
            proof {
                assert(share == batch_view[k as int]);
                assert(batch@ =~= batch_view.subrange(k + 1, n as int));
                assert(batch_view.take(k + 1).drop_last() =~= batch_view.take(k as int));
                assert(batch_view.take(k + 1).last() == batch_view[k as int]);
            }
            if !self.holds_sha(&share.sha) {
                self.shares.push(share);
                inserted = inserted + 1;
                proof {
                    assert forall|i: int, j: int|
                        0 <= i < j < self@.len() implies (#[trigger] self@[i]).sha@ != (
                    #[trigger] self@[j]).sha@ by {
                        if j < self@.len() - 1 {
                        } else {
                            assert(!contains_sha(self@.drop_last(), self@[j].sha@));
                        }
                    }
                }
            }
            k = k + 1;
        }
        proof {
            assert(batch_view.take(n as int) =~= batch_view);
        }
        inserted
    }

    /// How many shares a miner has in a time window (bounds inclusive).
    pub fn count_in_window(&self, miner_id: i32, start: i64, end: i64) -> (r: u64)
        requires
            self@.len() <= u64::MAX,
        ensures
            r == count_shares(self@, miner_id, start, end),
    {
        let mut count: u64 = 0;
        let mut i: usize = 0;
        while i < self.shares.len()
            invariant
                0 <= i <= self@.len(),
                self@.len() <= u64::MAX,
                count == count_shares(self@.take(i as int), miner_id, start, end),
                count <= i,
            decreases self@.len() - i,
        {
            proof {
                assert(self@.take(i + 1).drop_last() =~= self@.take(i as int));
                assert(self@.take(i + 1).last() == self@[i as int]);
            }
            let s = &self.shares[i];
            if s.miner_id == miner_id && start <= s.created_at && s.created_at <= end {
                count = count + 1;
            }
            i = i + 1;
        }
        proof {
            assert(self@.take(self@.len() as int) =~= self@);
        }
        count
    }

    /// When the oldest recorded share was accepted, if any share exists.
    pub fn oldest_share_time(&self) -> (r: Option<i64>)
        ensures
            match r {
                None => self@.len() == 0,
                Some(t) => (exists|i: int|
                    0 <= i < self@.len() && (#[trigger] self@[i]).created_at == t) && forall|i: int|
                    0 <= i < self@.len() ==> t <= (#[trigger] self@[i]).created_at,
            },
    {
        if self.shares.len() == 0 {
            return None;
        }
        let mut best: i64 = self.shares[0].created_at;
        let mut i: usize = 1;
        while i < self.shares.len()
            invariant
                1 <= i <= self@.len(),
                self@.len() >= 1,
                exists|j: int| 0 <= j < i && (#[trigger] self@[j]).created_at == best,
                forall|j: int| 0 <= j < i ==> best <= (#[trigger] self@[j]).created_at,
            decreases self@.len() - i,
        {
            if self.shares[i].created_at < best {
                best = self.shares[i].created_at;
            }
            i = i + 1;
        }
        Some(best)
    }

    /// Removes every share older than `cutoff` whose hash is not referenced
    /// by any datum submission, keeping everything still needed for audit.
    pub fn prune(&mut self, cutoff: i64, referenced: &Vec<String>)
        requires
            old(self).well_formed(),
        ensures
            final(self).well_formed(),
            final(self)@ == retained(old(self)@, cutoff, referenced.deep_view()),
    {
        let ghost old_view = self@;
        let ghost refs = referenced.deep_view();
        let mut kept: Vec<ProofOfWork> = Vec::new();
        let ghost all = self@;
        let mut k: usize = 0;
        let n = self.shares.len();
        while self.shares.len() > 0
            invariant
                k + self@.len() == n,
                n == all.len(),
                self@ == all.subrange(k as int, n as int),
                refs == referenced.deep_view(),
                kept@ == retained(all.take(k as int), cutoff, refs),
            decreases self@.len(),
        {
            let share = self.shares.remove(0);
            proof {
                assert(share == all[k as int]);
                assert(self@ =~= all.subrange(k + 1, n as int));
                assert(all.take(k + 1).drop_last() =~= all.take(k as int));
                assert(all.take(k + 1).last() == all[k as int]);
            }
            if share.created_at >= cutoff || contains_string(referenced, &share.sha) {
                kept.push(share);
            }
            k = k + 1;
        }
        proof {
            assert(all.take(n as int) =~= all);
        }
        self.shares = kept;
        proof {
            lemma_retained_well_formed(old_view, cutoff, refs);
        }
    }
}

/// How many of these shares belong to the miner and fall inside the window.
pub open spec fn count_shares(s: Seq<ProofOfWork>, miner_id: i32, start: i64, end: i64) -> nat
    decreases s.len(),
{
    if s.len() == 0 {
        0
    } else {
        count_shares(s.drop_last(), miner_id, start, end) + if s.last().miner_id == miner_id
            && start <= s.last().created_at <= end {
            1nat
        } else {
            0nat
        }
    }
}

/// The shares kept by pruning: everything at or after the cutoff, plus
/// everything whose hash is still referenced.
pub open spec fn retained(s: Seq<ProofOfWork>, cutoff: i64, refs: Seq<Seq<char>>) -> Seq<
    ProofOfWork,
>
    decreases s.len(),
{
    if s.len() == 0 {
        Seq::empty()
    } else {
        let rest = retained(s.drop_last(), cutoff, refs);
        if s.last().created_at >= cutoff || refs.contains(s.last().sha@) {
            rest.push(s.last())
        } else {
            rest
        }
    }
}

/// Everything retained by pruning was in the ledger.
proof fn lemma_retained_is_subset(s: Seq<ProofOfWork>, cutoff: i64, refs: Seq<Seq<char>>)
    ensures
        forall|i: int|
            0 <= i < retained(s, cutoff, refs).len() ==> exists|j: int|
                0 <= j < s.len() && s[j] == #[trigger] retained(s, cutoff, refs)[i],
        retained(s, cutoff, refs).len() <= s.len(),
    decreases s.len(),
{
    if s.len() == 0 {
    } else {
        lemma_retained_is_subset(s.drop_last(), cutoff, refs);
        assert forall|i: int|
            0 <= i < retained(s, cutoff, refs).len() implies exists|j: int|
            0 <= j < s.len() && s[j] == #[trigger] retained(s, cutoff, refs)[i] by {
            let r = retained(s, cutoff, refs);
            let rest = retained(s.drop_last(), cutoff, refs);
            if i < rest.len() {
                let j = choose|j: int| 0 <= j < s.drop_last().len() && s.drop_last()[j] == rest[i];
                assert(s[j] == rest[i]);
            } else {
                assert(r[i] == s.last());
                assert(s[s.len() - 1] == s.last());
            }
        }
    }
}

/// Pruning a ledger with unique hashes leaves unique hashes.
proof fn lemma_retained_well_formed(s: Seq<ProofOfWork>, cutoff: i64, refs: Seq<Seq<char>>)
    requires
        forall|i: int, j: int|
            0 <= i < j < s.len() ==> (#[trigger] s[i]).sha@ != (#[trigger] s[j]).sha@,
    ensures
        forall|i: int, j: int|
            0 <= i < j < retained(s, cutoff, refs).len() ==> (#[trigger] retained(
                s,
                cutoff,
                refs,
            )[i]).sha@ != (#[trigger] retained(s, cutoff, refs)[j]).sha@,
    decreases s.len(),
{
    if s.len() == 0 {
    } else {
        let dl = s.drop_last();
        lemma_retained_well_formed(dl, cutoff, refs);
        lemma_retained_is_subset(dl, cutoff, refs);
        let r = retained(s, cutoff, refs);
        let rest = retained(dl, cutoff, refs);
        assert forall|i: int, j: int|
            0 <= i < j < r.len() implies (#[trigger] r[i]).sha@ != (#[trigger] r[j]).sha@ by {
            if j < rest.len() {
            } else if r.len() == rest.len() + 1 && j == rest.len() {
                assert(r[j] == s.last());
                let m = choose|m: int| 0 <= m < dl.len() && dl[m] == rest[i];
                assert(s[m] == rest[i]);
                assert(s[m].sha@ != s[s.len() - 1].sha@);
            }
        }
    }
}

/// Is this string among the referenced hashes?
fn contains_string(referenced: &Vec<String>, sha: &String) -> (r: bool)
    ensures
        r == referenced.deep_view().contains(sha@),
{
    let mut i: usize = 0;
    while i < referenced.len()
        invariant
            0 <= i <= referenced@.len(),
            forall|j: int| 0 <= j < i ==> referenced.deep_view()[j] != sha@,
        decreases referenced@.len() - i,
    {
        if referenced[i] == *sha {
            proof {
                assert(referenced.deep_view()[i as int] == sha@);
            }
            return true;
        }
        i = i + 1;
    }
    proof {
        assert(!referenced.deep_view().contains(sha@));
    }
    false
}

/// A hash that was just inserted is recorded.
proof fn lemma_insert_all_contains_batch(
    ledger: Seq<ProofOfWork>,
    batch: Seq<ProofOfWork>,
    k: int,
)
    requires
        0 <= k < batch.len(),
    ensures
        contains_sha(insert_all(ledger, batch), batch[k].sha@),
    decreases batch.len(),
{
    if k == batch.len() - 1 {
        let l2 = insert_all(ledger, batch.drop_last());
        if contains_sha(l2, batch.last().sha@) {
        } else {
            let r = insert_all(ledger, batch);
            assert(r[r.len() - 1].sha@ == batch[k].sha@);
        }
    } else {
        lemma_insert_all_contains_batch(ledger, batch.drop_last(), k);
        assert(batch.drop_last()[k] == batch[k]);
        lemma_insert_all_monotone(insert_all(ledger, batch.drop_last()), batch, batch[k].sha@);
    }
}

/// Anything recorded stays recorded through further inserts.
proof fn lemma_insert_all_monotone(l2: Seq<ProofOfWork>, batch: Seq<ProofOfWork>, sha: Seq<char>)
    requires
        contains_sha(l2, sha),
    ensures
        contains_sha(
            if contains_sha(l2, batch.last().sha@) {
                l2
            } else {
                l2.push(batch.last())
            },
            sha,
        ),
{
    let i = choose|i: int| 0 <= i < l2.len() && (#[trigger] l2[i]).sha@ == sha;
    if !contains_sha(l2, batch.last().sha@) {
        assert(l2.push(batch.last())[i].sha@ == sha);
    }
}

/// Inserting a batch whose every hash is already recorded changes nothing.
proof fn lemma_insert_all_of_present(ledger: Seq<ProofOfWork>, batch: Seq<ProofOfWork>)
    requires
        forall|k: int| 0 <= k < batch.len() ==> contains_sha(ledger, (#[trigger] batch[k]).sha@),
    ensures
        insert_all(ledger, batch) == ledger,
    decreases batch.len(),
{
    if batch.len() == 0 {
    } else {
        assert forall|k: int|
            0 <= k < batch.drop_last().len() implies contains_sha(
            ledger,
            (#[trigger] batch.drop_last()[k]).sha@,
        ) by {
            assert(batch.drop_last()[k] == batch[k]);
        }
        lemma_insert_all_of_present(ledger, batch.drop_last());
        assert(contains_sha(ledger, batch[batch.len() - 1].sha@));
    }
}

/// A hash is recorded after an insert exactly when it was recorded before
/// or the batch carries it.
proof fn lemma_insert_all_membership(ledger: Seq<ProofOfWork>, batch: Seq<ProofOfWork>, x: Seq<
    char,
>)
    ensures
        contains_sha(insert_all(ledger, batch), x) <==> (contains_sha(ledger, x) || exists|k: int|
            0 <= k < batch.len() && (#[trigger] batch[k]).sha@ == x),
    decreases batch.len(),
{
    if batch.len() == 0 {
    } else {
        let dl = batch.drop_last();
        lemma_insert_all_membership(ledger, dl, x);
        let l2 = insert_all(ledger, dl);
        let r = insert_all(ledger, batch);
        assert forall|k: int| 0 <= k < dl.len() implies dl[k] == batch[k] by {}
        if contains_sha(l2, batch.last().sha@) {
            if contains_sha(r, x) {
                if !contains_sha(ledger, x) {
                    let k = choose|k: int| 0 <= k < dl.len() && (#[trigger] dl[k]).sha@ == x;
                    assert(batch[k].sha@ == x);
                }
            }
            if exists|k: int| 0 <= k < batch.len() && (#[trigger] batch[k]).sha@ == x {
                let k = choose|k: int| 0 <= k < batch.len() && (#[trigger] batch[k]).sha@ == x;
                if k < dl.len() {
                    assert(dl[k].sha@ == x);
                } else {
                    assert(x == batch.last().sha@);
                }
            }
        } else {
            assert(r == l2.push(batch.last()));
            if contains_sha(r, x) {
                let i = choose|i: int| 0 <= i < r.len() && (#[trigger] r[i]).sha@ == x;
                if i < l2.len() {
                    assert(contains_sha(l2, x));
                    if !contains_sha(ledger, x) {
                        let k = choose|k: int| 0 <= k < dl.len() && (#[trigger] dl[k]).sha@ == x;
                        assert(batch[k].sha@ == x);
                    }
                } else {
                    assert(batch[batch.len() - 1].sha@ == x);
                }
            }
            if contains_sha(ledger, x) || exists|k: int|
                0 <= k < batch.len() && (#[trigger] batch[k]).sha@ == x {
                if contains_sha(l2, x) {
                    let i = choose|i: int| 0 <= i < l2.len() && (#[trigger] l2[i]).sha@ == x;
                    assert(r[i].sha@ == x);
                } else {
                    let k = choose|k: int| 0 <= k < batch.len() && (#[trigger] batch[k]).sha@ == x;
                    assert(k == batch.len() - 1);
                    assert(r[r.len() - 1].sha@ == x);
                }
            }
        }
    }
}

/// How many of the batch's entries are fresh: their hash not yet recorded.
pub open spec fn fresh_count(ledger: Seq<ProofOfWork>, batch: Seq<ProofOfWork>) -> nat
    decreases batch.len(),
{
    if batch.len() == 0 {
        0
    } else {
        fresh_count(ledger, batch.drop_last()) + if contains_sha(ledger, batch.last().sha@) {
            0nat
        } else {
            1nat
        }
    }
}

/// Recording a batch whose hashes are pairwise distinct grows the ledger by
/// exactly the number of entries whose hash was fresh: the fresh ones land,
/// every duplicate of an already-recorded hash is skipped, and the skipping
/// never aborts the rest of the batch.
pub proof fn lemma_insert_fresh_count(ledger: Seq<ProofOfWork>, batch: Seq<ProofOfWork>)
    requires
        forall|i: int, j: int|
            0 <= i < j < batch.len() ==> (#[trigger] batch[i]).sha@ != (#[trigger] batch[j]).sha@,
    ensures
        insert_all(ledger, batch).len() == ledger.len() + fresh_count(ledger, batch),
    decreases batch.len(),
{
    if batch.len() == 0 {
    } else {
        let dl = batch.drop_last();
        assert forall|i: int, j: int|
            0 <= i < j < dl.len() implies (#[trigger] dl[i]).sha@ != (#[trigger] dl[j]).sha@ by {
            assert(dl[i] == batch[i] && dl[j] == batch[j]);
        }
        lemma_insert_fresh_count(ledger, dl);
        lemma_insert_all_membership(ledger, dl, batch.last().sha@);
        assert(!(exists|k: int| 0 <= k < dl.len() && (#[trigger] dl[k]).sha@ == batch.last().sha@))
            by {
            if exists|k: int| 0 <= k < dl.len() && (#[trigger] dl[k]).sha@ == batch.last().sha@ {
                let k = choose|k: int|
                    0 <= k < dl.len() && (#[trigger] dl[k]).sha@ == batch.last().sha@;
                assert(batch[k].sha@ == batch[batch.len() - 1].sha@);
            }
        }
    }
}

/// Idempotence: recording the same batch a second time adds nothing — a
/// resubmitted (miner, nonce) pair is not double-counted, and skipping it
/// does not disturb anything else in the ledger.
pub proof fn lemma_insert_shares_idempotent(ledger: Seq<ProofOfWork>, batch: Seq<ProofOfWork>)
    ensures
        insert_all(insert_all(ledger, batch), batch) == insert_all(ledger, batch),
{
    let once = insert_all(ledger, batch);
    assert forall|k: int|
        0 <= k < batch.len() implies contains_sha(once, (#[trigger] batch[k]).sha@) by {
        lemma_insert_all_contains_batch(ledger, batch, k);
    }
    lemma_insert_all_of_present(once, batch);
}

} // verus!
