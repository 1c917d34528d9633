//! On-chain puzzle state: the `Block` snapshot and the bounded history cache.
//!
//! The cache keeps the most recently observed blocks, newest first, with
//! strictly decreasing block numbers. Reading the latest block never fails:
//! before any update has succeeded it returns the zero-valued default block.

use vstd::prelude::*;
use crate::hex_codec::{hex_encode, hex_encoding_of};

verus! {

/// Mathematical value of a `Block`: every field as a plain sequence or integer.
#[verifier::ext_equal]
pub ghost struct BlockView {
    pub block_number: int,
    pub current_hash: Seq<u8>,
    pub leading_zeroes: u8,
    pub difficulty_number: u16,
    pub epoch_time: u64,
    pub current_time: u64,
    pub extra: Seq<u8>,
    pub interlink: Seq<Seq<u8>>,
    pub output_index: int,
    pub transaction_id: Seq<char>,
}

/// A snapshot of the on-chain puzzle state, immutable once observed.
/// `transaction_id` and `output_index` record where it was observed.
#[derive(Debug)]
pub struct Block {
    pub block_number: i64,
    pub current_hash: Vec<u8>,
    pub leading_zeroes: u8,
    pub difficulty_number: u16,
    pub epoch_time: u64,
    pub current_time: u64,
    pub extra: Vec<u8>,
    pub interlink: Vec<Vec<u8>>,
    pub output_index: i64,
    pub transaction_id: String,
}

impl View for Block {
    type V = BlockView;

    open spec fn view(&self) -> BlockView {
        BlockView {
            block_number: self.block_number as int,
            current_hash: self.current_hash@,
            leading_zeroes: self.leading_zeroes,
            difficulty_number: self.difficulty_number,
            epoch_time: self.epoch_time,
            current_time: self.current_time,
            extra: self.extra@,
            interlink: self.interlink.deep_view(),
            output_index: self.output_index as int,
            transaction_id: self.transaction_id@,
        }
    }
}

impl DeepView for Block {
    type V = BlockView;

    open spec fn deep_view(&self) -> BlockView {
        self.view()
    }
}

/// The zero-valued default block served while the cache is empty.
pub open spec fn default_block_view() -> BlockView {
    BlockView {
        block_number: 0,
        current_hash: Seq::empty(),
        leading_zeroes: 0,
        difficulty_number: 0,
        epoch_time: 0,
        current_time: 0,
        extra: Seq::empty(),
        interlink: Seq::empty(),
        output_index: 0,
        transaction_id: Seq::empty(),
    }
}

impl Default for Block {
    /// The zero-valued block: number 0, empty hash and extra, no interlink.
    fn default() -> (r: Block)
        ensures
            r@ == default_block_view(),
    {
        let b = Block {
            block_number: 0,
            current_hash: Vec::new(),
            leading_zeroes: 0,
            difficulty_number: 0,
            epoch_time: 0,
            current_time: 0,
            extra: Vec::new(),
            interlink: Vec::new(),
            output_index: 0,
            transaction_id: String::new(),
        };
        proof {
            assert(b@ =~= default_block_view());
        }
        b
    }
}

/// Copies a byte vector element by element.
fn copy_bytes(v: &Vec<u8>) -> (r: Vec<u8>)
    ensures
        r@ == v@,
{
    let mut out: Vec<u8> = Vec::new();
    let mut i: usize = 0;
    while i < v.len()
        invariant
            0 <= i <= v@.len(),
            out@ == v@.subrange(0, i as int),
        decreases v@.len() - i,
    {
        out.push(v[i]);
        i = i + 1;
    }
    proof {
        assert(out@ =~= v@);
    }
    out
}

impl Block {
    /// A deep copy whose every field has the same value.
    pub fn duplicate(&self) -> (r: Block)
        ensures
            r@ == self@,
    {
        let mut interlink: Vec<Vec<u8>> = Vec::new();
        let mut i: usize = 0;
        while i < self.interlink.len()
            invariant
                0 <= i <= self.interlink@.len(),
                interlink@.len() == i,
                forall|j: int| 0 <= j < i ==> #[trigger] interlink@[j]@ == self.interlink@[j]@,
            decreases self.interlink@.len() - i,
        {
            interlink.push(copy_bytes(&self.interlink[i]));
            i = i + 1;
        }
        proof {
            assert forall|j: int|
                0 <= j < interlink.deep_view().len() implies interlink.deep_view()[j]
                == self.interlink.deep_view()[j] by {
                assert(interlink@[j]@ == self.interlink@[j]@);
                assert(interlink@[j].deep_view() =~= interlink@[j]@);
                assert(self.interlink@[j].deep_view() =~= self.interlink@[j]@);
            }
            assert(interlink.deep_view() =~= self.interlink.deep_view());
        }
        let r = Block {
            block_number: self.block_number,
            current_hash: copy_bytes(&self.current_hash),
            leading_zeroes: self.leading_zeroes,
            difficulty_number: self.difficulty_number,
            epoch_time: self.epoch_time,
            current_time: self.current_time,
            extra: copy_bytes(&self.extra),
            interlink,
            output_index: self.output_index,
            transaction_id: self.transaction_id.clone(),
        };
        proof {
            assert(r.interlink.deep_view() =~= self.interlink.deep_view());
            assert(r@ =~= self@);
        }
        r
    }
}

/// How many recent blocks the cache retains.
pub const MAX_HISTORY: usize = 10;

/// Bounded cache of recently observed blocks, newest first, block numbers
/// strictly decreasing. Network fetching and locking live outside; the cache
/// itself only decides whether an observed block supersedes the head.
pub struct BlockService {
    history: Vec<Block>,
}

impl BlockService {
    /// The cached blocks, newest first.
    pub closed spec fn history_view(&self) -> Seq<BlockView> {
        self.history.deep_view()
    }

    /// At most `MAX_HISTORY` blocks, strictly decreasing block numbers.
    pub open spec fn well_formed(&self) -> bool {
        &&& self.history_view().len() <= MAX_HISTORY
        &&& forall|i: int, j: int|
            0 <= i < j < self.history_view().len() ==> #[trigger] self.history_view()[i].block_number
                > #[trigger] self.history_view()[j].block_number
    }

    /// An empty cache: nothing has been fetched yet.
    pub fn new() -> (r: BlockService)
        ensures
            r.well_formed(),
            r.history_view() == Seq::<BlockView>::empty(),
    {
        let r = BlockService { history: Vec::new() };
        proof {
            assert(r.history_view() =~= Seq::<BlockView>::empty());
        }
        r
    }

    /// The block served to readers: the newest cached block, or the
    /// zero-valued default block while the cache is empty.
    pub open spec fn latest_view(&self) -> BlockView {
        if self.history_view().len() == 0 {
            default_block_view()
        } else {
            self.history_view()[0]
        }
    }

    /// Returns a copy of the most recent known block, or the zero-valued
    /// default if no update has ever succeeded. Never fails.
    pub fn get_latest(&self) -> (r: Block)
        ensures
            r@ == self.latest_view(),
    {
        if self.history.len() == 0 {
            Block::default()
        } else {
            self.history[0].duplicate()
        }
    }

    /// Records a fetched block. The cache changes exactly when the new
    /// block's number strictly exceeds the served head's — the zero-valued
    /// default while the cache is empty: then it is pushed to the front and
    /// the oldest entry is dropped once the capacity is reached. Anything
    /// else, a fetched block numbered zero included, is a no-op, so the
    /// served block number never decreases.
    pub fn observe_block(&mut self, b: Block)
        requires
            old(self).well_formed(),
        ensures
            final(self).well_formed(),
            final(self).latest_view().block_number >= old(self).latest_view().block_number,
            b@.block_number > old(self).latest_view().block_number ==> {
                &&& final(self).history_view()[0] == b@
                &&& final(self).history_view() == seq![b@] + if old(self).history_view().len()
                    < MAX_HISTORY {
                    old(self).history_view()
                } else {
                    old(self).history_view().drop_last()
                }
            },
            !(b@.block_number > old(self).latest_view().block_number) ==> final(self).history_view()
                == old(self).history_view(),
    {
        let ghost old_hist = self.history_view();
        let head_number: i64 = if self.history.len() == 0 {
            0
        } else {
            self.history[0].block_number
        };
        if b.block_number > head_number {
            if self.history.len() == MAX_HISTORY {
                self.history.pop();
                proof {
                    assert(self.history.deep_view() =~~= old_hist.drop_last());
                }
            }
            let ghost kept = self.history.deep_view();
            self.history.insert(0, b);
            proof {
                assert(self.history.deep_view() =~~= seq![b@] + kept);
                let new_hist = self.history_view();
                assert forall|i: int, j: int|
                    0 <= i < j < new_hist.len() implies new_hist[i].block_number
                    > new_hist[j].block_number by {
                    assert(new_hist[j] == kept[j - 1]);
                    assert(kept[j - 1] == old_hist[j - 1]);
                    if i == 0 {
                        if j - 1 > 0 {
                            assert(old_hist[0].block_number > old_hist[j - 1].block_number);
                        }
                    } else {
                        assert(new_hist[i] == old_hist[i - 1]);
                        assert(old_hist[i - 1].block_number > old_hist[j - 1].block_number);
                    }
                }
            }
        }
    }
}

/// A block rendered for pool clients: byte fields as lowercase hex strings.
#[derive(Debug, Default)]
pub struct ReadableBlock {
    pub block_number: i64,
    pub current_hash: String,
    pub leading_zeroes: u8,
    pub difficulty_number: u16,
    pub epoch_time: u64,
    pub current_time: u64,
    pub extra: String,
    pub interlink: Vec<String>,
}

/// The hex rendering of a byte string, as characters.
pub open spec fn hex_chars_of(b: Seq<u8>) -> Seq<char> {
    hex_encoding_of(b).map_values(|c: u8| c as char)
}

impl Block {
    /// Renders the block for clients: every byte field as lowercase hex.
    pub fn to_readable(&self) -> (r: ReadableBlock)
        ensures
            r.block_number == self@.block_number,
            r.current_hash@ == hex_chars_of(self@.current_hash),
            r.leading_zeroes == self@.leading_zeroes,
            r.difficulty_number == self@.difficulty_number,
            r.epoch_time == self@.epoch_time,
            r.current_time == self@.current_time,
            r.extra@ == hex_chars_of(self@.extra),
            r.interlink.deep_view() == self@.interlink.map_values(|b: Seq<u8>| hex_chars_of(b)),
    {
        let mut interlink: Vec<String> = Vec::new();
        let mut i: usize = 0;
        while i < self.interlink.len()
            invariant
                0 <= i <= self.interlink@.len(),
                interlink@.len() == i,
                forall|j: int|
                    0 <= j < i ==> #[trigger] interlink@[j]@ == hex_chars_of(self.interlink@[j]@),
            decreases self.interlink@.len() - i,
        {
            interlink.push(hex_encode(self.interlink[i].as_slice()));
            i = i + 1;
        }
        proof {
            let target = self@.interlink.map_values(|b: Seq<u8>| hex_chars_of(b));
            assert forall|j: int|
                0 <= j < interlink.deep_view().len() implies interlink.deep_view()[j]
                == target[j] by {
                assert(interlink@[j]@ == hex_chars_of(self.interlink@[j]@));
                assert(self.interlink@[j].deep_view() =~= self.interlink@[j]@);
                assert(self@.interlink[j] == self.interlink@[j].deep_view());
            }
            assert(interlink.deep_view() =~= target);
        }
        ReadableBlock {
            block_number: self.block_number,
            current_hash: hex_encode(self.current_hash.as_slice()),
            leading_zeroes: self.leading_zeroes,
            difficulty_number: self.difficulty_number,
            epoch_time: self.epoch_time,
            current_time: self.current_time,
            extra: hex_encode(self.extra.as_slice()),
            interlink,
        }
    }
}

} // verus!
