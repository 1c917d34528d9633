//! Binary encoding of the on-chain block datum.
//!
//! The datum is a fixed-order tagged record (constructor tag 0, written as
//! tag 121 over an indefinite-length array) with fields: nonce placeholder
//! (16 bytes), block number, current hash, leading zeroes, difficulty
//! number, epoch time, current time, extra bytes, and the interlink (a list
//! of byte strings). Integers are big-endian with minimal-width heads; byte
//! strings carry definite-length heads. The nonce always sits at bytes
//! 4..20, so a submitted nonce can be spliced into an encoded target state
//! at a fixed offset.

use vstd::prelude::*;
use crate::block::{Block, BlockView};

verus! {

/// Big-endian bytes of a value below 2^16.
pub open spec fn be2(v: u64) -> Seq<u8>
    recommends
        v < 0x10000,
{
    seq![(v / 0x100) as u8, (v % 0x100) as u8]
}

/// Big-endian bytes of a value below 2^32.
pub open spec fn be4(v: u64) -> Seq<u8>
    recommends
        v < 0x100000000,
{
    seq![
        (v / 0x1000000) as u8,
        (v / 0x10000 % 0x100) as u8,
        (v / 0x100 % 0x100) as u8,
        (v % 0x100) as u8,
    ]
}

/// Big-endian bytes of any 64-bit value.
pub open spec fn be8(v: u64) -> Seq<u8> {
    seq![
        (v / 0x100000000000000) as u8,
        (v / 0x1000000000000 % 0x100) as u8,
        (v / 0x10000000000 % 0x100) as u8,
        (v / 0x100000000 % 0x100) as u8,
        (v / 0x1000000 % 0x100) as u8,
        (v / 0x10000 % 0x100) as u8,
        (v / 0x100 % 0x100) as u8,
        (v % 0x100) as u8,
    ]
}

/// Encoding of an unsigned integer: the smallest head that holds its value.
pub open spec fn uint_bytes(v: u64) -> Seq<u8> {
    if v < 24 {
        seq![v as u8]
    } else if v < 0x100 {
        seq![0x18u8, v as u8]
    } else if v < 0x10000 {
        seq![0x19u8] + be2(v)
    } else if v < 0x100000000 {
        seq![0x1au8] + be4(v)
    } else {
        seq![0x1bu8] + be8(v)
    }
}

/// Head of a definite-length byte string of `n` bytes.
pub open spec fn bstr_head(n: u64) -> Seq<u8> {
    if n < 24 {
        seq![(0x40 + n) as u8]
    } else if n < 0x100 {
        seq![0x58u8, n as u8]
    } else if n < 0x10000 {
        seq![0x59u8] + be2(n)
    } else if n < 0x100000000 {
        seq![0x5au8] + be4(n)
    } else {
        seq![0x5bu8] + be8(n)
    }
}

/// Encoding of a byte string: its head followed by its bytes.
pub open spec fn bstr_bytes(b: Seq<u8>) -> Seq<u8>
    recommends
        b.len() <= u64::MAX,
{
    bstr_head(b.len() as u64) + b
}

/// Encoding of the interlink items, in order, each as a byte string.
pub open spec fn interlink_items(links: Seq<Seq<u8>>) -> Seq<u8>
    decreases links.len(),
{
    if links.len() == 0 {
        Seq::empty()
    } else {
        bstr_bytes(links[0]) + interlink_items(links.drop_first())
    }
}

/// Everything of the encoded datum that follows the 16-byte nonce field:
/// the remaining record fields and the two closing break bytes.
pub open spec fn datum_tail(b: BlockView) -> Seq<u8>
    recommends
        0 <= b.block_number <= u64::MAX,
{
    uint_bytes(b.block_number as u64) + bstr_bytes(b.current_hash) + uint_bytes(
        b.leading_zeroes as u64,
    ) + uint_bytes(b.difficulty_number as u64) + uint_bytes(b.epoch_time) + uint_bytes(
        b.current_time,
    ) + bstr_bytes(b.extra) + seq![0x9fu8] + interlink_items(b.interlink) + seq![0xffu8] + seq![
        0xffu8,
    ]
}

/// The full encoded datum: constructor tag 121, an indefinite-length array,
/// the 16-byte nonce as its first field, then the tail.
pub open spec fn datum_bytes(b: BlockView, nonce: Seq<u8>) -> Seq<u8>
    recommends
        0 <= b.block_number <= u64::MAX,
        nonce.len() == 16,
{
    seq![0xd8u8, 0x79u8, 0x9fu8] + bstr_bytes(nonce) + datum_tail(b)
}

/// Appends the encoding of an unsigned integer.
fn push_uint(out: &mut Vec<u8>, v: u64)
    ensures
        final(out)@ == old(out)@ + uint_bytes(v),
{
    if v < 24 {
        out.push(v as u8);
    } else if v < 0x100 {
        out.push(0x18);
        out.push(v as u8);
    } else if v < 0x10000 {
        out.push(0x19);
        out.push((v / 0x100) as u8);
        out.push((v % 0x100) as u8);
    } else if v < 0x100000000 {
        out.push(0x1a);
        out.push((v / 0x1000000) as u8);
        out.push((v / 0x10000 % 0x100) as u8);
        out.push((v / 0x100 % 0x100) as u8);
        out.push((v % 0x100) as u8);
    } else {
        out.push(0x1b);
        out.push((v / 0x100000000000000) as u8);
        out.push((v / 0x1000000000000 % 0x100) as u8);
        out.push((v / 0x10000000000 % 0x100) as u8);
        out.push((v / 0x100000000 % 0x100) as u8);
        out.push((v / 0x1000000 % 0x100) as u8);
        out.push((v / 0x10000 % 0x100) as u8);
        out.push((v / 0x100 % 0x100) as u8);
        out.push((v % 0x100) as u8);
    }
    proof {
        assert(final(out)@ =~= old(out)@ + uint_bytes(v));
    }
}

/// Appends the encoding of a byte string: head, then content.
fn push_bstr(out: &mut Vec<u8>, b: &[u8])
    ensures
        final(out)@ == old(out)@ + bstr_bytes(b@),
{
    let n: u64 = b.len() as u64;
    if n < 24 {
        out.push(0x40 + n as u8);
    } else if n < 0x100 {
        out.push(0x58);
        out.push(n as u8);
    } else if n < 0x10000 {
        out.push(0x59);
        out.push((n / 0x100) as u8);
        out.push((n % 0x100) as u8);
    } else if n < 0x100000000 {
        out.push(0x5a);
        out.push((n / 0x1000000) as u8);
        out.push((n / 0x10000 % 0x100) as u8);
        out.push((n / 0x100 % 0x100) as u8);
        out.push((n % 0x100) as u8);
    } else {
        out.push(0x5b);
        out.push((n / 0x100000000000000) as u8);
        out.push((n / 0x1000000000000 % 0x100) as u8);
        out.push((n / 0x10000000000 % 0x100) as u8);
        out.push((n / 0x100000000 % 0x100) as u8);
        out.push((n / 0x1000000 % 0x100) as u8);
        out.push((n / 0x10000 % 0x100) as u8);
        out.push((n / 0x100 % 0x100) as u8);
        out.push((n % 0x100) as u8);
    }
    proof {
        assert(out@ =~= old(out)@ + bstr_head(b@.len() as u64));
    }
    let ghost with_head = out@;
    let mut i: usize = 0;
    while i < b.len()
        invariant
            0 <= i <= b@.len(),
            out@ == with_head + b@.subrange(0, i as int),
        decreases b@.len() - i,
    {
        out.push(b[i]);
        proof {
            assert(out@ =~= with_head + b@.subrange(0, i + 1));
        }
        i = i + 1;
    }
    proof {
        assert(b@.subrange(0, b@.len() as int) =~= b@);
        assert(out@ =~= old(out)@ + bstr_bytes(b@));
    }
}

/// Step lemma: encoding one more interlink item appends its byte string.
pub proof fn lemma_interlink_items_snoc(links: Seq<Seq<u8>>, i: int)
    requires
        0 <= i < links.len(),
    ensures
        interlink_items(links.subrange(0, i + 1)) == interlink_items(links.subrange(0, i))
            + bstr_bytes(links[i]),
    decreases i,
{
    if i == 0 {
        let s1 = links.subrange(0, 1);
        assert(s1.len() == 1);
        assert(s1[0] == links[0]);
        assert(s1.drop_first() =~= Seq::<Seq<u8>>::empty());
        assert(interlink_items(s1.drop_first()) == Seq::<u8>::empty());
        assert(interlink_items(s1) == bstr_bytes(links[0]) + interlink_items(s1.drop_first()));
        assert(interlink_items(links.subrange(0, 0)) == Seq::<u8>::empty());
        assert(interlink_items(s1) =~= interlink_items(links.subrange(0, 0)) + bstr_bytes(
            links[0],
        ));
    } else {
        let tail = links.drop_first();
        lemma_interlink_items_snoc(tail, i - 1);
        assert(links.subrange(0, i + 1).drop_first() =~= tail.subrange(0, i));
        assert(links.subrange(0, i).drop_first() =~= tail.subrange(0, i - 1));
        assert(links.subrange(0, i + 1)[0] == links[0]);
        assert(links.subrange(0, i)[0] == links[0]);
        assert(tail[i - 1] == links[i]);
        assert(interlink_items(links.subrange(0, i + 1)) == bstr_bytes(links[0])
            + interlink_items(tail.subrange(0, i)));
        assert(bstr_bytes(links[0]) + (interlink_items(tail.subrange(0, i - 1)) + bstr_bytes(
            tail[i - 1],
        )) =~= (bstr_bytes(links[0]) + interlink_items(tail.subrange(0, i - 1))) + bstr_bytes(
            links[i],
        ));
    }
}

/// Encodes the canonical target-state buffer for a block with the given
/// nonce in the nonce field. This is the buffer whose double SHA-256 scores
/// a candidate solution.
#[verifier::rlimit(50)]
pub fn block_to_target_state(block: &Block, nonce: &[u8; 16]) -> (r: Vec<u8>)
    requires
        block.block_number >= 0,
    ensures
        r@ == datum_bytes(block@, nonce@),
{
    let mut out: Vec<u8> = Vec::new();
    out.push(0xd8);
    out.push(0x79);
    out.push(0x9f);
    let ghost prefix = out@;
    proof {
        assert(prefix =~= seq![0xd8u8, 0x79u8, 0x9fu8]);
    }
    push_bstr(&mut out, nonce.as_slice());
    push_uint(&mut out, block.block_number as u64);
    push_bstr(&mut out, block.current_hash.as_slice());
    push_uint(&mut out, block.leading_zeroes as u64);
    push_uint(&mut out, block.difficulty_number as u64);
    push_uint(&mut out, block.epoch_time);
    push_uint(&mut out, block.current_time);
    push_bstr(&mut out, block.extra.as_slice());
    out.push(0x9f);
    let ghost before_links = out@;
    let ghost links = block@.interlink;
    proof {
        assert(links.subrange(0, 0) =~= Seq::<Seq<u8>>::empty());
        assert(out@ =~= before_links + interlink_items(links.subrange(0, 0)));
    }
    let mut i: usize = 0;
    while i < block.interlink.len()
        invariant
            0 <= i <= block.interlink@.len(),
            links == block@.interlink,
            links.len() == block.interlink@.len(),
            out@ == before_links + interlink_items(links.subrange(0, i as int)),
        decreases block.interlink@.len() - i,
    {
        proof {
            assert(links[i as int] == block.interlink@[i as int].deep_view());
            assert(block.interlink@[i as int].deep_view() =~= block.interlink@[i as int]@);
        }
        push_bstr(&mut out, block.interlink[i].as_slice());
        proof {
            lemma_interlink_items_snoc(links, i as int);
        }
        i = i + 1;
    }
    proof {
        assert(links.subrange(0, links.len() as int) =~= links);
    }
    out.push(0xff);
    out.push(0xff);
    proof {
        assert(out@ =~= datum_bytes(block@, nonce@));
    }
    out
}

/// Overwrites the nonce field of an encoded target state, bytes 4..20.
pub fn splice_nonce(buf: &mut Vec<u8>, nonce: &[u8; 16])
    requires
        old(buf)@.len() >= 20,
    ensures
        final(buf)@.len() == old(buf)@.len(),
        forall|k: int| 4 <= k < 20 ==> final(buf)@[k] == nonce@[k - 4],
        forall|k: int|
            0 <= k < final(buf)@.len() && !(4 <= k < 20) ==> final(buf)@[k] == old(buf)@[k],
{
    let mut i: usize = 0;
    while i < 16
        invariant
            0 <= i <= 16,
            buf@.len() == old(buf)@.len(),
            old(buf)@.len() >= 20,
            forall|k: int| 4 <= k < 4 + i ==> buf@[k] == nonce@[k - 4],
            forall|k: int| 0 <= k < buf@.len() && !(4 <= k < 4 + i) ==> buf@[k] == old(buf)@[k],
        decreases 16 - i,
    {
        buf.set(4 + i, nonce[i]);
        i = i + 1;
    }
}

/// Splicing a new nonce into an encoded target state yields exactly the
/// encoding with that nonce: the nonce field sits at bytes 4..20 and no
/// other byte depends on it.
pub proof fn lemma_splice_target(
    b: BlockView,
    n_old: Seq<u8>,
    n_new: Seq<u8>,
    before: Seq<u8>,
    after: Seq<u8>,
)
    requires
        0 <= b.block_number <= u64::MAX,
        n_old.len() == 16,
        n_new.len() == 16,
        before == datum_bytes(b, n_old),
        after.len() == before.len(),
        forall|k: int| 4 <= k < 20 ==> after[k] == n_new[k - 4],
        forall|k: int| 0 <= k < after.len() && !(4 <= k < 20) ==> after[k] == before[k],
    ensures
        after == datum_bytes(b, n_new),
{
    assert(bstr_head(16) =~= seq![0x50u8]);
    assert(datum_bytes(b, n_old).len() == 20 + datum_tail(b).len());
    assert(datum_bytes(b, n_new).len() == 20 + datum_tail(b).len());
    assert forall|k: int| 0 <= k < after.len() implies after[k] == datum_bytes(b, n_new)[k] by {
        if k < 3 {
            assert(before[k] == seq![0xd8u8, 0x79u8, 0x9fu8][k]);
            assert(datum_bytes(b, n_new)[k] == seq![0xd8u8, 0x79u8, 0x9fu8][k]);
        } else if k < 4 {
            assert(before[k] == bstr_bytes(n_old)[k - 3]);
            assert(datum_bytes(b, n_new)[k] == bstr_bytes(n_new)[k - 3]);
        } else if k < 20 {
            assert(datum_bytes(b, n_new)[k] == bstr_bytes(n_new)[k - 3]);
            assert(bstr_bytes(n_new)[k - 3] == n_new[k - 4]);
        } else {
            assert(before[k] == datum_tail(b)[k - 20]);
            assert(datum_bytes(b, n_new)[k] == datum_tail(b)[k - 20]);
        }
    }
    assert(after =~= datum_bytes(b, n_new));
}

} // verus!
