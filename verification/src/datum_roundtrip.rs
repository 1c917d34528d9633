//! Round-trip: decoding an encoded block datum yields the original fields.
//!
//! The lemmas here relate the parser to the encoder segment by segment:
//! wherever a buffer holds the encoding of an integer, a byte string or the
//! interlink list, the parser reads back exactly the encoded value and stops
//! exactly after it. The final lemma composes them over the whole record.

use vstd::prelude::*;
use crate::block::BlockView;
use crate::datum::{uint_bytes, bstr_head, bstr_bytes, interlink_items, datum_bytes};
use crate::datum_parse::{parse_uint, parse_bstr, parse_links, parse_datum, DatumFields};

verus! {

/// The byte of `s` at offset `k` into a segment known to sit at `i`.
proof fn lemma_seg_byte(s: Seq<u8>, i: int, seg: Seq<u8>, k: int)
    requires
        0 <= i,
        0 <= k < seg.len(),
        i + seg.len() <= s.len(),
        s.subrange(i, i + seg.len() as int) == seg,
    ensures
        s[i + k] == seg[k],
{
    assert(s.subrange(i, i + seg.len() as int)[k] == s[i + k]);
}

/// Recomposition of a 16-bit value from its big-endian bytes.
proof fn lemma_be2_recompose(v: u64)
    by (bit_vector)
    requires
        v < 0x10000,
    ensures
        v / 0x100 * 0x100 + v % 0x100 == v,
        v / 0x100 < 0x100,
{
}

/// Recomposition of a 32-bit value from its big-endian bytes.
proof fn lemma_be4_recompose(v: u64)
    by (bit_vector)
    requires
        v < 0x100000000,
    ensures
        v / 0x1000000 * 0x1000000 + v / 0x10000 % 0x100 * 0x10000 + v / 0x100 % 0x100 * 0x100 + v
            % 0x100 == v,
        v / 0x1000000 < 0x100,
{
}

/// Recomposition of a 64-bit value from its big-endian bytes.
proof fn lemma_be8_recompose(v: u64)
    by (bit_vector)
    ensures
        v / 0x100000000000000 * 0x100000000000000 + v / 0x1000000000000 % 0x100 * 0x1000000000000
            + v / 0x10000000000 % 0x100 * 0x10000000000 + v / 0x100000000 % 0x100 * 0x100000000 + v
            / 0x1000000 % 0x100 * 0x1000000 + v / 0x10000 % 0x100 * 0x10000 + v / 0x100 % 0x100
            * 0x100 + v % 0x100 == v,
        v / 0x100000000000000 < 0x100,
{
}

/// Where a buffer holds the encoding of an unsigned integer, the parser
/// reads back that integer and stops right after it.
pub proof fn lemma_parse_uint_at(s: Seq<u8>, i: int, v: u64)
    requires
        0 <= i,
        i + uint_bytes(v).len() <= s.len(),
        s.subrange(i, i + uint_bytes(v).len() as int) == uint_bytes(v),
    ensures
        parse_uint(s, i) == Some((v, i + uint_bytes(v).len() as int)),
{
    let u = uint_bytes(v);
    if v < 24 {
        lemma_seg_byte(s, i, u, 0);
        assert(s[i] == v as u8);
    } else if v < 0x100 {
        lemma_seg_byte(s, i, u, 0);
        lemma_seg_byte(s, i, u, 1);
        assert(s[i] == 0x18 && s[i + 1] == v as u8);
    } else if v < 0x10000 {
        lemma_seg_byte(s, i, u, 0);
        lemma_seg_byte(s, i, u, 1);
        lemma_seg_byte(s, i, u, 2);
        assert(s[i] == 0x19);
        assert(s[i + 1] == (v / 0x100) as u8);
        assert(s[i + 2] == (v % 0x100) as u8);
        lemma_be2_recompose(v);
    } else if v < 0x100000000 {
        lemma_seg_byte(s, i, u, 0);
        lemma_seg_byte(s, i, u, 1);
        lemma_seg_byte(s, i, u, 2);
        lemma_seg_byte(s, i, u, 3);
        lemma_seg_byte(s, i, u, 4);
        assert(s[i] == 0x1a);
        assert(s[i + 1] == (v / 0x1000000) as u8);
        assert(s[i + 2] == (v / 0x10000 % 0x100) as u8);
        assert(s[i + 3] == (v / 0x100 % 0x100) as u8);
        assert(s[i + 4] == (v % 0x100) as u8);
        lemma_be4_recompose(v);
    } else {
        lemma_seg_byte(s, i, u, 0);
        lemma_seg_byte(s, i, u, 1);
        lemma_seg_byte(s, i, u, 2);
        lemma_seg_byte(s, i, u, 3);
        lemma_seg_byte(s, i, u, 4);
        lemma_seg_byte(s, i, u, 5);
        lemma_seg_byte(s, i, u, 6);
        lemma_seg_byte(s, i, u, 7);
        lemma_seg_byte(s, i, u, 8);
        assert(s[i] == 0x1b);
        assert(s[i + 1] == (v / 0x100000000000000) as u8);
        assert(s[i + 2] == (v / 0x1000000000000 % 0x100) as u8);
        assert(s[i + 3] == (v / 0x10000000000 % 0x100) as u8);
        assert(s[i + 4] == (v / 0x100000000 % 0x100) as u8);
        assert(s[i + 5] == (v / 0x1000000 % 0x100) as u8);
        assert(s[i + 6] == (v / 0x10000 % 0x100) as u8);
        assert(s[i + 7] == (v / 0x100 % 0x100) as u8);
        assert(s[i + 8] == (v % 0x100) as u8);
        lemma_be8_recompose(v);
    }
}

/// Where a buffer holds the encoding of a byte string, the parser reads back
/// exactly its content and stops right after it.
#[verifier::rlimit(50)]
pub proof fn lemma_parse_bstr_at(s: Seq<u8>, i: int, b: Seq<u8>)
    requires
        0 <= i,
        b.len() < 0x10000000000000000,
        i + bstr_bytes(b).len() <= s.len(),
        s.subrange(i, i + bstr_bytes(b).len() as int) == bstr_bytes(b),
    ensures
        parse_bstr(s, i) == Some((b, i + bstr_bytes(b).len() as int)),
{
    let n: u64 = b.len() as u64;
    let w = bstr_bytes(b);
    let head = bstr_head(n);
    let j = i + head.len();
    if n < 24 {
        lemma_seg_byte(s, i, w, 0);
        assert(s[i] == (0x40 + n) as u8);
        assert(0x40 <= s[i] <= 0x57);
        assert((s[i] - 0x40) as int == n);
    } else if n < 0x100 {
        lemma_seg_byte(s, i, w, 0);
        lemma_seg_byte(s, i, w, 1);
        assert(s[i] == 0x58 && s[i + 1] == n as u8);
    } else if n < 0x10000 {
        lemma_seg_byte(s, i, w, 0);
        lemma_seg_byte(s, i, w, 1);
        lemma_seg_byte(s, i, w, 2);
        assert(s[i] == 0x59);
        assert(s[i + 1] == (n / 0x100) as u8);
        assert(s[i + 2] == (n % 0x100) as u8);
        lemma_be2_recompose(n);
    } else if n < 0x100000000 {
        lemma_seg_byte(s, i, w, 0);
        lemma_seg_byte(s, i, w, 1);
        lemma_seg_byte(s, i, w, 2);
        lemma_seg_byte(s, i, w, 3);
        lemma_seg_byte(s, i, w, 4);
        assert(s[i] == 0x5a);
        assert(s[i + 1] == (n / 0x1000000) as u8);
        assert(s[i + 2] == (n / 0x10000 % 0x100) as u8);
        assert(s[i + 3] == (n / 0x100 % 0x100) as u8);
        assert(s[i + 4] == (n % 0x100) as u8);
        lemma_be4_recompose(n);
    } else {
        lemma_seg_byte(s, i, w, 0);
        lemma_seg_byte(s, i, w, 1);
        lemma_seg_byte(s, i, w, 2);
        lemma_seg_byte(s, i, w, 3);
        lemma_seg_byte(s, i, w, 4);
        lemma_seg_byte(s, i, w, 5);
        lemma_seg_byte(s, i, w, 6);
        lemma_seg_byte(s, i, w, 7);
        lemma_seg_byte(s, i, w, 8);
        assert(s[i] == 0x5b);
        assert(s[i + 1] == (n / 0x100000000000000) as u8);
        assert(s[i + 2] == (n / 0x1000000000000 % 0x100) as u8);
        assert(s[i + 3] == (n / 0x10000000000 % 0x100) as u8);
        assert(s[i + 4] == (n / 0x100000000 % 0x100) as u8);
        assert(s[i + 5] == (n / 0x1000000 % 0x100) as u8);
        assert(s[i + 6] == (n / 0x10000 % 0x100) as u8);
        assert(s[i + 7] == (n / 0x100 % 0x100) as u8);
        assert(s[i + 8] == (n % 0x100) as u8);
        lemma_be8_recompose(n);
    }
    assert forall|k: int| 0 <= k < n implies s.subrange(j, j + n as int)[k] == b[k] by {
        lemma_seg_byte(s, i, w, head.len() + k);
        assert(w[head.len() + k] == b[k]);
        assert(s.subrange(j, j + n as int)[k] == s[j + k]);
    }
    assert(s.subrange(j, j + n as int) =~= b);
}

/// The first byte of an encoded byte string is never a break byte.
proof fn lemma_bstr_head_not_break(b: Seq<u8>)
    requires
        b.len() < 0x10000000000000000,
    ensures
        bstr_bytes(b)[0] != 0xff,
        bstr_bytes(b).len() >= 1,
{
    let n: u64 = b.len() as u64;
    if n < 24 {
        assert(bstr_head(n)[0] == (0x40 + n) as u8);
        assert(0x40 + n < 0x58);
    }
}

/// Where a buffer holds the encoded interlink items followed by a break
/// byte, the parser reads back exactly those items.
pub proof fn lemma_parse_links_at(s: Seq<u8>, i: int, links: Seq<Seq<u8>>)
    requires
        0 <= i,
        forall|k: int| 0 <= k < links.len() ==> (#[trigger] links[k]).len() < 0x10000000000000000,
        i + interlink_items(links).len() + 1 <= s.len(),
        s.subrange(i, i + interlink_items(links).len() + 1) == interlink_items(links) + seq![
            0xffu8,
        ],
    ensures
        parse_links(s, i) == Some((links, i + interlink_items(links).len() + 1)),
    decreases links.len(),
{
    let seg = interlink_items(links) + seq![0xffu8];
    if links.len() == 0 {
        assert(interlink_items(links) == Seq::<u8>::empty());
        lemma_seg_byte(s, i, seg, 0);
        assert(s[i] == 0xff);
        assert(Seq::<Seq<u8>>::empty() =~= links);
    } else {
        let l0 = links[0];
        let tail_links = links.drop_first();
        let first = bstr_bytes(l0);
        assert(interlink_items(links) == first + interlink_items(tail_links));
        assert forall|k: int|
            0 <= k < first.len() implies s.subrange(i, i + first.len() as int)[k] == first[k] by {
            lemma_seg_byte(s, i, seg, k);
            assert(seg[k] == first[k]);
            assert(s.subrange(i, i + first.len() as int)[k] == s[i + k]);
        }
        assert(s.subrange(i, i + first.len() as int) =~= first);
        lemma_bstr_head_not_break(l0);
        lemma_seg_byte(s, i, seg, 0);
        assert(s[i] != 0xff);
        lemma_parse_bstr_at(s, i, l0);
        let j = i + first.len();
        let tail_seg = interlink_items(tail_links) + seq![0xffu8];
        assert forall|k: int|
            0 <= k < tail_seg.len() implies s.subrange(
            j,
            j + interlink_items(tail_links).len() + 1,
        )[k] == tail_seg[k] by {
            lemma_seg_byte(s, i, seg, first.len() + k);
            assert(seg[first.len() + k] == tail_seg[k]);
            assert(s.subrange(j, j + interlink_items(tail_links).len() + 1)[k] == s[j + k]);
        }
        assert(s.subrange(j, j + interlink_items(tail_links).len() + 1) =~= tail_seg);
        assert forall|k: int|
            0 <= k < tail_links.len() implies (#[trigger] tail_links[k]).len()
            < 0x10000000000000000 by {
            assert(tail_links[k] == links[k + 1]);
        }
        lemma_parse_links_at(s, j, tail_links);
        assert(seq![l0] + tail_links =~= links);
    }
}

/// Offset of the block-number field in an encoded datum.
pub open spec fn off_bn(b: BlockView, nonce: Seq<u8>) -> int {
    3 + bstr_bytes(nonce).len() as int
}

/// Offset of the current-hash field.
pub open spec fn off_hash(b: BlockView, nonce: Seq<u8>) -> int {
    off_bn(b, nonce) + uint_bytes(b.block_number as u64).len() as int
}

/// Offset of the leading-zeroes field.
pub open spec fn off_lz(b: BlockView, nonce: Seq<u8>) -> int {
    off_hash(b, nonce) + bstr_bytes(b.current_hash).len() as int
}

/// Offset of the difficulty-number field.
pub open spec fn off_dn(b: BlockView, nonce: Seq<u8>) -> int {
    off_lz(b, nonce) + uint_bytes(b.leading_zeroes as u64).len() as int
}

/// Offset of the epoch-time field.
pub open spec fn off_et(b: BlockView, nonce: Seq<u8>) -> int {
    off_dn(b, nonce) + uint_bytes(b.difficulty_number as u64).len() as int
}

/// Offset of the current-time field.
pub open spec fn off_ct(b: BlockView, nonce: Seq<u8>) -> int {
    off_et(b, nonce) + uint_bytes(b.epoch_time).len() as int
}

/// Offset of the extra field.
pub open spec fn off_extra(b: BlockView, nonce: Seq<u8>) -> int {
    off_ct(b, nonce) + uint_bytes(b.current_time).len() as int
}

/// Offset of the interlink list's opening byte.
pub open spec fn off_links(b: BlockView, nonce: Seq<u8>) -> int {
    off_extra(b, nonce) + bstr_bytes(b.extra).len() as int
}

/// Offset of the record's closing break byte.
pub open spec fn off_end(b: BlockView, nonce: Seq<u8>) -> int {
    off_links(b, nonce) + 2 + interlink_items(b.interlink).len() as int
}

/// Each segment of an encoded datum sits at its offset.
#[verifier::rlimit(100)]
proof fn lemma_datum_segments(b: BlockView, nonce: Seq<u8>)
    requires
        nonce.len() == 16,
        0 <= b.block_number <= u64::MAX,
    ensures
        datum_bytes(b, nonce).len() == off_end(b, nonce) + 1,
        datum_bytes(b, nonce)[0] == 0xd8,
        datum_bytes(b, nonce)[1] == 0x79,
        datum_bytes(b, nonce)[2] == 0x9f,
        datum_bytes(b, nonce).subrange(3, off_bn(b, nonce)) == bstr_bytes(nonce),
        datum_bytes(b, nonce).subrange(off_bn(b, nonce), off_hash(b, nonce)) == uint_bytes(
            b.block_number as u64,
        ),
        datum_bytes(b, nonce).subrange(off_hash(b, nonce), off_lz(b, nonce)) == bstr_bytes(
            b.current_hash,
        ),
        datum_bytes(b, nonce).subrange(off_lz(b, nonce), off_dn(b, nonce)) == uint_bytes(
            b.leading_zeroes as u64,
        ),
        datum_bytes(b, nonce).subrange(off_dn(b, nonce), off_et(b, nonce)) == uint_bytes(
            b.difficulty_number as u64,
        ),
        datum_bytes(b, nonce).subrange(off_et(b, nonce), off_ct(b, nonce)) == uint_bytes(
            b.epoch_time,
        ),
        datum_bytes(b, nonce).subrange(off_ct(b, nonce), off_extra(b, nonce)) == uint_bytes(
            b.current_time,
        ),
        datum_bytes(b, nonce).subrange(off_extra(b, nonce), off_links(b, nonce)) == bstr_bytes(
            b.extra,
        ),
        datum_bytes(b, nonce)[off_links(b, nonce)] == 0x9f,
        datum_bytes(b, nonce).subrange(off_links(b, nonce) + 1, off_end(b, nonce))
            == interlink_items(b.interlink) + seq![0xffu8],
        datum_bytes(b, nonce)[off_end(b, nonce)] == 0xff,
{
    let s = datum_bytes(b, nonce);
    assert(s =~= seq![0xd8u8, 0x79u8, 0x9fu8] + bstr_bytes(nonce) + uint_bytes(
        b.block_number as u64,
    ) + bstr_bytes(b.current_hash) + uint_bytes(b.leading_zeroes as u64) + uint_bytes(
        b.difficulty_number as u64,
    ) + uint_bytes(b.epoch_time) + uint_bytes(b.current_time) + bstr_bytes(b.extra) + seq![0x9fu8]
        + interlink_items(b.interlink) + seq![0xffu8] + seq![0xffu8]);
    assert(s.subrange(3, off_bn(b, nonce)) =~= bstr_bytes(nonce));
    assert(s.subrange(off_bn(b, nonce), off_hash(b, nonce)) =~= uint_bytes(b.block_number as u64));
    assert(s.subrange(off_hash(b, nonce), off_lz(b, nonce)) =~= bstr_bytes(b.current_hash));
    assert(s.subrange(off_lz(b, nonce), off_dn(b, nonce)) =~= uint_bytes(b.leading_zeroes as u64));
    assert(s.subrange(off_dn(b, nonce), off_et(b, nonce)) =~= uint_bytes(
        b.difficulty_number as u64,
    ));
    assert(s.subrange(off_et(b, nonce), off_ct(b, nonce)) =~= uint_bytes(b.epoch_time));
    assert(s.subrange(off_ct(b, nonce), off_extra(b, nonce)) =~= uint_bytes(b.current_time));
    assert(s.subrange(off_extra(b, nonce), off_links(b, nonce)) =~= bstr_bytes(b.extra));
    assert(s.subrange(off_links(b, nonce) + 1, off_end(b, nonce)) =~= interlink_items(b.interlink)
        + seq![0xffu8]);
}

/// Round-trip: parsing the encoding of a block datum yields exactly the
/// encoded fields.
#[verifier::rlimit(100)]
pub proof fn lemma_datum_roundtrip(b: BlockView, nonce: Seq<u8>)
    requires
        nonce.len() == 16,
        0 <= b.block_number <= i64::MAX,
        b.current_hash.len() < 0x10000000000000000,
        b.extra.len() < 0x10000000000000000,
        forall|k: int|
            0 <= k < b.interlink.len() ==> (#[trigger] b.interlink[k]).len()
                < 0x10000000000000000,
    ensures
        parse_datum(datum_bytes(b, nonce)) == Some(
            DatumFields {
                nonce: nonce,
                block_number: b.block_number as u64,
                current_hash: b.current_hash,
                leading_zeroes: b.leading_zeroes,
                difficulty_number: b.difficulty_number,
                epoch_time: b.epoch_time,
                current_time: b.current_time,
                extra: b.extra,
                interlink: b.interlink,
            },
        ),
{
    let s = datum_bytes(b, nonce);
    lemma_datum_segments(b, nonce);
    lemma_parse_bstr_at(s, 3, nonce);
    lemma_parse_uint_at(s, off_bn(b, nonce), b.block_number as u64);
    lemma_parse_bstr_at(s, off_hash(b, nonce), b.current_hash);
    lemma_parse_uint_at(s, off_lz(b, nonce), b.leading_zeroes as u64);
    lemma_parse_uint_at(s, off_dn(b, nonce), b.difficulty_number as u64);
    lemma_parse_uint_at(s, off_et(b, nonce), b.epoch_time);
    lemma_parse_uint_at(s, off_ct(b, nonce), b.current_time);
    lemma_parse_bstr_at(s, off_extra(b, nonce), b.extra);
    lemma_parse_links_at(s, off_links(b, nonce) + 1, b.interlink);
    assert((b.block_number as u64) <= i64::MAX as u64);
    assert(((b.leading_zeroes as u64) as u8) == b.leading_zeroes);
    assert(((b.difficulty_number as u64) as u16) == b.difficulty_number);
}

} // verus!
