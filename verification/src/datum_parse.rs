//! Decoding of the on-chain block datum.
//!
//! The parser reads the fixed-order tagged record described in the encoder
//! module and rejects anything that does not match the expected shape: wrong
//! tag, wrong field order or type, a nonce field that is not 16 bytes, field
//! values out of range, or trailing bytes.

use vstd::prelude::*;

verus! {

/// Big-endian value of two bytes at `i`.
pub open spec fn be_val2(s: Seq<u8>, i: int) -> int {
    s[i] * 0x100 + s[i + 1]
}

/// Big-endian value of four bytes at `i`.
pub open spec fn be_val4(s: Seq<u8>, i: int) -> int {
    s[i] * 0x1000000 + s[i + 1] * 0x10000 + s[i + 2] * 0x100 + s[i + 3]
}

/// Big-endian value of eight bytes at `i`.
pub open spec fn be_val8(s: Seq<u8>, i: int) -> int {
    s[i] * 0x100000000000000 + s[i + 1] * 0x1000000000000 + s[i + 2] * 0x10000000000 + s[i + 3]
        * 0x100000000 + s[i + 4] * 0x1000000 + s[i + 5] * 0x10000 + s[i + 6] * 0x100 + s[i + 7]
}

/// Parses an unsigned integer at `i`: the value and the index after it.
pub open spec fn parse_uint(s: Seq<u8>, i: int) -> Option<(u64, int)> {
    if !(0 <= i < s.len()) {
        None
    } else {
        let h = s[i];
        if h < 24 {
            Some((h as u64, i + 1))
        } else if h == 0x18 {
            if i + 2 <= s.len() {
                Some((s[i + 1] as u64, i + 2))
            } else {
                None
            }
        } else if h == 0x19 {
            if i + 3 <= s.len() {
                Some((be_val2(s, i + 1) as u64, i + 3))
            } else {
                None
            }
        } else if h == 0x1a {
            if i + 5 <= s.len() {
                Some((be_val4(s, i + 1) as u64, i + 5))
            } else {
                None
            }
        } else if h == 0x1b {
            if i + 9 <= s.len() {
                Some((be_val8(s, i + 1) as u64, i + 9))
            } else {
                None
            }
        } else {
            None
        }
    }
}

/// Parses a definite-length byte string at `i`: its content and the index
/// after it.
pub open spec fn parse_bstr(s: Seq<u8>, i: int) -> Option<(Seq<u8>, int)> {
    if !(0 <= i < s.len()) {
        None
    } else {
        let h = s[i];
        let head = if 0x40 <= h <= 0x57 {
            Some(((h - 0x40) as int, i + 1))
        } else if h == 0x58 {
            if i + 2 <= s.len() {
                Some((s[i + 1] as int, i + 2))
            } else {
                None
            }
        } else if h == 0x59 {
            if i + 3 <= s.len() {
                Some((be_val2(s, i + 1), i + 3))
            } else {
                None
            }
        } else if h == 0x5a {
            if i + 5 <= s.len() {
                Some((be_val4(s, i + 1), i + 5))
            } else {
                None
            }
        } else if h == 0x5b {
            if i + 9 <= s.len() {
                Some((be_val8(s, i + 1), i + 9))
            } else {
                None
            }
        } else {
            None
        };
        match head {
            None => None,
            Some((len, j)) => if j + len <= s.len() {
                Some((s.subrange(j, j + len), j + len))
            } else {
                None
            },
        }
    }
}

/// Parses byte strings at `i` until a break byte: the items and the index
/// after the break.
pub open spec fn parse_links(s: Seq<u8>, i: int) -> Option<(Seq<Seq<u8>>, int)>
    decreases s.len() - i,
{
    if !(0 <= i < s.len()) {
        None
    } else if s[i] == 0xff {
        Some((Seq::empty(), i + 1))
    } else {
        match parse_bstr(s, i) {
            None => None,
            Some((b, j)) => if i < j <= s.len() {
                match parse_links(s, j) {
                    None => None,
                    Some((rest, k)) => Some((seq![b] + rest, k)),
                }
            } else {
                None
            },
        }
    }
}

/// The fields of a decoded block datum, as plain mathematical values.
#[verifier::ext_equal]
pub ghost struct DatumFields {
    pub nonce: Seq<u8>,
    pub block_number: u64,
    pub current_hash: Seq<u8>,
    pub leading_zeroes: u8,
    pub difficulty_number: u16,
    pub epoch_time: u64,
    pub current_time: u64,
    pub extra: Seq<u8>,
    pub interlink: Seq<Seq<u8>>,
}

/// Parses a whole block datum, rejecting records that do not match the
/// expected shape: tag 121 over an indefinite array, a 16-byte nonce, the
/// seven remaining fields in order, and no trailing bytes.
pub open spec fn parse_datum(s: Seq<u8>) -> Option<DatumFields> {
    if s.len() < 3 || s[0] != 0xd8 || s[1] != 0x79 || s[2] != 0x9f {
        None
    } else {
        match parse_bstr(s, 3) {
            None => None,
            Some((nonce, i1)) => if nonce.len() != 16 {
                None
            } else {
                match parse_uint(s, i1) {
                    None => None,
                    Some((bn, i2)) => if bn > i64::MAX as u64 {
                        None
                    } else {
                        match parse_bstr(s, i2) {
                            None => None,
                            Some((hash, i3)) => match parse_uint(s, i3) {
                                None => None,
                                Some((lz, i4)) => if lz > 255 {
                                    None
                                } else {
                                    match parse_uint(s, i4) {
                                        None => None,
                                        Some((dn, i5)) => if dn > 65535 {
                                            None
                                        } else {
                                            match parse_uint(s, i5) {
                                                None => None,
                                                Some((et, i6)) => match parse_uint(s, i6) {
                                                    None => None,
                                                    Some((ct, i7)) => match parse_bstr(s, i7) {
                                                        None => None,
                                                        Some((extra, i8)) => if !(i8 < s.len()
                                                            && s[i8] == 0x9f) {
                                                            None
                                                        } else {
                                                            match parse_links(s, i8 + 1) {
                                                                None => None,
                                                                Some((links, i9)) => if i9
                                                                    < s.len() && s[i9] == 0xff && i9
                                                                    + 1 == s.len() {
                                                                    Some(
                                                                        DatumFields {
                                                                            nonce,
                                                                            block_number: bn,
                                                                            current_hash: hash,
                                                                            leading_zeroes: lz as u8,
                                                                            difficulty_number: dn as u16,
                                                                            epoch_time: et,
                                                                            current_time: ct,
                                                                            extra,
                                                                            interlink: links,
                                                                        },
                                                                    )
                                                                } else {
                                                                    None
                                                                },
                                                            }
                                                        },
                                                    },
                                                },
                                            }
                                        },
                                    }
                                },
                            },
                        }
                    },
                }
            },
        }
    }
}

/// A decoded block datum, ready to be joined with the provenance of the
/// transaction output it was observed in.
#[derive(Debug)]
pub struct DecodedDatum {
    pub nonce: Vec<u8>,
    pub block_number: i64,
    pub current_hash: Vec<u8>,
    pub leading_zeroes: u8,
    pub difficulty_number: u16,
    pub epoch_time: u64,
    pub current_time: u64,
    pub extra: Vec<u8>,
    pub interlink: Vec<Vec<u8>>,
}

impl View for DecodedDatum {
    type V = DatumFields;

    open spec fn view(&self) -> DatumFields {
        DatumFields {
            nonce: self.nonce@,
            block_number: self.block_number as u64,
            current_hash: self.current_hash@,
            leading_zeroes: self.leading_zeroes,
            difficulty_number: self.difficulty_number,
            epoch_time: self.epoch_time,
            current_time: self.current_time,
            extra: self.extra@,
            interlink: self.interlink.deep_view(),
        }
    }
}

/// Reads an unsigned integer at `i`.
fn read_uint(s: &[u8], i: usize) -> (r: Option<(u64, usize)>)
    ensures
        match r {
            Some(p) => parse_uint(s@, i as int) == Some((p.0, p.1 as int)) && i < p.1 <= s@.len(),
            None => parse_uint(s@, i as int) is None,
        },
{
    if i >= s.len() {
        return None;
    }
    let h = s[i];
    if h < 24 {
        Some((h as u64, i + 1))
    } else if h == 0x18 {
        if s.len() - i >= 2 {
            Some((s[i + 1] as u64, i + 2))
        } else {
            None
        }
    } else if h == 0x19 {
        if s.len() - i >= 3 {
            Some(((s[i + 1] as u64) * 0x100 + (s[i + 2] as u64), i + 3))
        } else {
            None
        }
    } else if h == 0x1a {
        if s.len() - i >= 5 {
            Some(
                (
                    (s[i + 1] as u64) * 0x1000000 + (s[i + 2] as u64) * 0x10000 + (s[i
                        + 3] as u64) * 0x100 + (s[i + 4] as u64),
                    i + 5,
                ),
            )
        } else {
            None
        }
    } else if h == 0x1b {
        if s.len() - i >= 9 {
            Some(
                (
                    (s[i + 1] as u64) * 0x100000000000000 + (s[i + 2] as u64) * 0x1000000000000 + (
                    s[i + 3] as u64) * 0x10000000000 + (s[i + 4] as u64) * 0x100000000 + (s[i
                        + 5] as u64) * 0x1000000 + (s[i + 6] as u64) * 0x10000 + (s[i + 7] as u64)
                        * 0x100 + (s[i + 8] as u64),
                    i + 9,
                ),
            )
        } else {
            None
        }
    } else {
        None
    }
}

/// Reads a definite-length byte string at `i`.
#[verifier::rlimit(50)]
fn read_bstr(s: &[u8], i: usize) -> (r: Option<(Vec<u8>, usize)>)
    ensures
        match r {
            Some(p) => parse_bstr(s@, i as int) == Some((p.0@, p.1 as int)) && i < p.1 <= s@.len(),
            None => parse_bstr(s@, i as int) is None,
        },
{
    if i >= s.len() {
        return None;
    }
    let h = s[i];
    let head: Option<(u64, usize)> = if 0x40 <= h && h <= 0x57 {
        Some(((h - 0x40) as u64, i + 1))
    } else if h == 0x58 {
        if s.len() - i >= 2 {
            Some((s[i + 1] as u64, i + 2))
        } else {
            None
        }
    } else if h == 0x59 {
        if s.len() - i >= 3 {
            Some(((s[i + 1] as u64) * 0x100 + (s[i + 2] as u64), i + 3))
        } else {
            None
        }
    } else if h == 0x5a {
        if s.len() - i >= 5 {
            Some(
                (
                    (s[i + 1] as u64) * 0x1000000 + (s[i + 2] as u64) * 0x10000 + (s[i
                        + 3] as u64) * 0x100 + (s[i + 4] as u64),
                    i + 5,
                ),
            )
        } else {
            None
        }
    } else if h == 0x5b {
        if s.len() - i >= 9 {
            Some(
                (
                    (s[i + 1] as u64) * 0x100000000000000 + (s[i + 2] as u64) * 0x1000000000000 + (
                    s[i + 3] as u64) * 0x10000000000 + (s[i + 4] as u64) * 0x100000000 + (s[i
                        + 5] as u64) * 0x1000000 + (s[i + 6] as u64) * 0x10000 + (s[i + 7] as u64)
                        * 0x100 + (s[i + 8] as u64),
                    i + 9,
                ),
            )
        } else {
            None
        }
    } else {
        None
    };
    match head {
        None => None,
        Some((len, j)) => {
            if len <= (s.len() - j) as u64 {
                let end = j + len as usize;
                let content = vstd::slice::slice_subrange(s, j, end);
                let out = vstd::slice::slice_to_vec(content);
                Some((out, end))
            } else {
                None
            }
        },
    }
}

/// Reads byte strings at `i` until a break byte.
fn read_links(s: &[u8], i: usize) -> (r: Option<(Vec<Vec<u8>>, usize)>)
    ensures
        match r {
            Some(p) => parse_links(s@, i as int) == Some((p.0.deep_view(), p.1 as int)) && i < p.1
                <= s@.len(),
            None => parse_links(s@, i as int) is None,
        },
{
    let ghost start = i as int;
    let n = s.len();
    if i >= n {
        return None;
    }
    let mut items: Vec<Vec<u8>> = Vec::new();
    let mut cur: usize = i;
    proof {
        if parse_links(s@, start) is Some {
            let p = parse_links(s@, start)->0;
            assert(items.deep_view() + p.0 =~= p.0);
        }
    }
    loop
        invariant
            start == i as int,
            n == s@.len(),
            i <= cur <= n,
            match parse_links(s@, cur as int) {
                Some(p) => parse_links(s@, start) == Some((items.deep_view() + p.0, p.1)),
                None => parse_links(s@, start) is None,
            },
        ensures
            n == s@.len(),
            cur < n,
            s@[cur as int] == 0xff,
            parse_links(s@, start) == Some((items.deep_view(), cur + 1)),
        decreases s@.len() - cur,
    {
        if cur >= n {
            proof {
                assert(parse_links(s@, cur as int) is None);
            }
            return None;
        }
        if s[cur] == 0xff {
            proof {
                assert(parse_links(s@, cur as int) == Some((Seq::<Seq<u8>>::empty(), cur + 1)));
                assert(items.deep_view() + Seq::<Seq<u8>>::empty() =~= items.deep_view());
            }
            break;
        }
        let next = match read_bstr(s, cur) {
            Some(p) => p,
            None => {
                proof {
                    assert(parse_links(s@, cur as int) is None);
                }
                return None;
            },
        };
        let (b, j) = next;
        let ghost prev_items = items.deep_view();
        items.push(b);
        proof {
            assert(items.deep_view() =~~= prev_items + seq![b@]);
            if parse_links(s@, j as int) is Some {
                let p = parse_links(s@, j as int)->0;
                let rest = p.0;
                let end = p.1;
                assert(parse_links(s@, cur as int) == Some((seq![b@] + rest, end)));
                assert(prev_items + (seq![b@] + rest) =~= items.deep_view() + rest);
            } else {
                assert(parse_links(s@, cur as int) is None);
            }
        }
        cur = j;
    }
    Some((items, cur + 1))
}

impl DecodedDatum {
    /// Joins decoded fields with the provenance of the transaction output
    /// they were observed in, yielding a `Block` snapshot.
    pub fn into_block(self, transaction_id: String, output_index: i64) -> (r: crate::block::Block)
        requires
            self.block_number >= 0,
        ensures
            r@.block_number == self@.block_number,
            r@.current_hash == self@.current_hash,
            r@.leading_zeroes == self@.leading_zeroes,
            r@.difficulty_number == self@.difficulty_number,
            r@.epoch_time == self@.epoch_time,
            r@.current_time == self@.current_time,
            r@.extra == self@.extra,
            r@.interlink == self@.interlink,
            r@.transaction_id == transaction_id@,
            r@.output_index == output_index,
    {
        crate::block::Block {
            block_number: self.block_number,
            current_hash: self.current_hash,
            leading_zeroes: self.leading_zeroes,
            difficulty_number: self.difficulty_number,
            epoch_time: self.epoch_time,
            current_time: self.current_time,
            extra: self.extra,
            interlink: self.interlink,
            output_index,
            transaction_id,
        }
    }
}

/// Decodes a block datum from its bytes. Returns `None` exactly when the
/// bytes do not hold a record of the expected shape.
pub fn decode_block_datum(s: &[u8]) -> (r: Option<DecodedDatum>)
    ensures
        match r {
            Some(d) => parse_datum(s@) == Some(d@) && d.block_number >= 0,
            None => parse_datum(s@) is None,
        },
{
    if s.len() < 3 || s[0] != 0xd8 || s[1] != 0x79 || s[2] != 0x9f {
        return None;
    }
    let (nonce, i1) = match read_bstr(s, 3) {
        Some(p) => p,
        None => {
            return None;
        },
    };
    if nonce.len() != 16 {
        return None;
    }
    let (bn, i2) = match read_uint(s, i1) {
        Some(p) => p,
        None => {
            return None;
        },
    };
    if bn > i64::MAX as u64 {
        return None;
    }
    let (hash, i3) = match read_bstr(s, i2) {
        Some(p) => p,
        None => {
            return None;
        },
    };
    let (lz, i4) = match read_uint(s, i3) {
        Some(p) => p,
        None => {
            return None;
        },
    };
    if lz > 255 {
        return None;
    }
    let (dn, i5) = match read_uint(s, i4) {
        Some(p) => p,
        None => {
            return None;
        },
    };
    if dn > 65535 {
        return None;
    }
    let (et, i6) = match read_uint(s, i5) {
        Some(p) => p,
        None => {
            return None;
        },
    };
    let (ct, i7) = match read_uint(s, i6) {
        Some(p) => p,
        None => {
            return None;
        },
    };
    let (extra, i8) = match read_bstr(s, i7) {
        Some(p) => p,
        None => {
            return None;
        },
    };
    if !(i8 < s.len() && s[i8] == 0x9f) {
        return None;
    }
    let (links, i9) = match read_links(s, i8 + 1) {
        Some(p) => p,
        None => {
            return None;
        },
    };
    if !(i9 < s.len() && s[i9] == 0xff && i9 + 1 == s.len()) {
        return None;
    }
    Some(
        DecodedDatum {
            nonce,
            block_number: bn as i64,
            current_hash: hash,
            leading_zeroes: lz as u8,
            difficulty_number: dn as u16,
            epoch_time: et,
            current_time: ct,
            extra,
            interlink: links,
        },
    )
}

} // verus!
