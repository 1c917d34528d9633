//! Hexadecimal encoding and decoding of byte strings.
//!
//! Nonces are submitted and returned as lowercase hex text; chain datums and
//! transaction hashes are rendered the same way. Encoding emits lowercase
//! digits; decoding accepts both cases and rejects anything that is not an
//! even-length string of hex digits.

use vstd::prelude::*;

verus! {

/// An ASCII byte that is a hex digit (either case).
pub open spec fn is_hex_digit(b: u8) -> bool {
    (48 <= b <= 57) || (97 <= b <= 102) || (65 <= b <= 70)
}

/// The value of a hex digit byte.
pub open spec fn hex_val(b: u8) -> u8
    recommends
        is_hex_digit(b),
{
    if 48 <= b <= 57 {
        (b - 48) as u8
    } else if 97 <= b <= 102 {
        (b - 87) as u8
    } else if 65 <= b <= 70 {
        (b - 55) as u8
    } else {
        0
    }
}

/// The lowercase hex digit for a nibble value.
pub open spec fn hex_char_of(v: u8) -> u8
    recommends
        v < 16,
{
    if v < 10 {
        (v + 48) as u8
    } else {
        (v + 87) as u8
    }
}

/// The lowercase hex rendering of a byte string: two digits per byte,
/// high nibble first.
pub open spec fn hex_encoding_of(b: Seq<u8>) -> Seq<u8> {
    Seq::new(
        2 * b.len(),
        |i: int|
            if i % 2 == 0 {
                hex_char_of(b[i / 2] / 16)
            } else {
                hex_char_of(b[i / 2] % 16)
            },
    )
}

/// An even-length string of hex digits.
pub open spec fn is_hex_string(s: Seq<u8>) -> bool {
    s.len() % 2 == 0 && forall|i: int| 0 <= i < s.len() ==> is_hex_digit(#[trigger] s[i])
}

/// The bytes denoted by a hex string.
pub open spec fn hex_decoding_of(s: Seq<u8>) -> Seq<u8>
    recommends
        is_hex_string(s),
{
    Seq::new(s.len() / 2, |i: int| (hex_val(s[2 * i]) * 16 + hex_val(s[2 * i + 1])) as u8)
}

/// The value of one hex digit byte, or `None` if it is not a hex digit.
pub fn hex_digit_value(b: u8) -> (r: Option<u8>)
    ensures
        r is Some <==> is_hex_digit(b),
        r is Some ==> r->0 == hex_val(b) && r->0 < 16,
{
    if 48 <= b && b <= 57 {
        Some(b - 48)
    } else if 97 <= b && b <= 102 {
        Some(b - 87)
    } else if 65 <= b && b <= 70 {
        Some(b - 55)
    } else {
        None
    }
}

/// Decodes a hex string into bytes. Returns `None` exactly when the input is
/// not an even-length string of hex digits.
pub fn hex_decode_bytes(s: &[u8]) -> (r: Option<Vec<u8>>)
    ensures
        r is Some <==> is_hex_string(s@),
        r is Some ==> r->0@ == hex_decoding_of(s@),
{
    let n = s.len();
    if n % 2 != 0 {
        return None;
    }
    let mut out: Vec<u8> = Vec::new();
    let mut i: usize = 0;
    while i < n
        invariant
            i % 2 == 0,
            0 <= i <= n,
            n == s@.len(),
            n % 2 == 0,
            out@.len() == i / 2,
            forall|j: int| 0 <= j < i ==> is_hex_digit(#[trigger] s@[j]),
            forall|k: int|
                0 <= k < i / 2 ==> #[trigger] out@[k] == (hex_val(s@[2 * k]) * 16 + hex_val(
                    s@[2 * k + 1],
                )) as u8,
        decreases n - i,
    {
        let hi = match hex_digit_value(s[i]) {
            Some(v) => v,
            None => {
                return None;
            },
        };
        let lo = match hex_digit_value(s[i + 1]) {
            Some(v) => v,
            None => {
                return None;
            },
        };
        out.push(hi * 16 + lo);
        i = i + 2;
    }
    proof {
        assert(out@ =~= hex_decoding_of(s@));
    }
    Some(out)
}

/// Encodes bytes as lowercase hex digits (as bytes).
pub fn hex_encode_bytes(b: &[u8]) -> (r: Vec<u8>)
    ensures
        r@ == hex_encoding_of(b@),
{
    let mut out: Vec<u8> = Vec::new();
    let mut i: usize = 0;
    while i < b.len()
        invariant
            0 <= i <= b@.len(),
            out@.len() == 2 * i,
            forall|j: int| 0 <= j < 2 * i ==> #[trigger] out@[j] == hex_encoding_of(b@)[j],
        decreases b@.len() - i,
    {
        let hi = b[i] / 16;
        let lo = b[i] % 16;
        let c_hi = if hi < 10 {
            hi + 48
        } else {
            hi + 87
        };
        let c_lo = if lo < 10 {
            lo + 48
        } else {
            lo + 87
        };
        out.push(c_hi);
        out.push(c_lo);
        i = i + 1;
    }
    proof {
        assert(out@ =~= hex_encoding_of(b@));
    }
    out
}

/// Relies on String::from_utf8_lossy: bytes below 128 decode one-for-one to
/// the chars of the same values.
#[verifier::external_body]
pub(crate) fn ascii_to_string(bytes: Vec<u8>) -> (r: String)
    requires
        forall|i: int| 0 <= i < bytes@.len() ==> bytes@[i] < 128,
    ensures
        r@ == bytes@.map_values(|b: u8| b as char),
{
    String::from_utf8_lossy(&bytes).into_owned()
}

/// Encodes bytes as a lowercase hex string.
pub fn hex_encode(b: &[u8]) -> (r: String)
    ensures
        r@ == hex_encoding_of(b@).map_values(|c: u8| c as char),
{
    let digits = hex_encode_bytes(b);
    assert forall|i: int| 0 <= i < digits@.len() implies digits@[i] < 128 by {
        assert(digits@[i] == hex_encoding_of(b@)[i]);
    }
    ascii_to_string(digits)
}

/// Round-trip: decoding the hex rendering of any byte string yields the
/// original bytes.
pub proof fn lemma_hex_roundtrip(b: Seq<u8>)
    ensures
        is_hex_string(hex_encoding_of(b)),
        hex_decoding_of(hex_encoding_of(b)) == b,
{
    let s = hex_encoding_of(b);
    assert forall|i: int| 0 <= i < s.len() implies is_hex_digit(#[trigger] s[i]) by {
        assert(b[i / 2] / 16 < 16 && b[i / 2] % 16 < 16);
    }
    assert forall|k: int| 0 <= k < b.len() implies hex_decoding_of(s)[k] == b[k] by {
        assert(s[2 * k] == hex_char_of(b[k] / 16));
        assert(s[2 * k + 1] == hex_char_of(b[k] % 16));
        assert(hex_val(hex_char_of(b[k] / 16)) == b[k] / 16);
        assert(hex_val(hex_char_of(b[k] % 16)) == b[k] % 16);
    }
    assert(hex_decoding_of(s) =~= b);
}

} // verus!
