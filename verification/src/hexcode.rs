//! Hexadecimal encoding and decoding of byte strings.
//!
//! Shares and participant public keys cross the boundary of the library as
//! hex-encoded text; this module gives that encoding an exact meaning and
//! decides precisely which inputs decode.

use vstd::prelude::*;

use crate::errors::CoreError;

verus! {

/// The numeric value of an ASCII hex digit; 16 when the byte is no hex digit.
pub open spec fn hex_digit_value(c: u8) -> u8 {
    if 48 <= c && c <= 57 {
        (c - 48) as u8
    } else if 97 <= c && c <= 102 {
        (c - 97 + 10) as u8
    } else if 65 <= c && c <= 70 {
        (c - 65 + 10) as u8
    } else {
        16
    }
}

pub open spec fn is_hex_digit(c: u8) -> bool {
    hex_digit_value(c) < 16
}

/// A byte string is decodable hex when its length is even and every byte is
/// an ASCII hex digit, upper or lower case.
pub open spec fn hex_valid(s: Seq<u8>) -> bool {
    &&& s.len() % 2 == 0
    &&& forall|i: int| 0 <= i < s.len() ==> is_hex_digit(#[trigger] s[i])
}

/// The byte encoded by one pair of hex digits.
pub open spec fn hex_pair_value(hi: u8, lo: u8) -> u8 {
    (hex_digit_value(hi) * 16 + hex_digit_value(lo)) as u8
}

/// The bytes encoded by a decodable hex string.
pub open spec fn spec_hex_decode(s: Seq<u8>) -> Seq<u8> {
    Seq::new(s.len() / 2, |i: int| hex_pair_value(s[2 * i], s[2 * i + 1]))
}

/// The lower-case hex digit for a value below 16.
pub open spec fn hex_digit_char(v: u8) -> u8 {
    if v < 10 {
        (48 + v) as u8
    } else {
        (87 + v) as u8
    }
}

/// The lower-case hex encoding of a byte string.
pub open spec fn spec_hex_encode(b: Seq<u8>) -> Seq<u8> {
    Seq::new(
        b.len() * 2,
        |i: int|
            if i % 2 == 0 {
                hex_digit_char((b[i / 2] / 16) as u8)
            } else {
                hex_digit_char((b[i / 2] % 16) as u8)
            },
    )
}

fn hex_digit(c: u8) -> (r: u8)
    ensures
        r == hex_digit_value(c),
{
    if 48 <= c && c <= 57 {
        c - 48
    } else if 97 <= c && c <= 102 {
        c - 97 + 10
    } else if 65 <= c && c <= 70 {
        c - 65 + 10
    } else {
        16
    }
}

fn hex_char(v: u8) -> (r: u8)
    requires
        v < 16,
    ensures
        r == hex_digit_char(v),
{
    if v < 10 {
        48 + v
    } else {
        87 + v
    }
}

/// Encoding one hex digit and reading it back yields the digit's value.
proof fn lemma_hex_digit_roundtrip(v: u8)
    requires
        v < 16,
    ensures
        hex_digit_value(hex_digit_char(v)) == v,
        is_hex_digit(hex_digit_char(v)),
{
}

/// Decodes a hex byte string. Returns `Ok` exactly when the input has even
/// length and consists of ASCII hex digits; fails with `InvalidInput`
/// otherwise.
pub fn hex_decode(s: &[u8]) -> (r: Result<Vec<u8>, CoreError>)
    ensures
        r is Ok <==> hex_valid(s@),
        r matches Ok(b) ==> b@ == spec_hex_decode(s@),
        r is Err ==> r == Err::<Vec<u8>, CoreError>(CoreError::InvalidInput),
{
    if s.len() % 2 != 0 {
        return Err(CoreError::InvalidInput);
    }
    let mut out: Vec<u8> = Vec::new();
    let mut i: usize = 0;
    while i < s.len()
        invariant
            s@.len() % 2 == 0,
            i % 2 == 0,
            i <= s@.len(),
            out@.len() == i / 2,
            forall|j: int| 0 <= j < i ==> is_hex_digit(#[trigger] s@[j]),
            forall|j: int| 0 <= j < i / 2 ==> out@[j] == hex_pair_value(s@[2 * j], s@[2 * j + 1]),
        decreases s@.len() - i,
    {
        assert(i + 1 < s@.len());
        let hi: u8 = hex_digit(s[i]);
        let lo: u8 = hex_digit(s[i + 1]);
        if hi >= 16 || lo >= 16 {
            return Err(CoreError::InvalidInput);
        }
        out.push(hi * 16 + lo);
        i = i + 2;
    }
    assert(out@ =~= spec_hex_decode(s@));
    Ok(out)
}

/// Encodes bytes as lower-case hex. The result always decodes back to the
/// input.
pub fn hex_encode(b: &[u8]) -> (r: Vec<u8>)
    ensures
        r@ == spec_hex_encode(b@),
        hex_valid(r@),
        spec_hex_decode(r@) == b@,
{
    let mut out: Vec<u8> = Vec::new();
    let mut i: usize = 0;
    while i < b.len()
        invariant
            i <= b@.len(),
            out@.len() == 2 * i,
            forall|j: int| 0 <= j < 2 * i ==> out@[j] == spec_hex_encode(b@)[j],
        decreases b@.len() - i,
    {
        let hi: u8 = hex_char(b[i] / 16);
        let lo: u8 = hex_char(b[i] % 16);
        out.push(hi);
        out.push(lo);
        i = i + 1;
    }
    assert(out@ =~= spec_hex_encode(b@));
    proof {
        lemma_hex_encode_decodes(b@);
    }
    out
}

/// The hex encoding of any byte string is valid hex and decodes to it.
pub proof fn lemma_hex_encode_decodes(b: Seq<u8>)
    ensures
        hex_valid(spec_hex_encode(b)),
        spec_hex_decode(spec_hex_encode(b)) == b,
{
    let e = spec_hex_encode(b);
    assert forall|i: int| 0 <= i < e.len() implies is_hex_digit(#[trigger] e[i]) by {
        let v = if i % 2 == 0 {
            (b[i / 2] / 16) as u8
        } else {
            (b[i / 2] % 16) as u8
        };
        lemma_hex_digit_roundtrip(v);
    }
    assert forall|j: int| 0 <= j < b.len() implies spec_hex_decode(e)[j] == b[j] by {
        assert(e[2 * j] == hex_digit_char((b[j] / 16) as u8));
        assert(e[2 * j + 1] == hex_digit_char((b[j] % 16) as u8));
        lemma_hex_digit_roundtrip((b[j] / 16) as u8);
        lemma_hex_digit_roundtrip((b[j] % 16) as u8);
        assert((b[j] / 16) * 16 + (b[j] % 16) == b[j]);
    }
    assert(spec_hex_decode(e) =~= b);
}

} // verus!
