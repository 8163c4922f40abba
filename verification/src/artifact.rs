//! The persisted artifact and its byte encoding.
//!
//! The artifact carries the opaque canonical encoding of the public key
//! set and the ordered encrypted share records, one per participant, in
//! the order the participant keys were supplied. The byte format is
//! length-prefixed: a 4-byte little-endian length before the public key
//! set, a 4-byte record count, and a 4-byte length before each record.
//! Serialization and parsing are verified against one spec codec, and the
//! round trip is proved lossless.

use vstd::prelude::*;

use crate::errors::CoreError;

verus! {

/// A number below 2^32 as 4 little-endian bytes.
pub open spec fn encode_u32le(n: int) -> Seq<u8> {
    seq![
        (n % 256) as u8,
        ((n / 256) % 256) as u8,
        ((n / 65536) % 256) as u8,
        ((n / 16777216) % 256) as u8,
    ]
}

/// The number held by 4 little-endian bytes.
pub open spec fn decode_u32le(b: Seq<u8>) -> int {
    b[0] + 256 * b[1] + 65536 * b[2] + 16777216 * b[3]
}

/// Reading back 4 written length bytes yields the written number.
pub proof fn lemma_u32le_roundtrip(n: int)
    requires
        0 <= n < 0x1_0000_0000,
    ensures
        decode_u32le(encode_u32le(n)) == n,
{
    assert(n % 256 + 256 * ((n / 256) % 256) + 65536 * ((n / 65536) % 256) + 16777216 * ((n
        / 16777216) % 256) == n) by (nonlinear_arith)
        requires
            0 <= n < 0x1_0000_0000,
    ;
}

/// One blob: its length, then its bytes.
pub open spec fn encode_blob(b: Seq<u8>) -> Seq<u8> {
    encode_u32le(b.len() as int) + b
}

/// A blob list, blob by blob.
pub open spec fn encode_blobs(bs: Seq<Seq<u8>>) -> Seq<u8>
    decreases bs.len(),
{
    if bs.len() == 0 {
        Seq::empty()
    } else {
        encode_blob(bs[0]) + encode_blobs(bs.drop_first())
    }
}

/// The whole artifact: the public key set blob, the record count, then the
/// records.
pub open spec fn encode_artifact(pks: Seq<u8>, shares: Seq<Seq<u8>>) -> Seq<u8> {
    encode_blob(pks) + encode_u32le(shares.len() as int) + encode_blobs(shares)
}

/// Every length fits the 4-byte prefixes.
pub open spec fn encodable(pks: Seq<u8>, shares: Seq<Seq<u8>>) -> bool {
    &&& pks.len() < 0x1_0000_0000
    &&& shares.len() < 0x1_0000_0000
    &&& forall|i: int| 0 <= i < shares.len() ==> (#[trigger] shares[i]).len() < 0x1_0000_0000
}

/// Encoding one more blob appends its encoding.
pub proof fn lemma_encode_blobs_push(bs: Seq<Seq<u8>>, x: Seq<u8>)
    ensures
        encode_blobs(bs.push(x)) == encode_blobs(bs) + encode_blob(x),
    decreases bs.len(),
{
    if bs.len() == 0 {
        assert(bs.push(x)[0] == x);
        assert(bs.push(x).drop_first() =~= Seq::<Seq<u8>>::empty());
        assert(encode_blobs(Seq::<Seq<u8>>::empty()) =~= Seq::<u8>::empty());
        assert(encode_blobs(bs.push(x)) =~= encode_blob(x));
        assert(encode_blobs(bs) + encode_blob(x) =~= encode_blob(x));
    } else {
        assert(bs.push(x).drop_first() =~= bs.drop_first().push(x));
        lemma_encode_blobs_push(bs.drop_first(), x);
        assert(bs.push(x)[0] == bs[0]);
        assert(encode_blobs(bs.push(x)) == encode_blob(bs[0]) + (encode_blobs(bs.drop_first())
            + encode_blob(x)));
        assert(encode_blob(bs[0]) + (encode_blobs(bs.drop_first()) + encode_blob(x)) =~= (
        encode_blob(bs[0]) + encode_blobs(bs.drop_first())) + encode_blob(x));
    }
}

/// The exact parse of `n` length-prefixed blobs that consume the whole
/// input: `None` on any truncation or leftover.
pub open spec fn spec_decode_blobs(b: Seq<u8>, n: nat) -> Option<Seq<Seq<u8>>>
    decreases n,
{
    if n == 0 {
        if b.len() == 0 {
            Some(Seq::empty())
        } else {
            None
        }
    } else if b.len() < 4 {
        None
    } else {
        let l = decode_u32le(b.take(4));
        if b.len() - 4 < l {
            None
        } else {
            match spec_decode_blobs(b.skip(4 + l), (n - 1) as nat) {
                None => None,
                Some(rest) => Some(seq![b.subrange(4, 4 + l)] + rest),
            }
        }
    }
}

/// The exact parse of a whole artifact: the public key set blob, the
/// record count, then exactly that many records and nothing after them.
pub open spec fn spec_decode(b: Seq<u8>) -> Option<(Seq<u8>, Seq<Seq<u8>>)> {
    if b.len() < 4 {
        None
    } else {
        let lp = decode_u32le(b.take(4));
        if b.len() - 4 < lp {
            None
        } else {
            let pks = b.subrange(4, 4 + lp);
            let rest = b.skip(4 + lp);
            if rest.len() < 4 {
                None
            } else {
                let n = decode_u32le(rest.take(4));
                match spec_decode_blobs(rest.skip(4), n as nat) {
                    None => None,
                    Some(shares) => Some((pks, shares)),
                }
            }
        }
    }
}

/// Parsing an encoded blob list gives back the list.
#[verifier::rlimit(60)]
pub proof fn lemma_decode_blobs_encode(bs: Seq<Seq<u8>>)
    requires
        forall|i: int| 0 <= i < bs.len() ==> (#[trigger] bs[i]).len() < 0x1_0000_0000,
    ensures
        spec_decode_blobs(encode_blobs(bs), bs.len()) == Some(bs),
    decreases bs.len(),
{
    if bs.len() == 0 {
        assert(spec_decode_blobs(encode_blobs(bs), 0) =~= Some(Seq::<Seq<u8>>::empty()));
        assert(Seq::<Seq<u8>>::empty() =~= bs);
    } else {
        let head = bs[0];
        let e = encode_blobs(bs);
        let l = head.len() as int;
        lemma_u32le_roundtrip(l);
        assert(e =~= encode_u32le(l) + head + encode_blobs(bs.drop_first()));
        assert(e.take(4) =~= encode_u32le(l));
        assert(decode_u32le(e.take(4)) == l);
        assert(e.len() - 4 >= l);
        assert(e.subrange(4, 4 + l) =~= head);
        assert(e.skip(4 + l) =~= encode_blobs(bs.drop_first()));
        assert forall|i: int| 0 <= i < bs.drop_first().len() implies (#[trigger] bs.drop_first()[i]).len()
            < 0x1_0000_0000 by {
            assert(bs.drop_first()[i] == bs[i + 1]);
        }
        lemma_decode_blobs_encode(bs.drop_first());
        assert(spec_decode_blobs(e, bs.len()) == Some(seq![head] + bs.drop_first()));
        assert(seq![head] + bs.drop_first() =~= bs);
    }
}

/// The round trip is lossless: parsing an encoded artifact gives back
/// exactly the public key set bytes and the record list that were encoded.
pub proof fn lemma_artifact_roundtrip(pks: Seq<u8>, shares: Seq<Seq<u8>>)
    requires
        encodable(pks, shares),
    ensures
        spec_decode(encode_artifact(pks, shares)) == Some((pks, shares)),
{
    let e = encode_artifact(pks, shares);
    let lp = pks.len() as int;
    let n = shares.len() as int;
    lemma_u32le_roundtrip(lp);
    lemma_u32le_roundtrip(n);
    assert(e =~= encode_u32le(lp) + pks + encode_u32le(n) + encode_blobs(shares));
    assert(e.take(4) =~= encode_u32le(lp));
    assert(e.len() - 4 >= lp);
    assert(e.subrange(4, 4 + lp) =~= pks);
    let rest = e.skip(4 + lp);
    assert(rest =~= encode_u32le(n) + encode_blobs(shares));
    assert(rest.take(4) =~= encode_u32le(n));
    assert(rest.skip(4) =~= encode_blobs(shares));
    lemma_decode_blobs_encode(shares);
}

/// The persisted bundle: the opaque canonical encoding of the public key
/// set, and the encrypted share records in participant order. Written once
/// at generation time, read once at reconstruction time.
pub struct PersistedArtifact {
    pub public_key_set: Vec<u8>,
    pub encrypted_shares: Vec<Vec<u8>>,
}

/// Appends 4 little-endian length bytes.
fn push_u32le(out: &mut Vec<u8>, n: u32)
    ensures
        final(out)@ == old(out)@ + encode_u32le(n as int),
{
    out.push((n % 256) as u8);
    out.push((n / 256 % 256) as u8);
    out.push((n / 65536 % 256) as u8);
    out.push((n / 16777216 % 256) as u8);
    assert(final(out)@ =~= old(out)@ + encode_u32le(n as int));
}

/// Appends a byte string.
fn append_bytes(out: &mut Vec<u8>, b: &Vec<u8>)
    ensures
        final(out)@ == old(out)@ + b@,
{
    let mut i: usize = 0;
    while i < b.len()
        invariant
            i <= b@.len(),
            out@ =~= old(out)@ + b@.take(i as int),
        decreases b@.len() - i,
    {
        out.push(b[i]);
        i = i + 1;
    }
    assert(out@ =~= old(out)@ + b@);
}

/// Reads 4 little-endian length bytes.
fn read_u32le(bytes: &[u8], pos: usize) -> (r: u32)
    requires
        pos + 4 <= bytes@.len(),
    ensures
        r == decode_u32le(bytes@.subrange(pos as int, pos as int + 4)),
{
    let b0: u32 = bytes[pos] as u32;
    let b1: u32 = bytes[pos + 1] as u32;
    let b2: u32 = bytes[pos + 2] as u32;
    let b3: u32 = bytes[pos + 3] as u32;
    b0 + 256 * b1 + 65536 * b2 + 16777216 * b3
}

/// Copies `len` bytes starting at `pos`.
fn read_segment(bytes: &[u8], pos: usize, len: usize) -> (r: Vec<u8>)
    requires
        pos + len <= bytes@.len(),
    ensures
        r@ == bytes@.subrange(pos as int, pos as int + len as int),
{
    let total = bytes.len();
    let mut out: Vec<u8> = Vec::new();
    let mut i: usize = 0;
    while i < len
        invariant
            i <= len,
            pos + len <= total,
            total == bytes@.len(),
            out@ =~= bytes@.subrange(pos as int, pos as int + i as int),
        decreases len - i,
    {
        out.push(bytes[pos + i]);
        i = i + 1;
    }
    out
}

impl PersistedArtifact {
    /// Every stored length fits the 4-byte prefixes of the encoding.
    pub open spec fn encodable_spec(&self) -> bool {
        encodable(self.public_key_set@, self.encrypted_shares.deep_view())
    }

    /// Writes the artifact in its length-prefixed byte format, exactly as
    /// `encode_artifact` says.
    pub fn serialize(&self) -> (r: Vec<u8>)
        requires
            self.encodable_spec(),
        ensures
            r@ == encode_artifact(self.public_key_set@, self.encrypted_shares.deep_view()),
    {
        let mut out: Vec<u8> = Vec::new();
        push_u32le(&mut out, self.public_key_set.len() as u32);
        append_bytes(&mut out, &self.public_key_set);
        push_u32le(&mut out, self.encrypted_shares.len() as u32);
        proof {
            assert(out@ =~= encode_blob(self.public_key_set@) + encode_u32le(
                self.encrypted_shares@.len() as int,
            ) + encode_blobs(self.encrypted_shares.deep_view().take(0)));
        }
        let mut i: usize = 0;
        while i < self.encrypted_shares.len()
            invariant
                i <= self.encrypted_shares@.len(),
                self.encodable_spec(),
                out@ == encode_blob(self.public_key_set@) + encode_u32le(
                    self.encrypted_shares@.len() as int,
                ) + encode_blobs(self.encrypted_shares.deep_view().take(i as int)),
            decreases self.encrypted_shares@.len() - i,
        {
            let ghost prefix = out@;
            let ghost dv = self.encrypted_shares.deep_view();
            push_u32le(&mut out, self.encrypted_shares[i].len() as u32);
            append_bytes(&mut out, &self.encrypted_shares[i]);
            proof {
                assert(dv[i as int] == self.encrypted_shares@[i as int]@);
                assert(out@ =~= prefix + encode_blob(dv[i as int]));
                assert(dv.take(i as int).push(dv[i as int]) =~= dv.take(i as int + 1));
                lemma_encode_blobs_push(dv.take(i as int), dv[i as int]);
            }
            i = i + 1;
        }
        proof {
            let dv = self.encrypted_shares.deep_view();
            assert(dv.take(dv.len() as int) =~= dv);
        }
        out
    }

    /// Parses an artifact from its byte form, exactly as `spec_decode`
    /// says: any truncation, bad length prefix or trailing garbage is
    /// `CorruptArtifact`.
    pub fn deserialize(bytes: &[u8]) -> (r: Result<PersistedArtifact, CoreError>)
        ensures
            r is Ok <==> spec_decode(bytes@) is Some,
            r matches Ok(a) ==> Some((a.public_key_set@, a.encrypted_shares.deep_view()))
                == spec_decode(bytes@),
            r is Err ==> r == Err::<PersistedArtifact, CoreError>(CoreError::CorruptArtifact),
    {
        if bytes.len() < 4 {
            return Err(CoreError::CorruptArtifact);
        }
        let lp_u32 = read_u32le(bytes, 0);
        proof {
            assert(bytes@.subrange(0, 4) =~= bytes@.take(4));
        }
        let lp = lp_u32 as usize;
        if lp > bytes.len() - 4 {
            return Err(CoreError::CorruptArtifact);
        }
        let pks = read_segment(bytes, 4, lp);
        let after_pks: usize = 4 + lp;
        let ghost rest = bytes@.skip(after_pks as int);
        if bytes.len() - after_pks < 4 {
            proof {
                assert(rest.len() < 4);
            }
            return Err(CoreError::CorruptArtifact);
        }
        let n_u32 = read_u32le(bytes, after_pks);
        proof {
            assert(bytes@.subrange(after_pks as int, after_pks as int + 4) =~= rest.take(4));
        }
        let n = n_u32 as usize;
        let mut shares: Vec<Vec<u8>> = Vec::new();
        let mut pos: usize = after_pks + 4;
        proof {
            assert(rest.skip(4) =~= bytes@.skip(pos as int));
            let t0 = bytes@.skip(pos as int);
            match spec_decode_blobs(t0, n as nat) {
                Option::None => {
                    assert(spec_decode(bytes@) is None);
                },
                Option::Some(s) => {
                    assert(Seq::<Seq<u8>>::empty() + s =~~= s);
                    assert(spec_decode(bytes@) == Some((pks@, s)));
                },
            }
        }
        let total = bytes.len();
        let mut i: usize = 0;
        while i < n
            invariant
                i <= n,
                pos <= total,
                total == bytes@.len(),
                shares.deep_view().len() == i,
                spec_decode(bytes@) == (match spec_decode_blobs(
                    bytes@.skip(pos as int),
                    (n - i) as nat,
                ) {
                    Option::None => Option::<(Seq<u8>, Seq<Seq<u8>>)>::None,
                    Option::Some(rest_b) => Option::Some(
                        (pks@, shares.deep_view() + rest_b),
                    ),
                }),
            decreases n - i,
        {
            let ghost cur = bytes@.skip(pos as int);
            if total - pos < 4 {
                proof {
                    assert(spec_decode_blobs(cur, (n - i) as nat) is None);
                }
                return Err(CoreError::CorruptArtifact);
            }
            let l_u32 = read_u32le(bytes, pos);
            proof {
                assert(bytes@.subrange(pos as int, pos as int + 4) =~= cur.take(4));
            }
            let l = l_u32 as usize;
            if l > total - pos - 4 {
                proof {
                    assert(spec_decode_blobs(cur, (n - i) as nat) is None);
                }
                return Err(CoreError::CorruptArtifact);
            }
            let blob = read_segment(bytes, pos + 4, l);
            proof {
                assert(bytes@.subrange((pos + 4) as int, (pos + 4 + l) as int) =~= cur.subrange(
                    4,
                    4 + l as int,
                ));
            }
            let ghost old_shares_dv = shares.deep_view();
            shares.push(blob);
            let old_pos = pos;
            pos = pos + 4 + l;
            i = i + 1;
            proof {
                assert(shares.deep_view() =~~= old_shares_dv.push(blob@));
                assert(bytes@.skip(old_pos as int).skip(4 + l as int) =~= bytes@.skip(pos as int));
                assert(cur.len() >= 4 + l as int);
                if spec_decode_blobs(bytes@.skip(pos as int), (n - i) as nat) is Some {
                    let rest_b = spec_decode_blobs(bytes@.skip(pos as int), (n - i) as nat)->Some_0;
                    assert(spec_decode_blobs(cur, (n - i + 1) as nat) == Some(
                        seq![cur.subrange(4, 4 + l as int)] + rest_b,
                    ));
                    assert(old_shares_dv + (seq![blob@] + rest_b) =~~= shares.deep_view() + rest_b);
                } else {
                    assert(spec_decode_blobs(cur, (n - i + 1) as nat) is None);
                }
            }
        }
        if pos != total {
            proof {
                assert(bytes@.skip(pos as int).len() != 0);
                assert(spec_decode_blobs(bytes@.skip(pos as int), 0) is None);
            }
            return Err(CoreError::CorruptArtifact);
        }
        proof {
            assert(bytes@.skip(pos as int).len() == 0);
            assert(spec_decode_blobs(bytes@.skip(pos as int), 0) == Some(Seq::<Seq<u8>>::empty()));
            assert(shares.deep_view() + Seq::<Seq<u8>>::empty() =~~= shares.deep_view());
        }
        Ok(PersistedArtifact { public_key_set: pks, encrypted_shares: shares })
    }
}

} // verus!
