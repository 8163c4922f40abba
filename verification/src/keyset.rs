//! Threshold key set generation.
//!
//! The dealer draws a random degree-(t-1) polynomial over the scalar field
//! of the threshold scheme. Its value at zero is the master share whose
//! 32-byte little-endian canonical form is the secret that the Shamir
//! splitter cuts up; the coefficient-wise public commitment is persisted so
//! that a later reconstruction can be validated against it.

use vstd::prelude::*;

use threshold_crypto::ff::PrimeField;
use threshold_crypto::ff::PrimeFieldRepr;

use crate::errors::CoreError;
use crate::scalar;

verus! {

#[verifier::external_type_specification]
#[verifier::external_body]
pub struct ExPoly(threshold_crypto::poly::Poly);

/// The public key that an encoded public key set commits to: 48 bytes when
/// the encoding decodes, nothing otherwise. A function of the encoded bytes
/// alone; nothing but the trusted wrappers of this crate says what it is on
/// any given input.
pub uninterp spec fn set_public_key_of(encoded: Seq<u8>) -> Option<Seq<u8>>;

/// The 48-byte compressed public key that the scheme derives from a scalar
/// below the field modulus. A function of the scalar alone; nothing but the
/// trusted wrappers of this crate says what it is on any given value.
pub uninterp spec fn pk_of_scalar(v: nat) -> Seq<u8>;

/// Relies on threshold_crypto's `Poly::try_random`, `Poly::evaluate`,
/// `Poly::commitment` and `PublicKeySet::from`, on ff's
/// `PrimeField::into_repr` and `PrimeFieldRepr::write_le`, and on
/// `bincode::serialize`: the master scalar is the polynomial's value at
/// zero, written canonically (hence below the modulus) as 32 little-endian
/// bytes, and the encoded public key set commits to exactly that scalar's
/// public key (its first commitment coefficient). `try_random` fails only
/// at degree `usize::MAX`, which the precondition excludes, and writing or
/// serializing into a byte vector cannot fail, so no call here can. The
/// encoding is an 8-byte coefficient count and 48 compressed bytes per
/// coefficient, which bounds its length.
#[verifier::external_body]
fn random_master(degree: usize) -> (r: (threshold_crypto::poly::Poly, Vec<u8>, Vec<u8>))
    requires
        degree < usize::MAX,
    ensures
        r.2@.len() == 32,
        scalar::le_bytes_value(r.2@) < scalar::fr_modulus(),
        set_public_key_of(r.1@) == Some(pk_of_scalar(scalar::le_bytes_value(r.2@))),
        r.1@.len() <= 8 + 48 * (degree + 1),
{
    let mut rng = rand::thread_rng();
    let poly = threshold_crypto::poly::Poly::try_random(degree, &mut rng)
        .expect("the degree is below usize::MAX");
    let pks = threshold_crypto::PublicKeySet::from(poly.commitment());
    let encoded = bincode::serialize(&pks).expect("serializing into a byte vector cannot fail");
    let mut master: Vec<u8> = Vec::new();
    poly.evaluate(0u64).into_repr().write_le(&mut master).expect(
        "writing into a byte vector cannot fail",
    );
    (poly, encoded, master)
}

/// Relies on threshold_crypto's `Poly::evaluate` and ff's
/// `PrimeField::into_repr` and `PrimeFieldRepr::write_le`: the polynomial's
/// value at the given point, written canonically (hence below the modulus)
/// as 32 little-endian bytes. Writing into a byte vector cannot fail.
#[verifier::external_body]
fn poly_evaluate_le(poly: &threshold_crypto::poly::Poly, index: u64) -> (r: Vec<u8>)
    ensures
        r@.len() == 32,
        scalar::le_bytes_value(r@) < scalar::fr_modulus(),
{
    let mut out: Vec<u8> = Vec::new();
    poly.evaluate(index).into_repr().write_le(&mut out).expect(
        "writing into a byte vector cannot fail",
    );
    out
}

/// Relies on `bincode::deserialize` and `bincode::serialized_size` for
/// threshold_crypto's `PublicKeySet`, and on its `PublicKeySet::public_key`
/// and `PublicKey::to_bytes` (`PK_SIZE` is 48): the commitment's public
/// key, a function of the encoded bytes alone. A commitment encodes as an
/// 8-byte coefficient count and 48 compressed bytes per coefficient, so
/// only the empty commitment measures 8 bytes; it has no public key
/// (`public_key` indexes the first coefficient), so its encodings yield
/// `None` rather than an out-of-bounds panic.
#[verifier::external_body]
fn decode_set_public_key(encoded: &Vec<u8>) -> (r: Option<Vec<u8>>)
    ensures
        r is Some <==> set_public_key_of(encoded@) is Some,
        r matches Some(pk) ==> Some(pk@) == set_public_key_of(encoded@) && pk@.len() == 48,
{
    let pks: threshold_crypto::PublicKeySet = match bincode::deserialize(encoded.as_slice()) {
        Ok(pks) => pks,
        Err(_) => {
            return None;
        },
    };
    if bincode::serialized_size(&pks).map_or(true, |s| s == 8) {
        return None;
    }
    Some(pks.public_key().to_bytes().to_vec())
}

/// The dealer's secret key set: a random polynomial over the scalar field,
/// the master share (its value at zero) as 32 little-endian bytes, and the
/// encoded public commitment. Owned by the dealer only; never persisted.
pub struct SecretKeySet {
    poly: threshold_crypto::poly::Poly,
    master: Vec<u8>,
    encoded_public: Vec<u8>,
    threshold: u8,
}

/// The public commitment derived from a `SecretKeySet`: an opaque canonical
/// byte encoding of the coefficient-wise public keys. This is what the
/// persisted artifact carries.
pub struct PublicKeySet {
    pub bytes: Vec<u8>,
}

impl SecretKeySet {
    /// The 32-byte master share, as revealed at index 0.
    pub closed spec fn master_view(&self) -> Seq<u8> {
        self.master@
    }

    /// The encoded public commitment.
    pub closed spec fn public_view(&self) -> Seq<u8> {
        self.encoded_public@
    }

    /// The recovery threshold the set was generated for.
    pub closed spec fn threshold_view(&self) -> u8 {
        self.threshold
    }

    /// The generation invariant: the master share is a canonical 32-byte
    /// scalar, and the encoded commitment's public key is exactly that
    /// scalar's public key.
    pub open spec fn wf(&self) -> bool {
        &&& self.master_view().len() == 32
        &&& scalar::le_bytes_value(self.master_view()) < scalar::fr_modulus()
        &&& set_public_key_of(self.public_view()) == Some(
            pk_of_scalar(scalar::le_bytes_value(self.master_view())),
        )
    }

    /// The public commitment as a value of its own, for persisting.
    pub fn public_key_set(&self) -> (r: PublicKeySet)
        ensures
            r.bytes@ == self.public_view(),
    {
        PublicKeySet { bytes: clone_bytes(&self.encoded_public) }
    }

    /// Reveals the raw 32-byte share at `index`: the polynomial's value at
    /// that point, little-endian. Index 0 is the master share that the
    /// public commitment binds; it is the secret handed to the Shamir
    /// splitter.
    pub fn reveal_share(&self, index: u64) -> (r: Vec<u8>)
        requires
            self.wf(),
        ensures
            r@.len() == 32,
            scalar::le_bytes_value(r@) < scalar::fr_modulus(),
            index == 0 ==> r@ == self.master_view(),
    {
        if index == 0 {
            clone_bytes(&self.master)
        } else {
            poly_evaluate_le(&self.poly, index)
        }
    }
}

impl PublicKeySet {
    /// The commitment's public key: 48 bytes, or `CorruptArtifact` when the
    /// encoding does not decode.
    pub fn public_key(&self) -> (r: Result<Vec<u8>, CoreError>)
        ensures
            r is Ok <==> set_public_key_of(self.bytes@) is Some,
            r matches Ok(pk) ==> Some(pk@) == set_public_key_of(self.bytes@) && pk@.len() == 48,
            r is Err ==> r == Err::<Vec<u8>, CoreError>(CoreError::CorruptArtifact),
    {
        match decode_set_public_key(&self.bytes) {
            Some(pk) => Ok(pk),
            None => Err(CoreError::CorruptArtifact),
        }
    }
}

/// A byte-for-byte copy.
fn clone_bytes(b: &Vec<u8>) -> (r: Vec<u8>)
    ensures
        r@ == b@,
{
    let mut out: Vec<u8> = Vec::new();
    let mut i: usize = 0;
    while i < b.len()
        invariant
            i <= b@.len(),
            out@ =~= b@.take(i as int),
        decreases b@.len() - i,
    {
        out.push(b[i]);
        i = i + 1;
    }
    assert(out@ =~= b@);
    out
}

/// Generates a fresh secret key set from a random degree-(threshold - 1)
/// polynomial, with its public commitment. Succeeds on every positive
/// threshold; a zero threshold is `InvalidInput`.
pub fn generate(threshold: u8) -> (r: Result<(SecretKeySet, PublicKeySet), CoreError>)
    ensures
        r is Ok <==> threshold >= 1,
        r is Err ==> r == Err::<(SecretKeySet, PublicKeySet), CoreError>(CoreError::InvalidInput),
        r matches Ok(p) ==> {
            &&& p.0.wf()
            &&& p.0.threshold_view() == threshold
            &&& p.0.public_view().len() <= 8 + 48 * (threshold as int)
            &&& p.1.bytes@ == p.0.public_view()
        },
{
    if threshold < 1 {
        return Err(CoreError::InvalidInput);
    }
    let (poly, encoded, master) = random_master((threshold - 1) as usize);
    let sks = SecretKeySet { poly, master, encoded_public: encoded, threshold };
    let pks = sks.public_key_set();
    Ok((sks, pks))
}

/// At generation time the persisted commitment's public key is exactly the
/// public key derived from the master share revealed at index 0: the
/// invariant that reconstruction later validates.
pub proof fn lemma_commitment_matches_master(sks: &SecretKeySet)
    requires
        sks.wf(),
    ensures
        set_public_key_of(sks.public_view()) == Some(
            pk_of_scalar(scalar::le_bytes_value(sks.master_view())),
        ),
{
}

} // verus!
