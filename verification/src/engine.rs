//! The reconstruction and validation engine.
//!
//! Decrypted shares are collected one at a time; once at least the
//! threshold many are present, finalization recovers the secret, reads it
//! as a little-endian field scalar, derives that scalar's public key and
//! compares it with the commitment stored in the persisted artifact. The
//! verdict is a plain boolean: either the rebuilt secret matches the
//! commitment or it does not.

use vstd::prelude::*;

use threshold_crypto::ff::PrimeField;
use threshold_crypto::ff::PrimeFieldRepr;

use crate::errors::CoreError;
use crate::keyset;
use crate::scalar;
use crate::shamir;
use crate::shamir::ShamirShare;

verus! {

/// The engine's three states: collecting below the threshold, ready to
/// finalize, and reconstructed (terminal, the validation has run once).
#[derive(Clone, Copy, Debug, PartialEq, Eq, Structural)]
pub enum EngineState {
    Collecting,
    Ready,
    Reconstructed,
}

/// Relies on ff's `PrimeFieldRepr::read_le` and `Fr::from_repr` — which
/// succeeds exactly when the read value lies below the field modulus — and
/// on threshold_crypto's `SecretKey::from_mut`, `SecretKey::public_key` and
/// `PublicKey::to_bytes`: the 48-byte compressed public key is a function
/// of the scalar alone.
#[verifier::external_body]
fn derive_public_key_le(le: &Vec<u8>) -> (r: Option<Vec<u8>>)
    requires
        le@.len() == 32,
    ensures
        r is Some <==> scalar::le_bytes_value(le@) < scalar::fr_modulus(),
        r matches Some(pk) ==> pk@ == keyset::pk_of_scalar(scalar::le_bytes_value(le@))
            && pk@.len() == 48,
{
    let mut repr = threshold_crypto::FrRepr::default();
    repr.read_le(le.as_slice()).ok()?;
    let mut fr = match threshold_crypto::Fr::from_repr(repr) {
        Ok(fr) => fr,
        Err(_) => {
            return None;
        },
    };
    let sk = threshold_crypto::SecretKey::from_mut(&mut fr);
    Some(sk.public_key().to_bytes().to_vec())
}

/// Byte-string equality.
fn bytes_eq(a: &[u8], b: &[u8]) -> (r: bool)
    ensures
        r == (a@ == b@),
{
    if a.len() != b.len() {
        return false;
    }
    let mut i: usize = 0;
    while i < a.len()
        invariant
            a@.len() == b@.len(),
            i <= a@.len(),
            forall|k: int| 0 <= k < i ==> a@[k] == b@[k],
        decreases a@.len() - i,
    {
        if a[i] != b[i] {
            return false;
        }
        i = i + 1;
    }
    proof {
        assert(a@ =~= b@);
    }
    true
}

/// The exact outcome of finalization for a threshold, a collected share
/// list and a stored 48-byte commitment public key: recovery of the first
/// `threshold` shares per `spec_recover`; then the recovered secret must
/// fit the field — at most 32 bytes and, read little-endian, below the
/// modulus — else `InvalidInput`; then the verdict is whether the derived
/// public key equals the stored one.
pub open spec fn spec_finalize(
    threshold: u8,
    shares: Seq<ShamirShare>,
    commitment: Seq<u8>,
) -> Result<bool, CoreError> {
    match shamir::spec_recover(threshold, shares) {
        Err(e) => Err(e),
        Ok(secret) => if secret.len() > 32 {
            Err(CoreError::InvalidInput)
        } else if scalar::le_bytes_value(secret) >= scalar::fr_modulus() {
            Err(CoreError::InvalidInput)
        } else {
            Ok(keyset::pk_of_scalar(scalar::le_bytes_value(secret)) == commitment)
        },
    }
}

/// Collects decrypted shares and validates the reconstructed secret against
/// the stored commitment.
pub struct ReconstructionEngine {
    threshold: u8,
    commitment: Vec<u8>,
    shares: Vec<ShamirShare>,
    outcome: Option<bool>,
}

impl ReconstructionEngine {
    /// The threshold the engine reconstructs toward.
    pub closed spec fn threshold_view(&self) -> u8 {
        self.threshold
    }

    /// The stored commitment public key bytes.
    pub closed spec fn commitment_view(&self) -> Seq<u8> {
        self.commitment@
    }

    /// The shares collected so far, in arrival order.
    pub closed spec fn shares_view(&self) -> Seq<ShamirShare> {
        self.shares@
    }

    /// The verdict, once finalization has run.
    pub closed spec fn outcome_view(&self) -> Option<bool> {
        self.outcome
    }

    /// The engine invariant: a positive threshold, a 48-byte commitment,
    /// and a collection of well-formed shares with pairwise distinct
    /// indices and one common value length.
    pub open spec fn wf(&self) -> bool {
        &&& self.threshold_view() >= 1
        &&& self.commitment_view().len() == 48
        &&& shamir::all_wf(self.shares_view())
        &&& !shamir::has_duplicate(self.shares_view())
        &&& shamir::consistent_lengths(self.shares_view())
    }

    /// The engine's state: terminal once an outcome exists, ready once the
    /// threshold many shares are collected, collecting before that.
    pub open spec fn state_spec(&self) -> EngineState {
        if self.outcome_view() is Some {
            EngineState::Reconstructed
        } else if self.shares_view().len() >= self.threshold_view() {
            EngineState::Ready
        } else {
            EngineState::Collecting
        }
    }

    /// Starts collecting toward `threshold` shares, to be validated against
    /// the given 48-byte commitment public key. A zero threshold or a
    /// commitment of any other length is `InvalidInput`.
    pub fn new(threshold: u8, commitment: Vec<u8>) -> (r: Result<ReconstructionEngine, CoreError>)
        ensures
            r is Ok <==> threshold >= 1 && commitment@.len() == 48,
            r is Err ==> r == Err::<ReconstructionEngine, CoreError>(CoreError::InvalidInput),
            r matches Ok(e) ==> {
                &&& e.wf()
                &&& e.threshold_view() == threshold
                &&& e.commitment_view() == commitment@
                &&& e.shares_view().len() == 0
                &&& e.outcome_view() is None
            },
    {
        if threshold < 1 || commitment.len() != 48 {
            return Err(CoreError::InvalidInput);
        }
        Ok(
            ReconstructionEngine {
                threshold,
                commitment,
                shares: Vec::new(),
                outcome: None,
            },
        )
    }

    /// The current state.
    pub fn state(&self) -> (r: EngineState)
        ensures
            r == self.state_spec(),
    {
        if self.outcome.is_some() {
            EngineState::Reconstructed
        } else if self.shares.len() >= self.threshold as usize {
            EngineState::Ready
        } else {
            EngineState::Collecting
        }
    }

    /// True when enough shares are collected and finalization has not run.
    pub fn is_ready(&self) -> (r: bool)
        ensures
            r == (self.state_spec() == EngineState::Ready),
    {
        self.outcome.is_none() && self.shares.len() >= self.threshold as usize
    }

    /// The number of shares collected so far.
    pub fn share_count(&self) -> (r: usize)
        ensures
            r == self.shares_view().len(),
    {
        self.shares.len()
    }

    /// Accepts one decrypted share while collecting. A structurally invalid
    /// share, an index already collected, or a value length inconsistent
    /// with the collected shares is `MalformedShare` and leaves the engine
    /// unchanged; after finalization every share is `InvalidInput`.
    pub fn add_share(&mut self, share: ShamirShare) -> (r: Result<(), CoreError>)
        requires
            old(self).wf(),
        ensures
            final(self).wf(),
            final(self).threshold_view() == old(self).threshold_view(),
            final(self).commitment_view() == old(self).commitment_view(),
            final(self).outcome_view() == old(self).outcome_view(),
            r is Ok <==> {
                &&& old(self).outcome_view() is None
                &&& share.wf()
                &&& !(exists|i: int|
                    0 <= i < old(self).shares_view().len() && (#[trigger] old(
                        self,
                    ).shares_view()[i]).index == share.index)
                &&& (old(self).shares_view().len() > 0 ==> share.value@.len() == old(
                    self,
                ).shares_view()[0].value@.len())
            },
            r is Ok ==> final(self).shares_view() == old(self).shares_view().push(share),
            r is Err ==> final(self).shares_view() == old(self).shares_view(),
            old(self).outcome_view() is Some ==> r == Err::<(), CoreError>(CoreError::InvalidInput),
            r is Err && old(self).outcome_view() is None ==> r == Err::<(), CoreError>(
                CoreError::MalformedShare,
            ),
    {
        if self.outcome.is_some() {
            return Err(CoreError::InvalidInput);
        }
        if share.index < 1 || share.value.len() < 1 {
            return Err(CoreError::MalformedShare);
        }
        if shamir::contains_index(&self.shares, share.index) {
            return Err(CoreError::MalformedShare);
        }
        if self.shares.len() > 0 && share.value.len() != self.shares[0].value.len() {
            return Err(CoreError::MalformedShare);
        }
        proof {
            let s = self.shares@;
            assert forall|i: int, j: int|
                0 <= i < j < s.push(share).len() implies (#[trigger] s.push(share)[i]).index != (
            #[trigger] s.push(share)[j]).index by {
                if j < s.len() {
                    assert(s.push(share)[i] == s[i]);
                    assert(s.push(share)[j] == s[j]);
                } else {
                    assert(s.push(share)[i] == s[i]);
                    assert(s.push(share)[j] == share);
                }
            }
            assert forall|i: int, j: int|
                0 <= i < s.push(share).len() && 0 <= j < s.push(share).len() implies (#[trigger] s.push(
                share,
            )[i]).value@.len() == (#[trigger] s.push(share)[j]).value@.len() by {
                if s.len() > 0 {
                    assert(s[0].value@.len() == share.value@.len());
                }
            }
        }
        self.shares.push(share);
        Ok(())
    }

    /// Runs reconstruction and validation once: recovers the secret from the
    /// first `threshold` collected shares, reads it as a little-endian field
    /// scalar, derives its public key and compares with the stored
    /// commitment, exactly as `spec_finalize` says. Recovery errors and a
    /// secret that does not fit the field leave the engine collecting; a
    /// verdict makes the engine terminal, and a second call is
    /// `InvalidInput`.
    pub fn finalize(&mut self) -> (r: Result<bool, CoreError>)
        requires
            old(self).wf(),
        ensures
            final(self).wf(),
            final(self).threshold_view() == old(self).threshold_view(),
            final(self).commitment_view() == old(self).commitment_view(),
            final(self).shares_view() == old(self).shares_view(),
            old(self).outcome_view() is Some ==> r == Err::<bool, CoreError>(
                CoreError::InvalidInput,
            ) && final(self).outcome_view() == old(self).outcome_view(),
            old(self).outcome_view() is None ==> {
                &&& (r matches Ok(v) ==> spec_finalize(
                    old(self).threshold_view(),
                    old(self).shares_view(),
                    old(self).commitment_view(),
                ) == Ok::<bool, CoreError>(v) && final(self).outcome_view() == Some(v))
                &&& (r matches Err(e) ==> spec_finalize(
                    old(self).threshold_view(),
                    old(self).shares_view(),
                    old(self).commitment_view(),
                ) == Err::<bool, CoreError>(e) && final(self).outcome_view() is None)
            },
    {
        if self.outcome.is_some() {
            return Err(CoreError::InvalidInput);
        }
        let secret = match shamir::recover(self.threshold, &self.shares) {
            Ok(s) => s,
            Err(e) => {
                return Err(e);
            },
        };
        if secret.len() > 32 {
            return Err(CoreError::InvalidInput);
        }
        let padded = scalar::pad_to_32(secret.as_slice());
        let pk = match derive_public_key_le(&padded) {
            Some(pk) => pk,
            None => {
                return Err(CoreError::InvalidInput);
            },
        };
        let valid = bytes_eq(pk.as_slice(), self.commitment.as_slice());
        self.outcome = Some(valid);
        Ok(valid)
    }
}

/// More shares never hurt: appending one more well-formed share, with a
/// fresh index and the common value length, to a collection that already
/// holds the threshold many leaves the reconstruction outcome unchanged —
/// recovery uses exactly the first `threshold` shares it collected.
pub proof fn lemma_extra_share_harmless(
    threshold: u8,
    shares: Seq<ShamirShare>,
    extra: ShamirShare,
    commitment: Seq<u8>,
)
    requires
        1 <= threshold,
        threshold <= shares.len(),
        shamir::all_wf(shares),
        !shamir::has_duplicate(shares),
        shamir::consistent_lengths(shares),
        extra.wf(),
        forall|i: int| 0 <= i < shares.len() ==> (#[trigger] shares[i]).index != extra.index,
        shares.len() > 0 ==> extra.value@.len() == shares[0].value@.len(),
    ensures
        spec_finalize(threshold, shares.push(extra), commitment) == spec_finalize(
            threshold,
            shares,
            commitment,
        ),
{
    let pushed = shares.push(extra);
    assert forall|i: int| 0 <= i < pushed.len() implies (#[trigger] pushed[i]).wf() by {
        if i < shares.len() {
            assert(pushed[i] == shares[i]);
        } else {
            assert(pushed[i] == extra);
        }
    }
    assert forall|i: int, j: int| 0 <= i < j < pushed.len() implies (#[trigger] pushed[i]).index
        != (#[trigger] pushed[j]).index by {
        assert(pushed[i] == shares[i]);
        if j < shares.len() {
            assert(pushed[j] == shares[j]);
        } else {
            assert(pushed[j] == extra);
        }
    }
    assert forall|i: int, j: int|
        0 <= i < pushed.len() && 0 <= j < pushed.len() implies (#[trigger] pushed[i]).value@.len()
        == (#[trigger] pushed[j]).value@.len() by {
        assert(shares.len() > 0);
        if i < shares.len() {
            assert(pushed[i] == shares[i]);
        } else {
            assert(pushed[i] == extra);
        }
        if j < shares.len() {
            assert(pushed[j] == shares[j]);
        } else {
            assert(pushed[j] == extra);
        }
        assert(pushed[i].value@.len() == shares[0].value@.len());
        assert(pushed[j].value@.len() == shares[0].value@.len());
    }
    assert(pushed.take(threshold as int) =~= shares.take(threshold as int));
}

/// A faithful reconstruction validates: when the collected shares are
/// drawn, with distinct indices, from a dealing of a secret that fits the
/// field and whose public key is the stored commitment, finalization
/// yields `true`.
pub proof fn lemma_genuine_shares_validate(
    threshold: u8,
    shares: Seq<ShamirShare>,
    dealt: Seq<Seq<u8>>,
    secret: Seq<u8>,
    commitment: Seq<u8>,
)
    requires
        shamir::is_dealing(threshold, secret, dealt),
        1 <= threshold,
        threshold <= shares.len(),
        shamir::all_wf(shares),
        !shamir::has_duplicate(shares),
        shamir::consistent_lengths(shares),
        forall|i: int| 0 <= i < shares.len() ==> dealt.contains((#[trigger] shares[i]).blob()),
        secret.len() <= 32,
        scalar::le_bytes_value(secret) < scalar::fr_modulus(),
        commitment == keyset::pk_of_scalar(scalar::le_bytes_value(secret)),
    ensures
        spec_finalize(threshold, shares, commitment) == Ok::<bool, CoreError>(true),
{
    shamir::lemma_split_then_recover(threshold, secret, dealt, shares);
}

/// A mismatch is a verdict, not a failure: whenever recovery succeeds and
/// the secret fits the field, finalization returns the boolean comparison
/// of the derived public key with the stored one — `false` on a mismatch,
/// never an error.
pub proof fn lemma_mismatch_reports_false(
    threshold: u8,
    shares: Seq<ShamirShare>,
    secret: Seq<u8>,
    commitment: Seq<u8>,
)
    requires
        shamir::spec_recover(threshold, shares) == Ok::<Seq<u8>, CoreError>(secret),
        secret.len() <= 32,
        scalar::le_bytes_value(secret) < scalar::fr_modulus(),
        commitment != keyset::pk_of_scalar(scalar::le_bytes_value(secret)),
    ensures
        spec_finalize(threshold, shares, commitment) == Ok::<bool, CoreError>(false),
{
}

/// Reconstruction is deterministic: two runs over the same threshold, the
/// same collected shares and the same stored commitment yield the same
/// outcome — in particular, the same boolean verdict both times.
pub proof fn lemma_reconstruction_idempotent(
    threshold: u8,
    shares: Seq<ShamirShare>,
    commitment: Seq<u8>,
    r1: Result<bool, CoreError>,
    r2: Result<bool, CoreError>,
)
    requires
        r1 == spec_finalize(threshold, shares, commitment),
        r2 == spec_finalize(threshold, shares, commitment),
    ensures
        r1 == r2,
{
}

} // verus!
