//! The dealer's generation pipeline.
//!
//! One call runs a whole generation cycle: draw a fresh threshold key set,
//! reveal the master share, split it into Shamir shares, encrypt each share
//! under the corresponding participant key, and bundle the public
//! commitment with the encrypted records into the persisted artifact.

use vstd::prelude::*;

use crate::artifact::PersistedArtifact;
use crate::encryptor;
use crate::errors::CoreError;
use crate::hexcode;
use crate::keyset;
use crate::shamir;

verus! {

/// A hex-presented participant key that decodes to 48 raw bytes.
pub open spec fn key_well_formed(key: Seq<u8>) -> bool {
    &&& hexcode::hex_valid(key)
    &&& hexcode::spec_hex_decode(key).len() == 48
}

/// A hex-presented participant key whose 48 bytes form a valid public key.
pub open spec fn key_ok(key: Seq<u8>) -> bool {
    &&& key_well_formed(key)
    &&& encryptor::pk_decode_ok(hexcode::spec_hex_decode(key))
}

/// Every participant key decodes to 48 bytes that form a valid public key.
pub open spec fn participant_keys_ok(keys: Seq<Seq<u8>>) -> bool {
    forall|i: int| 0 <= i < keys.len() ==> key_ok(#[trigger] keys[i])
}

/// Runs one generation cycle for `total` participants with recovery
/// threshold `threshold`, and succeeds exactly when the parameters and all
/// the keys are good.
///
/// Bad parameters — a zero threshold, a threshold above the total, more
/// than 255 shares, or a key count other than `total` — are `InvalidInput`.
/// With good parameters the keys are read in order and the first offending
/// one decides: a key that is not 48 bytes of hex is `InvalidInput`, one
/// that is no valid public key is `InvalidPublicKey`. On success the
/// artifact's records correspond to the participant keys by position and
/// every stored length fits the encoding's 4-byte prefixes.
pub fn deal(threshold: u8, total: usize, participant_keys_hex: &Vec<Vec<u8>>) -> (r: Result<
    PersistedArtifact,
    CoreError,
>)
    ensures
        r is Ok <==> shamir::split_ok(threshold, total, 32) && participant_keys_hex@.len() == total
            && participant_keys_ok(participant_keys_hex.deep_view()),
        !shamir::split_ok(threshold, total, 32) || participant_keys_hex@.len() != total ==> r
            == Err::<PersistedArtifact, CoreError>(CoreError::InvalidInput),
        forall|i: int|
            shamir::split_ok(threshold, total, 32) && participant_keys_hex@.len() == total && 0 <= i
                < total && (forall|j: int|
                0 <= j < i ==> key_ok(#[trigger] participant_keys_hex.deep_view()[j]))
                && !key_well_formed(#[trigger] participant_keys_hex.deep_view()[i]) ==> r == Err::<
                PersistedArtifact,
                CoreError,
            >(CoreError::InvalidInput),
        forall|i: int|
            shamir::split_ok(threshold, total, 32) && participant_keys_hex@.len() == total && 0 <= i
                < total && (forall|j: int|
                0 <= j < i ==> key_ok(#[trigger] participant_keys_hex.deep_view()[j]))
                && key_well_formed(#[trigger] participant_keys_hex.deep_view()[i]) && !key_ok(
                participant_keys_hex.deep_view()[i],
            ) ==> r == Err::<PersistedArtifact, CoreError>(CoreError::InvalidPublicKey),
        r matches Ok(a) ==> {
            &&& a.encrypted_shares@.len() == total
            &&& keyset::set_public_key_of(a.public_key_set@) is Some
            &&& a.encodable_spec()
        },
{
    if threshold < 1 || (threshold as usize) > total || total > 255 {
        return Err(CoreError::InvalidInput);
    }
    if participant_keys_hex.len() != total {
        return Err(CoreError::InvalidInput);
    }
    let (sks, pks) = match keyset::generate(threshold) {
        Ok(p) => p,
        Err(e) => {
            return Err(e);
        },
    };
    let secret = sks.reveal_share(0);
    let shares = match shamir::split(secret.as_slice(), threshold, total) {
        Ok(s) => s,
        Err(e) => {
            return Err(e);
        },
    };
    let mut records: Vec<Vec<u8>> = Vec::new();
    let mut i: usize = 0;
    while i < total
        invariant
            i <= total,
            shamir::split_ok(threshold, total, 32),
            participant_keys_hex@.len() == total,
            shares@.len() == total,
            forall|k: int|
                0 <= k < total ==> (#[trigger] shares@[k]).value@.len() == 32 && shares@[k].wf(),
            records@.len() == i,
            forall|j: int| 0 <= j < i ==> key_ok(#[trigger] participant_keys_hex.deep_view()[j]),
            forall|k: int| 0 <= k < i ==> (#[trigger] records@[k])@.len() < 0x1_0000_0000,
        decreases total - i,
    {
        let key = match encryptor::parse_participant_key(participant_keys_hex[i].as_slice()) {
            Ok(k) => k,
            Err(e) => {
                proof {
                    assert(participant_keys_hex.deep_view()[i as int] == participant_keys_hex@[
                        i as int
                    ]@);
                    assert(!key_well_formed(participant_keys_hex.deep_view()[i as int]));
                }
                return Err(e);
            },
        };
        let record = match encryptor::encrypt_share(&shares[i], &key) {
            Ok(rec) => rec,
            Err(e) => {
                proof {
                    assert(participant_keys_hex.deep_view()[i as int] == participant_keys_hex@[
                        i as int
                    ]@);
                    assert(!encryptor::pk_decode_ok(
                        hexcode::spec_hex_decode(participant_keys_hex.deep_view()[i as int]),
                    ));
                    assert(!key_ok(participant_keys_hex.deep_view()[i as int]));
                }
                return Err(e);
            },
        };
        proof {
            assert(participant_keys_hex.deep_view()[i as int] == participant_keys_hex@[i as int]@);
            assert(key_ok(participant_keys_hex.deep_view()[i as int]));
            assert(shares@[i as int].blob().len() == 33);
        }
        records.push(record);
        i = i + 1;
    }
    let bundle = PersistedArtifact { public_key_set: pks.bytes, encrypted_shares: records };
    proof {
        assert forall|k: int| 0 <= k < bundle.encrypted_shares.deep_view().len() implies (
        #[trigger] bundle.encrypted_shares.deep_view()[k]).len() < 0x1_0000_0000 by {
            assert(bundle.encrypted_shares.deep_view()[k] == bundle.encrypted_shares@[k]@);
        }
    }
    Ok(bundle)
}

} // verus!
