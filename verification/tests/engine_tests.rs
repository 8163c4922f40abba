use threshold_crypto::ff::PrimeField;

use dfe_core::artifact::PersistedArtifact;
use dfe_core::encryptor::encrypt_share;
use dfe_core::engine::EngineState;
use dfe_core::engine::ReconstructionEngine;
use dfe_core::errors::CoreError;
use dfe_core::keyset::PublicKeySet;
use dfe_core::shamir::split;
use dfe_core::shamir::ShamirShare;

/// The commitment that binds the little-endian scalar of `secret`: a
/// constant polynomial with that master value, committed and encoded the
/// way the library's generator encodes it.
fn commitment_bytes_for(secret_le_u64: u64) -> Vec<u8> {
    let repr = threshold_crypto::FrRepr([secret_le_u64, 0, 0, 0]);
    let fr = threshold_crypto::Fr::from_repr(repr).unwrap();
    let poly = threshold_crypto::poly::Poly::constant(fr);
    let pks = threshold_crypto::PublicKeySet::from(poly.commitment());
    bincode::serialize(&pks).unwrap()
}

fn decrypt_record(sk: &threshold_crypto::SecretKey, record: &[u8]) -> ShamirShare {
    let ct: threshold_crypto::Ciphertext = bincode::deserialize(record).unwrap();
    let blob = sk.decrypt(&ct).unwrap();
    ShamirShare::from_bytes(&blob).unwrap()
}

/// End to end: threshold 3 of 5, secret share bytes [1, 2, 3, 4]; five
/// shares encrypted under five distinct participant keys, the bundle
/// persisted and reloaded, any three shares decrypted and fed to the
/// engine; the reconstruction must validate.
#[test]
fn end_to_end_three_of_five_validates() {
    let secret = [0x01u8, 0x02, 0x03, 0x04];
    let shares = split(&secret, 3, 5).unwrap();

    let participant_keys: Vec<threshold_crypto::SecretKey> =
        (0..5).map(|_| threshold_crypto::SecretKey::random()).collect();
    let mut records: Vec<Vec<u8>> = Vec::new();
    for (share, sk) in shares.iter().zip(participant_keys.iter()) {
        let pk_bytes = sk.public_key().to_bytes().to_vec();
        records.push(encrypt_share(share, &pk_bytes).unwrap());
    }

    let artifact = PersistedArtifact {
        // [1, 2, 3, 4] read little-endian is 0x04030201.
        public_key_set: commitment_bytes_for(0x0403_0201),
        encrypted_shares: records,
    };
    let persisted = artifact.serialize();

    let loaded = PersistedArtifact::deserialize(&persisted).unwrap();
    let commitment = PublicKeySet { bytes: loaded.public_key_set }.public_key().unwrap();
    assert_eq!(commitment.len(), 48);

    let mut engine = ReconstructionEngine::new(3, commitment).unwrap();
    assert_eq!(engine.state(), EngineState::Collecting);
    for i in [4usize, 1, 3] {
        let share = decrypt_record(&participant_keys[i], &loaded.encrypted_shares[i]);
        engine.add_share(share).unwrap();
    }
    assert_eq!(engine.state(), EngineState::Ready);
    assert!(engine.is_ready());
    assert_eq!(engine.finalize(), Ok(true));
    assert_eq!(engine.state(), EngineState::Reconstructed);
}

/// Corruption: one flipped byte in one of the three submitted shares makes
/// validation report false, not crash.
#[test]
fn corrupted_share_fails_validation() {
    let secret = [0x01u8, 0x02, 0x03, 0x04];
    let shares = split(&secret, 3, 5).unwrap();
    let commitment_encoded = commitment_bytes_for(0x0403_0201);
    let commitment = PublicKeySet { bytes: commitment_encoded }.public_key().unwrap();

    let mut engine = ReconstructionEngine::new(3, commitment).unwrap();
    let mut corrupted = shares[0].clone();
    corrupted.value[1] ^= 0x40;
    engine.add_share(corrupted).unwrap();
    engine.add_share(shares[1].clone()).unwrap();
    engine.add_share(shares[2].clone()).unwrap();
    assert_eq!(engine.finalize(), Ok(false));
    assert_eq!(engine.state(), EngineState::Reconstructed);
}

/// Idempotence: two runs over the same three shares and the same stored
/// commitment give the same boolean verdict.
#[test]
fn reconstruction_is_idempotent() {
    let secret = [0x10u8, 0x20, 0x30];
    let shares = split(&secret, 3, 4).unwrap();
    let commitment_encoded = commitment_bytes_for(0x0030_2010);
    let commitment = PublicKeySet { bytes: commitment_encoded }.public_key().unwrap();

    let mut verdicts: Vec<bool> = Vec::new();
    for _ in 0..2 {
        let mut engine = ReconstructionEngine::new(3, commitment.clone()).unwrap();
        for s in shares.iter().take(3) {
            engine.add_share(s.clone()).unwrap();
        }
        verdicts.push(engine.finalize().unwrap());
    }
    assert_eq!(verdicts[0], verdicts[1]);
    assert!(verdicts[0]);
}

/// The engine is terminal after one finalization.
#[test]
fn finalize_runs_exactly_once() {
    let secret = [9u8, 9];
    let shares = split(&secret, 2, 2).unwrap();
    let commitment = vec![0u8; 48];
    let mut engine = ReconstructionEngine::new(2, commitment).unwrap();
    for s in shares {
        engine.add_share(s).unwrap();
    }
    let first = engine.finalize().unwrap();
    assert!(!first);
    assert_eq!(engine.finalize(), Err(CoreError::InvalidInput));
    let extra = ShamirShare { index: 77, value: vec![1, 1] };
    assert_eq!(engine.add_share(extra), Err(CoreError::InvalidInput));
}

/// Threshold boundary at the engine: two of three shares are not enough,
/// and the engine keeps collecting.
#[test]
fn finalize_below_threshold_is_insufficient() {
    let secret = [5u8, 6, 7];
    let shares = split(&secret, 3, 3).unwrap();
    let mut engine = ReconstructionEngine::new(3, vec![0u8; 48]).unwrap();
    engine.add_share(shares[0].clone()).unwrap();
    engine.add_share(shares[1].clone()).unwrap();
    assert_eq!(engine.finalize(), Err(CoreError::InsufficientShares));
    assert_eq!(engine.state(), EngineState::Collecting);
    assert_eq!(engine.share_count(), 2);
}

/// Duplicate indices are rejected at the door, never merged.
#[test]
fn duplicate_share_is_rejected() {
    let secret = [1u8, 2];
    let shares = split(&secret, 2, 3).unwrap();
    let mut engine = ReconstructionEngine::new(2, vec![0u8; 48]).unwrap();
    engine.add_share(shares[0].clone()).unwrap();
    assert_eq!(engine.add_share(shares[0].clone()), Err(CoreError::MalformedShare));
    assert_eq!(engine.share_count(), 1);
}

/// Structurally bad shares are rejected at the door.
#[test]
fn malformed_shares_are_rejected() {
    let mut engine = ReconstructionEngine::new(2, vec![0u8; 48]).unwrap();
    let zero_index = ShamirShare { index: 0, value: vec![1] };
    assert_eq!(engine.add_share(zero_index), Err(CoreError::MalformedShare));
    let empty_value = ShamirShare { index: 1, value: Vec::new() };
    assert_eq!(engine.add_share(empty_value), Err(CoreError::MalformedShare));
    engine.add_share(ShamirShare { index: 1, value: vec![1, 2] }).unwrap();
    let short = ShamirShare { index: 2, value: vec![3] };
    assert_eq!(engine.add_share(short), Err(CoreError::MalformedShare));
}

#[test]
fn engine_rejects_bad_construction() {
    assert_eq!(
        ReconstructionEngine::new(0, vec![0u8; 48]).err(),
        Some(CoreError::InvalidInput)
    );
    assert_eq!(
        ReconstructionEngine::new(2, vec![0u8; 47]).err(),
        Some(CoreError::InvalidInput)
    );
}

/// A recovered secret longer than 32 bytes cannot be read as one field
/// scalar and is rejected explicitly rather than silently reduced.
#[test]
fn oversized_secret_is_rejected() {
    let secret = [0xabu8; 33];
    let shares = split(&secret, 2, 2).unwrap();
    let mut engine = ReconstructionEngine::new(2, vec![0u8; 48]).unwrap();
    for s in shares {
        engine.add_share(s).unwrap();
    }
    assert_eq!(engine.finalize(), Err(CoreError::InvalidInput));
}
