use dfe_core::artifact::PersistedArtifact;
use dfe_core::engine::ReconstructionEngine;
use dfe_core::errors::CoreError;
use dfe_core::hexcode::hex_encode;
use dfe_core::keyset;
use dfe_core::keyset::PublicKeySet;
use dfe_core::pipeline::deal;
use dfe_core::shamir::ShamirShare;

fn fresh_participants(n: usize) -> (Vec<threshold_crypto::SecretKey>, Vec<Vec<u8>>) {
    let sks: Vec<threshold_crypto::SecretKey> =
        (0..n).map(|_| threshold_crypto::SecretKey::random()).collect();
    let hexes: Vec<Vec<u8>> = sks
        .iter()
        .map(|sk| hex_encode(&sk.public_key().to_bytes()))
        .collect();
    (sks, hexes)
}

fn decrypt_record(sk: &threshold_crypto::SecretKey, record: &[u8]) -> ShamirShare {
    let ct: threshold_crypto::Ciphertext = bincode::deserialize(record).unwrap();
    let blob = sk.decrypt(&ct).unwrap();
    ShamirShare::from_bytes(&blob).unwrap()
}

/// The full dealer cycle with a freshly generated key set: persist, reload,
/// decrypt any three of the five records, reconstruct, and the commitment
/// must validate.
#[test]
fn dealt_artifact_reconstructs_and_validates() {
    let (participant_sks, key_hexes) = fresh_participants(5);
    let artifact = deal(3, 5, &key_hexes).unwrap();
    assert_eq!(artifact.encrypted_shares.len(), 5);

    let persisted = artifact.serialize();
    let loaded = PersistedArtifact::deserialize(&persisted).unwrap();

    let commitment = PublicKeySet { bytes: loaded.public_key_set }.public_key().unwrap();
    let mut engine = ReconstructionEngine::new(3, commitment).unwrap();
    for i in [0usize, 2, 4] {
        let share = decrypt_record(&participant_sks[i], &loaded.encrypted_shares[i]);
        assert_eq!(share.index as usize, i + 1);
        engine.add_share(share).unwrap();
    }
    assert_eq!(engine.finalize(), Ok(true));
}

/// A different subset of the same dealing validates as well.
#[test]
fn dealt_artifact_validates_with_another_subset() {
    let (participant_sks, key_hexes) = fresh_participants(4);
    let artifact = deal(2, 4, &key_hexes).unwrap();
    let mut engine = ReconstructionEngine::new(
        2,
        PublicKeySet { bytes: artifact.public_key_set.clone() }.public_key().unwrap(),
    )
    .unwrap();
    for i in [3usize, 1] {
        let share = decrypt_record(&participant_sks[i], &artifact.encrypted_shares[i]);
        engine.add_share(share).unwrap();
    }
    assert_eq!(engine.finalize(), Ok(true));
}

#[test]
fn deal_rejects_bad_parameters() {
    let (_, key_hexes) = fresh_participants(3);
    assert_eq!(deal(0, 3, &key_hexes).err(), Some(CoreError::InvalidInput));
    assert_eq!(deal(4, 3, &key_hexes).err(), Some(CoreError::InvalidInput));
    assert_eq!(deal(2, 4, &key_hexes).err(), Some(CoreError::InvalidInput));
}

#[test]
fn deal_rejects_bad_keys() {
    let (_, mut key_hexes) = fresh_participants(3);
    key_hexes[1] = b"zz".to_vec();
    assert_eq!(deal(2, 3, &key_hexes).err(), Some(CoreError::InvalidInput));

    let (_, mut short_keys) = fresh_participants(3);
    short_keys[2] = b"abcd".to_vec();
    assert_eq!(deal(2, 3, &short_keys).err(), Some(CoreError::InvalidInput));

    let (_, mut invalid_point) = fresh_participants(3);
    invalid_point[0] = hex_encode(&[0u8; 48]);
    assert_eq!(deal(2, 3, &invalid_point).err(), Some(CoreError::InvalidPublicKey));
}

#[test]
fn generate_reveals_distinct_canonical_shares() {
    let (sks, pks) = keyset::generate(3).unwrap();
    let master = sks.reveal_share(0);
    assert_eq!(master.len(), 32);
    let first = sks.reveal_share(1);
    assert_eq!(first.len(), 32);
    // A degree-2 polynomial takes different values at 0 and 1 unless the
    // random coefficients vanish.
    assert_ne!(master, first);
    let pk = pks.public_key().unwrap();
    assert_eq!(pk.len(), 48);
}

#[test]
fn generate_zero_threshold_is_invalid() {
    assert_eq!(keyset::generate(0).err(), Some(CoreError::InvalidInput));
}

#[test]
fn public_key_of_garbage_encoding_is_corrupt() {
    let pks = PublicKeySet { bytes: vec![1, 2, 3] };
    assert_eq!(pks.public_key().err(), Some(CoreError::CorruptArtifact));
}

#[test]
fn public_key_of_empty_commitment_is_corrupt() {
    // Eight zero bytes encode a commitment with no coefficients: no public
    // key exists, and the error must come back instead of an abort.
    let empty = PublicKeySet { bytes: vec![0u8; 8] };
    assert_eq!(empty.public_key().err(), Some(CoreError::CorruptArtifact));

    let mut with_trailing = vec![0u8; 8];
    with_trailing.extend_from_slice(&[0xde, 0xad]);
    let padded = PublicKeySet { bytes: with_trailing };
    assert_eq!(padded.public_key().err(), Some(CoreError::CorruptArtifact));
}

#[test]
fn deal_reports_the_first_offending_key() {
    let (_, mut keys) = fresh_participants(3);
    keys[0] = hex_encode(&[0u8; 48]);
    keys[1] = b"zz".to_vec();
    assert_eq!(deal(2, 3, &keys).err(), Some(CoreError::InvalidPublicKey));

    let (_, mut keys) = fresh_participants(3);
    keys[0] = b"zz".to_vec();
    keys[1] = hex_encode(&[0u8; 48]);
    assert_eq!(deal(2, 3, &keys).err(), Some(CoreError::InvalidInput));
}

/// The encryption layer refuses wrong-length and invalid keys exactly.
#[test]
fn encrypt_share_rejects_bad_keys() {
    let share = ShamirShare { index: 1, value: vec![1, 2, 3] };
    let short = vec![0u8; 10];
    assert_eq!(
        dfe_core::encryptor::encrypt_share(&share, &short).err(),
        Some(CoreError::InvalidInput)
    );
    let invalid = vec![0u8; 48];
    assert_eq!(
        dfe_core::encryptor::encrypt_share(&share, &invalid).err(),
        Some(CoreError::InvalidPublicKey)
    );
}

#[test]
fn parse_participant_key_is_exact() {
    let (_, key_hexes) = fresh_participants(1);
    let parsed = dfe_core::encryptor::parse_participant_key(&key_hexes[0]).unwrap();
    assert_eq!(parsed.len(), 48);
    assert_eq!(
        dfe_core::encryptor::parse_participant_key(b"0102").err(),
        Some(CoreError::InvalidInput)
    );
    assert_eq!(
        dfe_core::encryptor::parse_participant_key(b"xy").err(),
        Some(CoreError::InvalidInput)
    );
}
