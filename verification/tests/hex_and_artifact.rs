use dfe_core::artifact::PersistedArtifact;
use dfe_core::errors::CoreError;
use dfe_core::hexcode::hex_decode;
use dfe_core::hexcode::hex_encode;

#[test]
fn hex_encode_exact_value() {
    let out = hex_encode(&[0x0f, 0xa0, 0x00, 0xff]);
    assert_eq!(out, b"0fa000ff".to_vec());
}

#[test]
fn hex_decode_exact_value() {
    let out = hex_decode(b"0fa000ff").unwrap();
    assert_eq!(out, vec![0x0f, 0xa0, 0x00, 0xff]);
}

#[test]
fn hex_decode_accepts_upper_case() {
    let out = hex_decode(b"DEADBEEF").unwrap();
    assert_eq!(out, vec![0xde, 0xad, 0xbe, 0xef]);
}

#[test]
fn hex_round_trip() {
    let bytes: Vec<u8> = (0u8..=255).collect();
    let encoded = hex_encode(&bytes);
    let decoded = hex_decode(&encoded).unwrap();
    assert_eq!(decoded, bytes);
}

#[test]
fn hex_decode_odd_length_is_invalid_input() {
    assert_eq!(hex_decode(b"abc"), Err(CoreError::InvalidInput));
}

#[test]
fn hex_decode_bad_digit_is_invalid_input() {
    assert_eq!(hex_decode(b"0g"), Err(CoreError::InvalidInput));
    assert_eq!(hex_decode(b"zz"), Err(CoreError::InvalidInput));
}

#[test]
fn hex_decode_empty_is_empty() {
    assert_eq!(hex_decode(b"").unwrap(), Vec::<u8>::new());
}

#[test]
fn artifact_round_trip() {
    let artifact = PersistedArtifact {
        public_key_set: vec![9, 8, 7, 6, 5],
        encrypted_shares: vec![vec![1, 2, 3], vec![], vec![42; 300]],
    };
    let bytes = artifact.serialize();
    let back = PersistedArtifact::deserialize(&bytes).unwrap();
    assert_eq!(back.public_key_set, artifact.public_key_set);
    assert_eq!(back.encrypted_shares, artifact.encrypted_shares);
}

#[test]
fn artifact_round_trip_single_record() {
    let artifact = PersistedArtifact {
        public_key_set: Vec::new(),
        encrypted_shares: vec![vec![0xaa]],
    };
    let bytes = artifact.serialize();
    let back = PersistedArtifact::deserialize(&bytes).unwrap();
    assert_eq!(back.public_key_set, Vec::<u8>::new());
    assert_eq!(back.encrypted_shares, vec![vec![0xaa]]);
}

#[test]
fn artifact_bytes_are_length_prefixed() {
    let artifact = PersistedArtifact {
        public_key_set: vec![1, 2, 3],
        encrypted_shares: vec![vec![4, 5]],
    };
    let bytes = artifact.serialize();
    assert_eq!(
        bytes,
        vec![3, 0, 0, 0, 1, 2, 3, 1, 0, 0, 0, 2, 0, 0, 0, 4, 5]
    );
}

#[test]
fn artifact_truncated_is_corrupt() {
    let artifact = PersistedArtifact {
        public_key_set: vec![1, 2, 3],
        encrypted_shares: vec![vec![4, 5]],
    };
    let bytes = artifact.serialize();
    for cut in 0..bytes.len() {
        let r = PersistedArtifact::deserialize(&bytes[..cut]);
        assert_eq!(r.err(), Some(CoreError::CorruptArtifact));
    }
}

#[test]
fn artifact_trailing_garbage_is_corrupt() {
    let artifact = PersistedArtifact {
        public_key_set: vec![1, 2, 3],
        encrypted_shares: vec![vec![4, 5]],
    };
    let mut bytes = artifact.serialize();
    bytes.push(0);
    let r = PersistedArtifact::deserialize(&bytes);
    assert_eq!(r.err(), Some(CoreError::CorruptArtifact));
}

#[test]
fn artifact_overstated_count_is_corrupt() {
    // A public key set blob of three bytes, then a count of two but only
    // one record.
    let mut bytes: Vec<u8> = Vec::new();
    bytes.extend_from_slice(&[3, 0, 0, 0]);
    bytes.extend_from_slice(&[1, 2, 3]);
    bytes.extend_from_slice(&[2, 0, 0, 0]);
    bytes.extend_from_slice(&[1, 0, 0, 0]);
    bytes.push(9);
    let r = PersistedArtifact::deserialize(&bytes);
    assert_eq!(r.err(), Some(CoreError::CorruptArtifact));
}

#[test]
fn error_descriptions_are_stable() {
    assert_eq!(CoreError::InvalidInput.describe(), "invalid input");
    assert_eq!(CoreError::InsufficientShares.describe(), "not enough distinct shares");
    assert_eq!(CoreError::MalformedShare.describe(), "malformed share");
    assert_eq!(CoreError::CorruptArtifact.describe(), "corrupt artifact");
    assert_eq!(CoreError::EncryptionError.describe(), "encryption failed");
    assert_eq!(CoreError::InvalidPublicKey.describe(), "invalid public key");
}
