//! Per-participant share encryption.
//!
//! Each raw share is encrypted under one participant's public key; only the
//! resulting opaque ciphertext record is ever persisted. Decryption is the
//! participant's own affair and happens outside this library.

use vstd::prelude::*;

use crate::errors::CoreError;
use crate::hexcode;
use crate::shamir::ShamirShare;

verus! {

#[verifier::external_type_specification]
#[verifier::external_body]
pub struct ExPublicKey(threshold_crypto::PublicKey);

/// Whether 48 bytes decode to a valid participant public key (a compressed
/// curve point). A function of the bytes alone; nothing but the trusted
/// wrapper below says what it is on any given input.
pub uninterp spec fn pk_decode_ok(bytes: Seq<u8>) -> bool;

/// Relies on threshold_crypto's `PublicKey::from_bytes` (`PK_SIZE` is 48):
/// whether the bytes are a valid compressed point is a function of the
/// bytes alone.
#[verifier::external_body]
fn pk_from_bytes(bytes: &Vec<u8>) -> (r: Option<threshold_crypto::PublicKey>)
    requires
        bytes@.len() == 48,
    ensures
        r is Some <==> pk_decode_ok(bytes@),
{
    let mut buf = [0u8; threshold_crypto::PK_SIZE];
    buf.copy_from_slice(bytes.as_slice());
    threshold_crypto::PublicKey::from_bytes(&buf).ok()
}

/// Relies on threshold_crypto's `PublicKey::encrypt`, which draws fresh
/// randomness from the operating system and accepts any message length,
/// and on `bincode::serialize` of the resulting ciphertext, which cannot
/// fail when writing into a byte vector. A ciphertext holds one 48-byte
/// and one 96-byte compressed point and the length-prefixed masked message
/// bytes, which bounds the record's length; beyond that nothing is
/// promised of the record bytes, which depend on the randomness.
#[verifier::external_body]
fn encrypt_to_record(pk: &threshold_crypto::PublicKey, msg: &Vec<u8>) -> (r: Vec<u8>)
    ensures
        r@.len() <= msg@.len() + 256,
{
    bincode::serialize(&pk.encrypt(msg.as_slice())).expect(
        "serializing into a byte vector cannot fail",
    )
}

/// Decodes a hex-presented participant public key into its 48 raw bytes.
/// Malformed hex and a wrong length are both `InvalidInput`.
pub fn parse_participant_key(hex: &[u8]) -> (r: Result<Vec<u8>, CoreError>)
    ensures
        r is Ok <==> hexcode::hex_valid(hex@) && hexcode::spec_hex_decode(hex@).len() == 48,
        r matches Ok(b) ==> b@ == hexcode::spec_hex_decode(hex@) && b@.len() == 48,
        r is Err ==> r == Err::<Vec<u8>, CoreError>(CoreError::InvalidInput),
{
    let bytes = match hexcode::hex_decode(hex) {
        Ok(b) => b,
        Err(e) => {
            return Err(e);
        },
    };
    if bytes.len() != 48 {
        return Err(CoreError::InvalidInput);
    }
    Ok(bytes)
}

/// Encrypts one share under one participant public key, yielding the opaque
/// ciphertext record that the artifact stores.
///
/// A recipient key of a length other than 48 bytes is `InvalidInput`; 48
/// bytes that are no valid public key are `InvalidPublicKey`; a valid key
/// always succeeds, since the scheme encrypts plaintexts of any length.
pub fn encrypt_share(share: &ShamirShare, recipient_pk: &Vec<u8>) -> (r: Result<Vec<u8>, CoreError>)
    ensures
        r is Ok <==> recipient_pk@.len() == 48 && pk_decode_ok(recipient_pk@),
        recipient_pk@.len() != 48 ==> r == Err::<Vec<u8>, CoreError>(CoreError::InvalidInput),
        recipient_pk@.len() == 48 && !pk_decode_ok(recipient_pk@) ==> r == Err::<Vec<u8>, CoreError>(
            CoreError::InvalidPublicKey,
        ),
        r matches Ok(record) ==> record@.len() <= share.blob().len() + 256,
{
    if recipient_pk.len() != 48 {
        return Err(CoreError::InvalidInput);
    }
    let pk = match pk_from_bytes(recipient_pk) {
        Some(pk) => pk,
        None => {
            return Err(CoreError::InvalidPublicKey);
        },
    };
    let blob = share.to_bytes();
    Ok(encrypt_to_record(&pk, &blob))
}

} // verus!
