//! Error taxonomy of the library.

use vstd::prelude::*;

verus! {

/// Typed failures of the splitting / encryption / reconstruction pipeline.
///
/// - `InvalidInput`: malformed hex, a wrong-length public key, a threshold
///   larger than the total share count, or a recovered secret that does not
///   fit the field.
/// - `InsufficientShares`: fewer than the threshold many distinct-index
///   shares were supplied at reconstruction time.
/// - `MalformedShare`: a share is structurally invalid (empty value, zero
///   index, duplicated index, or a length inconsistent with the others).
/// - `CorruptArtifact`: a persisted artifact does not decode, or its
///   public-key-set encoding holds no public key.
/// - `EncryptionError`: an encryption failure at generation time. The
///   scheme in use encrypts plaintexts of any length, so no operation of
///   this library currently returns it; the variant names that failure
///   class for callers that match on the taxonomy.
/// - `InvalidPublicKey`: participant key bytes do not decode to a valid key.
#[derive(Clone, Copy, Debug, PartialEq, Eq, Structural)]
pub enum CoreError {
    InvalidInput,
    InsufficientShares,
    MalformedShare,
    CorruptArtifact,
    EncryptionError,
    InvalidPublicKey,
}

impl CoreError {
    /// A short human-readable description, for the surrounding CLI layer.
    pub fn describe(&self) -> (r: &'static str)
        ensures
            r@ == self.describe_spec(),
    {
        match self {
            CoreError::InvalidInput => "invalid input",
            CoreError::InsufficientShares => "not enough distinct shares",
            CoreError::MalformedShare => "malformed share",
            CoreError::CorruptArtifact => "corrupt artifact",
            CoreError::EncryptionError => "encryption failed",
            CoreError::InvalidPublicKey => "invalid public key",
        }
    }

    pub open spec fn describe_spec(&self) -> Seq<char> {
        match self {
            CoreError::InvalidInput => "invalid input"@,
            CoreError::InsufficientShares => "not enough distinct shares"@,
            CoreError::MalformedShare => "malformed share"@,
            CoreError::CorruptArtifact => "corrupt artifact"@,
            CoreError::EncryptionError => "encryption failed"@,
            CoreError::InvalidPublicKey => "invalid public key"@,
        }
    }
}

} // verus!
