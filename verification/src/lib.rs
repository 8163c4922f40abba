//! Threshold secret sharing with verifiable reconstruction.
//!
//! A secret is split into `n` shares so that any `t` of them recover it
//! exactly; each share is encrypted for one participant's public key; a
//! persisted artifact carries the public commitment and the encrypted
//! shares; reconstruction recovers the secret from `t` decrypted shares,
//! reinterprets it as a field scalar, and validates the derived public
//! key against the stored commitment.

pub mod artifact;
pub mod display;
pub mod encryptor;
pub mod engine;
pub mod errors;
pub mod hexcode;
pub mod keyset;
pub mod pipeline;
pub mod scalar;
pub mod shamir;
