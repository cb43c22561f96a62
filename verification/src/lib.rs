//! Share refresh and share handover for a threshold decryption committee on BLS12-381.
//!
//! A committee holds a private key in shares: the values of a polynomial at the elements of an
//! evaluation domain, each blinded by the key of the validator who holds it. In a refresh, the
//! validators deal random updates of the shares that leave the secret as it was. In a handover,
//! a share passes to another validator, and so under another key.

pub mod backend;
pub mod common;
pub mod curve;
pub mod domain;
pub mod error;
pub mod handover;
pub mod indices;
pub mod interpolation;
pub mod key_share;
pub mod keypair;
pub mod laws;
pub mod modular;
pub mod number_theory;
pub mod operations;
pub mod poly;
pub mod powers;
pub mod primality;
pub mod primitives;
pub mod refresh;
pub mod scalar;
pub mod text;

pub use crate::error::Error;
pub use crate::handover::HandoverTranscript;
pub use crate::refresh::{ShareUpdate, UpdatableBlindedKeyShare, UpdateTranscript};
