//! The keys of a validator.

use vstd::prelude::*;

use crate::backend::{g2_log, is_g2, refusal};
use crate::common::Error;
use crate::curve::G2Point;
use crate::scalar::Scalar;

verus! {

/// The public key under which the share of a validator is blinded.
#[derive(Clone, Copy, Debug)]
pub struct PublicKey {
    pub encryption_key: G2Point,
}

impl PublicKey {
    /// Reads a public key from the compressed encoding of its point. The identity is refused.
    pub fn from_bytes(bytes: &[u8]) -> (r: Result<PublicKey, Error>)
        ensures
            r is Ok <==> bytes@.len() == 96 && is_g2(bytes@) && g2_log(bytes@) != 0,
            r matches Ok(key) ==> key.encryption_key.encoding() == bytes@
                && key.encryption_key@ == g2_log(bytes@),
            r matches Err(e) ==> e == (if bytes@.len() != 96 {
                Error::InvalidByteLength(96, bytes@.len() as usize)
            } else if !is_g2(bytes@) {
                Error::SerializationError(refusal(bytes@[0]))
            } else {
                Error::IdentityEncryptionKey
            }),
    {
        match G2Point::from_bytes(bytes) {
            Err(e) => Err(e),
            Ok(encryption_key) => {
                if encryption_key.is_zero() {
                    Err(Error::IdentityEncryptionKey)
                } else {
                    Ok(PublicKey { encryption_key })
                }
            },
        }
    }

    /// The compressed encoding of the point.
    pub fn to_bytes(&self) -> (r: [u8; 96])
        ensures
            r@ == self.encryption_key.encoding(),
            is_g2(r@),
            g2_log(r@) == self.encryption_key@,
    {
        self.encryption_key.to_bytes()
    }
}

impl PartialEq for PublicKey {
    fn eq(&self, other: &PublicKey) -> (r: bool) {
        self.encryption_key.equals(&other.encryption_key)
    }
}

impl vstd::std_specs::cmp::PartialEqSpecImpl for PublicKey {
    open spec fn obeys_eq_spec() -> bool {
        true
    }

    open spec fn eq_spec(&self, other: &PublicKey) -> bool {
        self.encryption_key@ == other.encryption_key@
    }
}

impl Eq for PublicKey {

}

/// The secret key of a validator, which determines the public one.
#[derive(Clone, Copy, Debug)]
pub struct Keypair {
    pub decryption_key: Scalar,
}

impl Keypair {
    /// The generator of G2 times the decryption key.
    pub fn public_key(&self) -> (r: PublicKey)
        ensures
            r.encryption_key@ == self.decryption_key@,
    {
        proof {
            self.decryption_key.lemma_range();
        }
        PublicKey { encryption_key: G2Point::generator().times(&self.decryption_key) }
    }
}

} // verus!
