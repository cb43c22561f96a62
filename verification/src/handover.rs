//! Share handover: an incoming node takes over the share of an outgoing one, under its own key.

use ark_std::rand::rngs::StdRng;
use vstd::prelude::*;

use crate::curve::{G1Point, G2Point, GtElement};
use crate::error::Error;
use crate::key_share::{lemma_cancel, BlindedKeyShare, ShareCommitment};
use crate::keypair::{Keypair, PublicKey};
use crate::modular::{cong, lemma_cong_ops, lemma_cong_residue, lemma_residue, order, residue};
use crate::scalar::Scalar;

verus! {

/// HandoverTranscript, a.k.a. "The Baton", represents the message an incoming
/// node produces to initiate a handover with an outgoing node.
/// After the handover, the incoming node replaces the outgoing node in an
/// existing cohort, securely obtaining a new blinded key share, but under the
/// incoming node's private key.
#[derive(Clone, Debug, PartialEq, Eq)]
pub struct HandoverTranscript {
    pub share_index: u32,
    pub double_blind_share: G2Point,
    pub commitment_to_share: G2Point,
    pub commitment_to_g1: G1Point,
    pub commitment_to_g2: G2Point,
    pub incoming_pubkey: PublicKey,
    pub outgoing_pubkey: PublicKey,
}

impl HandoverTranscript {
    /// The transcript hands over the given share to the incoming key, with `t` as its random
    /// scalar.
    pub open spec fn hands_over(
        self,
        share_index: u32,
        outgoing_blinded_share: BlindedKeyShare,
        outgoing_pubkey: PublicKey,
        incoming_validator_keypair: Keypair,
        t: int,
    ) -> bool {
        let d_j = incoming_validator_keypair.decryption_key@;
        &&& self.share_index == share_index
        &&& self.double_blind_share@ == residue(outgoing_blinded_share.blinded_key_share@ * d_j)
        &&& self.commitment_to_share@ == residue(outgoing_pubkey.encryption_key@ * (d_j * t))
        &&& self.commitment_to_g1@ == t
        &&& self.commitment_to_g2@ == t
        &&& self.incoming_pubkey.encryption_key@ == d_j
        &&& self.outgoing_pubkey == outgoing_pubkey
    }

    /// The two pairing checks: the double-blind share is to the commitment to the share as the
    /// share commitment is to the commitment in G1, and both groups commit to the same scalar.
    /// Commitments that are the identity would meet them whatever the share commitment is, so
    /// they are excluded.
    pub open spec fn is_valid(self, share_commitment: ShareCommitment) -> bool {
        &&& self.commitment_to_g1@ != 0
        &&& self.commitment_to_share@ != 0
        &&& cong(
            self.commitment_to_g1@ * self.double_blind_share@,
            share_commitment.0@ * self.commitment_to_share@,
        )
        &&& self.commitment_to_g1@ == self.commitment_to_g2@
    }

    /// Starts the handover of a share to the holder of the incoming key pair, with the scalar that
    /// the generator yields.
    pub fn new(
        share_index: u32,
        outgoing_blinded_share: &BlindedKeyShare,
        outgoing_pubkey: PublicKey,
        incoming_validator_keypair: &Keypair,
        rng: &mut StdRng,
    ) -> (r: Self)
        ensures
            exists|t: int|
                0 <= t < order() && #[trigger] r.hands_over(
                    share_index,
                    *outgoing_blinded_share,
                    outgoing_pubkey,
                    *incoming_validator_keypair,
                    t,
                ),
            exists|m: &mut StdRng, t: Scalar|
                {
                    &&& #[trigger] call_ensures(Scalar::random, (m,), t)
                    &&& *m == *old(rng)
                    &&& *final(m) == *final(rng)
                    &&& r.hands_over(
                        share_index,
                        *outgoing_blinded_share,
                        outgoing_pubkey,
                        *incoming_validator_keypair,
                        t@,
                    )
                },
    {
        let random_scalar = Scalar::random(rng);
        Self::with_scalar(
            share_index,
            outgoing_blinded_share,
            outgoing_pubkey,
            incoming_validator_keypair,
            &random_scalar,
        )
    }

    /// The handover transcript with the given random scalar.
    pub fn with_scalar(
        share_index: u32,
        outgoing_blinded_share: &BlindedKeyShare,
        outgoing_pubkey: PublicKey,
        incoming_validator_keypair: &Keypair,
        random_scalar: &Scalar,
    ) -> (r: Self)
        ensures
            r.hands_over(
                share_index,
                *outgoing_blinded_share,
                outgoing_pubkey,
                *incoming_validator_keypair,
                random_scalar@,
            ),
    {
        // d_j
        let incoming_decryption_key = incoming_validator_keypair.decryption_key;
        // d_j * Y_i
        let double_blind_share = outgoing_blinded_share.blinded_key_share.times(
            &incoming_decryption_key,
        );
        // t * d_j * ek_i
        let commitment_to_share = outgoing_pubkey.encryption_key.times(
            &incoming_decryption_key.times(random_scalar),
        );
        proof {
            let (ek, p) = (
                outgoing_pubkey.encryption_key@,
                incoming_decryption_key@ * random_scalar@,
            );
            lemma_cong_residue(p);
            lemma_cong_ops(ek, ek, residue(p), p);
            random_scalar.lemma_range();
        }
        Self {
            share_index,
            double_blind_share,
            commitment_to_share,
            commitment_to_g1: G1Point::generator().times(random_scalar),
            commitment_to_g2: G2Point::generator().times(random_scalar),
            incoming_pubkey: incoming_validator_keypair.public_key(),
            outgoing_pubkey,
        }
    }

    /// Whether the transcript is bound to the share with the given commitment. This is publicly
    /// verifiable.
    pub fn validate(&self, share_commitment: ShareCommitment) -> (r: Result<bool, Error>)
        ensures
            r == (if self.is_valid(share_commitment) {
                Ok(true)
            } else {
                Err::<bool, Error>(Error::InvalidShareUpdate)
            }),
    {
        // Identity points satisfy the pairing equations vacuously. The identity in place of
        // comm_G2 is excluded by the second equation.
        if self.commitment_to_g1.is_zero() || self.commitment_to_share.is_zero() {
            return Err(Error::InvalidShareUpdate);
        }
        let commitment_to_g1_inv = self.commitment_to_g1.negated();
        let (g1, g2) = (G1Point::generator(), G2Point::generator());
        proof {
            let c = self.commitment_to_g1@;
            lemma_opposite_product(
                c,
                self.double_blind_share@,
                share_commitment.0@ * self.commitment_to_share@,
            );
            lemma_opposite_product(c, 1, self.commitment_to_g2@);
            self.commitment_to_g1.lemma_range();
            self.commitment_to_g2.lemma_range();
            assert(c * 1 == c && 1 * self.commitment_to_g2@ == self.commitment_to_g2@);
        }
        // e(comm_G1, double_blind_share) == e(A_i, comm_share)
        //   or equivalently:
        // e(-comm_G1, double_blind_share) · e(A_i, comm_share) == 1
        let mut is_valid = GtElement::multi_pairing(
            [&commitment_to_g1_inv, &share_commitment.0],
            [&self.double_blind_share, &self.commitment_to_share],
        ).equals(&GtElement::one());

        // e(comm_G1, gen_G2) == e(gen_G1, comm_G2)
        //   or equivalently:
        // e(-comm_G1, gen_G2) · e(gen_G1, comm_G2) == 1
        is_valid = is_valid && GtElement::multi_pairing(
            [&commitment_to_g1_inv, &g1],
            [&g2, &self.commitment_to_g2],
        ).equals(&GtElement::one());

        if is_valid {
            Ok(true)
        } else {
            Err(Error::InvalidShareUpdate)
        }
    }

    /// The departing validator takes its own key off the double-blind share. What is left is
    /// the share under the incoming key.
    pub fn finalize(
        &self,
        departing_validator_keypair: &Keypair,
        share_commitment: ShareCommitment,
    ) -> (r: Result<BlindedKeyShare, Error>)
        requires
            self.is_valid(share_commitment),
            departing_validator_keypair.decryption_key@ != 0,
        ensures
            r matches Ok(share) && {
                &&& share.validator_public_key == self.incoming_pubkey.encryption_key
                &&& residue(share.blinded_key_share@ * departing_validator_keypair.decryption_key@)
                    == self.double_blind_share@
            },
    {
        let is_valid = self.validate(share_commitment).unwrap();
        if !is_valid {
            assert(false);
            return Err(Error::InvalidShareUpdate);
        }
        let inverse = departing_validator_keypair.decryption_key.inverse().unwrap();
        proof {
            lemma_cancel(
                self.double_blind_share@,
                departing_validator_keypair.decryption_key@,
                inverse@,
            );
            self.double_blind_share.lemma_range();
        }
        Ok(
            BlindedKeyShare {
                validator_public_key: self.incoming_pubkey.encryption_key,
                blinded_key_share: self.double_blind_share.times(&inverse),
            },
        )
    }

    /// As [`Self::finalize`], or nothing where the transcript is not valid for the commitment or
    /// the decryption key is zero.
    pub fn try_finalize(
        &self,
        departing_validator_keypair: &Keypair,
        share_commitment: ShareCommitment,
    ) -> (r: Option<Result<BlindedKeyShare, Error>>)
        ensures
            r is Some <==> self.is_valid(share_commitment)
                && departing_validator_keypair.decryption_key@ != 0,
            r matches Some(finalized) ==> {
                &&& finalized matches Ok(share)
                &&& share.validator_public_key == self.incoming_pubkey.encryption_key
                &&& residue(share.blinded_key_share@ * departing_validator_keypair.decryption_key@)
                    == self.double_blind_share@
            },
    {
        if self.validate(share_commitment).is_err()
            || departing_validator_keypair.decryption_key.is_zero() {
            None
        } else {
            Some(self.finalize(departing_validator_keypair, share_commitment))
        }
    }
}

/// A sum with an opposite product vanishes exactly when the product is congruent to the rest.
proof fn lemma_opposite_product(c: int, x: int, rest: int)
    ensures
        residue(residue(-c) * x + rest) == 0 <==> cong(c * x, rest),
{
    lemma_residue(0);
    lemma_cong_residue(-c);
    lemma_cong_ops(residue(-c), -c, x, x);
    lemma_cong_ops(residue(-c) * x, -c * x, rest, rest);
    assert(-c * x == -(c * x)) by (nonlinear_arith);
    let s = -c * x + rest;
    if cong(s, 0) {
        lemma_cong_ops(s, 0, c * x, c * x);
    }
    if cong(c * x, rest) {
        lemma_cong_ops(rest, c * x, c * x, c * x);
    }
}

} // verus!
