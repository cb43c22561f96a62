//! Share refresh: each participant deals an update polynomial that vanishes at zero, and adds
//! the updates that it receives to its own share.

use std::collections::HashMap;

use ark_std::rand::rngs::StdRng;
use vstd::prelude::*;
use vstd::std_specs::hash::group_hash_axioms;

use crate::backend::value_on_domain;
use crate::curve::{batch_times, logs, G1Point, G2Point, GtElement};
use crate::domain::EvaluationDomain;
use crate::error::Error;
use crate::indices::{ascending, in_order, keys_of, lemma_sum_prefix, sorted_keys_of, sum_over};
use crate::key_share::{prepare_combine_simple, BlindedKeyShare, PrivateKeyShare};
use crate::keypair::{Keypair, PublicKey};
use crate::modular::{cong, lemma_cong_ops, lemma_cong_residue, lemma_residue, residue};
use crate::poly::{eval, is_basis_value};
use crate::scalar::{evaluate, random_polynomial, values, DomainPoint, Scalar};

verus! {

// ---------------------------------------------------------------------------------------------
// Share updates
// ---------------------------------------------------------------------------------------------

/// An update to a private key share generated by a participant in a share refresh operation.
#[derive(Clone, Debug)]
pub struct ShareUpdate {
    /// The value of the update polynomial, blinded by the key of the target validator.
    pub update: G2Point,
    /// The commitment to the value of the update polynomial.
    pub commitment: G1Point,
}

impl ShareUpdate {
    /// The update is the committed value times the given public key.
    pub open spec fn is_valid(self, public_key: PublicKey) -> bool {
        self.update@ == residue(self.commitment@ * public_key.encryption_key@)
    }

    /// Whether the update holds the committed value, blinded by the key of the validator.
    pub fn verify(&self, target_validator_public_key: &PublicKey) -> (r: Result<bool, Error>)
        ensures
            r == (if self.is_valid(*target_validator_public_key) {
                Ok(true)
            } else {
                Err::<bool, Error>(Error::InvalidShareUpdate)
            }),
    {
        let public_key_point = target_validator_public_key.encryption_key;
        proof {
            self.update.lemma_range();
            assert(1 * self.update@ == self.update@);
        }
        let is_valid = GtElement::pairing(&G1Point::generator(), &self.update).equals(
            &GtElement::pairing(&self.commitment, &public_key_point),
        );
        if is_valid {
            Ok(true)
        } else {
            Err(Error::InvalidShareUpdate)
        }
    }
}

impl PartialEq for ShareUpdate {
    fn eq(&self, other: &ShareUpdate) -> (r: bool) {
        self.update.equals(&other.update) && self.commitment.equals(&other.commitment)
    }
}

impl vstd::std_specs::cmp::PartialEqSpecImpl for ShareUpdate {
    open spec fn obeys_eq_spec() -> bool {
        true
    }

    open spec fn eq_spec(&self, other: &ShareUpdate) -> bool {
        self.update@ == other.update@ && self.commitment@ == other.commitment@
    }
}

impl Eq for ShareUpdate {

}

// ---------------------------------------------------------------------------------------------
// Applying updates to a share
// ---------------------------------------------------------------------------------------------

/// Blinded key share held by a participant in the DKG protocol
#[derive(Clone, Debug)]
pub struct UpdatableBlindedKeyShare(pub BlindedKeyShare);

/// Every transcript holds an update for `index`, and it is valid for the given key.
pub open spec fn updates_apply(
    update_transcripts: Map<u32, UpdateTranscript>,
    index: u32,
    public_key: PublicKey,
) -> bool {
    forall|p: u32| #[trigger]
        update_transcripts.dom().contains(p) ==> {
            &&& update_transcripts[p].updates@.dom().contains(index)
            &&& update_transcripts[p].updates@[index].is_valid(public_key)
        }
}

/// The logarithm of the update for `index` in the transcript of each producer.
pub open spec fn update_logs(update_transcripts: Map<u32, UpdateTranscript>, index: u32) -> spec_fn(
    u32,
) -> int {
    |p: u32| update_transcripts[p].updates@[index].update@
}

impl UpdatableBlindedKeyShare {
    pub fn new(blinded_key_share: BlindedKeyShare) -> (r: Self)
        ensures
            r.0 == blinded_key_share,
    {
        Self(blinded_key_share)
    }

    /// The public key that blinds the share.
    pub open spec fn public_key(self) -> PublicKey {
        PublicKey { encryption_key: self.0.validator_public_key }
    }

    /// Adds to the share the update for `index` of each of the transcripts. The commitments of
    /// the transcripts are not checked here: see [`UpdateTranscript::verify_refresh`].
    pub fn apply_share_updates(
        &self,
        update_transcripts: &HashMap<u32, UpdateTranscript>,
        index: u32,
    ) -> (r: Self)
        requires
            updates_apply(update_transcripts@, index, self.public_key()),
        ensures
            r.0.validator_public_key == self.0.validator_public_key,
            r.0.blinded_key_share@ == residue(
                self.0.blinded_key_share@ + sum_over(
                    update_transcripts@.dom(),
                    update_logs(update_transcripts@, index),
                ),
            ),
    {
        broadcast use group_hash_axioms;

        let public_key = PublicKey { encryption_key: self.0.validator_public_key };
        let producers = keys_of(update_transcripts);
        let mut updated_key_share = self.0.blinded_key_share;
        let ghost start = self.0.blinded_key_share@;
        let ghost f = update_logs(update_transcripts@, index);
        proof {
            self.0.blinded_key_share.lemma_range();
            assert(producers@.take(0).to_set() =~= Set::<u32>::empty());
        }
        let mut i: usize = 0;
        while i < producers.len()
            invariant
                i <= producers.len(),
                producers@.no_duplicates(),
                producers@.to_set() == update_transcripts@.dom(),
                updates_apply(update_transcripts@, index, public_key),
                f == update_logs(update_transcripts@, index),
                start == self.0.blinded_key_share@,
                updated_key_share@ == residue(
                    start + sum_over(producers@.take(i as int).to_set(), f),
                ),
            decreases producers.len() - i,
        {
            let producer = producers[i];
            assert(producers@.to_set().contains(producer));
            assert(update_transcripts@.dom().contains(producer));
            let update_for_participant = update_transcripts.get(&producer).unwrap().updates.get(
                &index,
            ).unwrap();
            // Validate share update against the target validator public key
            update_for_participant.verify(&public_key).unwrap();
            let update = &update_for_participant.update;
            proof {
                lemma_sum_prefix(producers@, f, i as int);
                let s = start + sum_over(producers@.take(i as int).to_set(), f);
                lemma_cong_residue(s);
                lemma_cong_ops(residue(s), s, update@, update@);
            }
            updated_key_share = updated_key_share.plus(update);
            i += 1;
        }
        assert(producers@.take(producers.len() as int) =~= producers@);
        Self(
            BlindedKeyShare {
                validator_public_key: self.0.validator_public_key,
                blinded_key_share: updated_key_share,
            },
        )
    }

    /// As [`Self::apply_share_updates`], or nothing where an update is missing or not valid.
    pub fn try_apply_share_updates(
        &self,
        update_transcripts: &HashMap<u32, UpdateTranscript>,
        index: u32,
    ) -> (r: Option<Self>)
        ensures
            r is Some <==> updates_apply(update_transcripts@, index, self.public_key()),
            r matches Some(updated) ==> {
                &&& updated.0.validator_public_key == self.0.validator_public_key
                &&& updated.0.blinded_key_share@ == residue(
                    self.0.blinded_key_share@ + sum_over(
                        update_transcripts@.dom(),
                        update_logs(update_transcripts@, index),
                    ),
                )
            },
    {
        broadcast use group_hash_axioms;

        let public_key = PublicKey { encryption_key: self.0.validator_public_key };
        let producers = keys_of(update_transcripts);
        let mut i: usize = 0;
        while i < producers.len()
            invariant
                i <= producers.len(),
                producers@.to_set() == update_transcripts@.dom(),
                public_key == self.public_key(),
                forall|j: int|
                    0 <= j < i ==> {
                        let transcript = update_transcripts@[#[trigger] producers@[j]];
                        &&& transcript.updates@.dom().contains(index)
                        &&& transcript.updates@[index].is_valid(public_key)
                    },
            decreases producers.len() - i,
        {
            let producer = producers[i];
            assert(producers@.to_set().contains(producer));
            assert(update_transcripts@.dom().contains(producer));
            match update_transcripts.get(&producer).unwrap().updates.get(&index) {
                None => {
                    return None;
                },
                Some(update) => {
                    if update.verify(&public_key).is_err() {
                        return None;
                    }
                },
            }
            i += 1;
        }
        assert forall|p: u32| #[trigger] update_transcripts@.dom().contains(p) implies {
            &&& update_transcripts@[p].updates@.dom().contains(index)
            &&& update_transcripts@[p].updates@[index].is_valid(public_key)
        } by {
            assert(producers@.to_set().contains(p));
            assert(producers@.contains(p));
        }
        Some(self.apply_share_updates(update_transcripts, index))
    }
}

// ---------------------------------------------------------------------------------------------
// Decryption shares
// ---------------------------------------------------------------------------------------------

/// What the holder of a share brings to a decryption share of the simple variant. The rest, the
/// ciphertext header and its associated data, comes from the client.
#[derive(Clone, Debug)]
pub struct SimpleShareInputs {
    pub validator_decryption_key: Scalar,
    pub private_key_share: PrivateKeyShare,
}

/// What the holder of a share brings to a decryption share of the precomputed variant.
#[derive(Clone, Debug)]
pub struct PrecomputedShareInputs {
    pub share_index: usize,
    pub validator_decryption_key: Scalar,
    pub private_key_share: PrivateKeyShare,
    pub lagrange_coeff: Scalar,
}

/// The domain points in the ascending order of their share indices.
pub open spec fn points_in_order(domain_points: Map<u32, DomainPoint>) -> Seq<int> {
    let indices = in_order(domain_points.dom());
    Seq::new(indices.len(), |i: int| domain_points[indices[i]]@)
}

impl UpdatableBlindedKeyShare {
    /// In simple variant, the client combines the decryption shares, and the holder of a share
    /// brings no more than the share itself, without its blinding.
    pub fn create_decryption_share_simple(&self, validator_keypair: &Keypair) -> (r:
        SimpleShareInputs)
        requires
            validator_keypair.decryption_key@ != 0,
        ensures
            r.validator_decryption_key == validator_keypair.decryption_key,
            residue(r.private_key_share.0@ * validator_keypair.decryption_key@)
                == self.0.blinded_key_share@,
    {
        SimpleShareInputs {
            validator_decryption_key: validator_keypair.decryption_key,
            private_key_share: self.0.unblind(validator_keypair).unwrap(),
        }
    }

    /// In precomputed variant, we offload some of the decryption related computation to the
    /// server-side: the Lagrange coefficient of the share among the given domain points.
    pub fn create_decryption_share_precomputed(
        &self,
        validator_keypair: &Keypair,
        share_index: u32,
        domain_points_map: &HashMap<u32, DomainPoint>,
    ) -> (r: Result<PrecomputedShareInputs, Error>)
        requires
            domain_points_map@.dom().contains(share_index)
                ==> validator_keypair.decryption_key@ != 0,
        ensures
            r is Ok <==> domain_points_map@.dom().contains(share_index),
            r matches Err(e) ==> e == Error::InvalidShareIndex(share_index),
            r matches Ok(inputs) ==> {
                &&& inputs.share_index == share_index
                &&& inputs.validator_decryption_key == validator_keypair.decryption_key
                &&& residue(inputs.private_key_share.0@ * validator_keypair.decryption_key@)
                    == self.0.blinded_key_share@
                &&& is_basis_value(
                    inputs.lagrange_coeff@,
                    points_in_order(domain_points_map@),
                    in_order(domain_points_map@.dom()).index_of(share_index),
                    0,
                )
            },
    {
        broadcast use group_hash_axioms;

        // We need to turn the domain points into a vector, and sort it by share index
        let indices = sorted_keys_of(domain_points_map);
        let mut domain_points: Vec<DomainPoint> = Vec::new();
        // The position of the share index among the sorted ones
        let mut adjusted_share_index: Option<usize> = None;
        let mut i: usize = 0;
        while i < indices.len()
            invariant
                i <= indices.len(),
                ascending(indices@),
                indices@ == in_order(domain_points_map@.dom()),
                indices@.to_set() == domain_points_map@.dom(),
                domain_points.len() == i,
                forall|j: int|
                    0 <= j < i ==> (#[trigger] domain_points[j])@
                        == domain_points_map@[indices[j]]@,
                match adjusted_share_index {
                    Some(at) => at < i && indices[at as int] == share_index,
                    None => forall|j: int| 0 <= j < i ==> indices[j] != share_index,
                },
            decreases indices.len() - i,
        {
            let index = indices[i];
            assert(indices@.to_set().contains(index));
            assert(domain_points_map@.dom().contains(index));
            domain_points.push(*domain_points_map.get(&index).unwrap());
            if index == share_index {
                adjusted_share_index = Some(i);
            }
            i += 1;
        }
        assert(values(domain_points@) =~= points_in_order(domain_points_map@));

        // Now, we have to pass the domain points to the `prepare_combine_simple` function
        let lagrange_coeffs = prepare_combine_simple(&domain_points);
        match adjusted_share_index {
            None => {
                assert(!indices@.to_set().contains(share_index));
                Err(Error::InvalidShareIndex(share_index))
            },
            Some(at) => {
                assert(indices@.to_set().contains(share_index)) by {
                    assert(indices@[at as int] == share_index);
                }
                assert(indices@.index_of(share_index) == at);
                // Finally, pick the lagrange coefficient for the current share index
                let private_key_share = self.0.unblind(validator_keypair).unwrap();
                Ok(
                    PrecomputedShareInputs {
                        share_index: share_index as usize,
                        validator_decryption_key: validator_keypair.decryption_key,
                        private_key_share,
                        lagrange_coeff: lagrange_coeffs[at],
                    },
                )
            },
        }
    }
}

// ---------------------------------------------------------------------------------------------
// Update transcripts
// ---------------------------------------------------------------------------------------------

/// What a participant deals in a share refresh.
#[derive(Clone, Debug, PartialEq, Eq)]
pub struct UpdateTranscript {
    /// Used in Feldman commitment to the update polynomial
    pub coeffs: Vec<G1Point>,
    /// The share updates to be dealt to each validator
    pub updates: HashMap<u32, ShareUpdate>,
}

/// The points and keys of the validators, by share index.
pub type PointsAndKeys = Map<u32, (DomainPoint, PublicKey)>;

impl UpdateTranscript {
    /// The transcript holds an update for `index`: the value at `x` of the polynomial that is
    /// committed to, itself committed, and blinded by the given key.
    pub open spec fn deals_to(self, index: u32, x: int, public_key: PublicKey) -> bool {
        &&& self.updates@.dom().contains(index)
        &&& self.updates@[index].commitment@ == residue(eval(logs(self.coeffs@), x))
        &&& self.updates@[index].is_valid(public_key)
    }

    /// The transcript commits to the polynomial with coefficients `c`, and deals it to each
    /// validator, and to no one else.
    pub open spec fn deals(self, c: Seq<int>, points_and_keys: PointsAndKeys) -> bool {
        &&& logs(self.coeffs@) == c
        &&& self.updates@.dom() == points_and_keys.dom()
        &&& forall|i: u32| #[trigger]
            points_and_keys.dom().contains(i) ==> self.deals_to(
                i,
                points_and_keys[i].0@,
                points_and_keys[i].1,
            )
    }

    /// The update for each validator is valid for its key.
    pub open spec fn updates_valid(self, keys: Map<u32, PublicKey>) -> bool {
        forall|i: u32| #[trigger]
            self.updates@.dom().contains(i) ==> keys.dom().contains(i)
                && self.updates@[i].is_valid(keys[i])
    }

    /// Each commitment to an update is the value of the committed polynomial at the element of
    /// the domain with the same index, as far as the domain reaches.
    pub open spec fn commitments_match(self, domain: Seq<int>) -> bool {
        forall|i: u32| #[trigger]
            self.updates@.dom().contains(i) && i < domain.len() ==> self.updates@[i].commitment@
                == residue(value_on_domain(logs(self.coeffs@), domain, i as int))
    }

    /// The domain has an element for each update.
    pub open spec fn indices_within(self, domain: Seq<int>) -> bool {
        forall|i: u32| #[trigger] self.updates@.dom().contains(i) ==> i < domain.len()
    }

    /// There is a committed polynomial, and it vanishes at `root`.
    pub open spec fn has_root(self, root: int) -> bool {
        self.coeffs.len() > 0 && cong(eval(logs(self.coeffs@), root), 0)
    }

    /// What a transcript must meet to be judged: an update that is not valid, a commitment that
    /// does not match, or a polynomial without the root leaves it without a verdict. Where the
    /// index of an update lies outside the domain, that is the verdict, and the root is not
    /// looked at.
    pub open spec fn can_be_judged(
        self,
        keys: Map<u32, PublicKey>,
        domain: Seq<int>,
        root: int,
    ) -> bool {
        &&& self.updates_valid(keys)
        &&& self.commitments_match(domain)
        &&& self.indices_within(domain) ==> self.has_root(root)
    }

    /// Shared verifier for update transcripts, parametrized by the polynomial root (0 for
    /// refresh).
    pub fn verify_recovery(
        &self,
        validator_public_keys: &HashMap<u32, PublicKey>,
        domain: &EvaluationDomain,
        root: &Scalar,
    ) -> (r: Result<bool, Error>)
        requires
            self.can_be_judged(validator_public_keys@, domain@, root@),
        ensures
            r is Ok <==> self.indices_within(domain@),
            r matches Ok(verdict) ==> verdict,
            r matches Err(e) ==> {
                &&& e matches Error::InvalidShareIndex(i)
                &&& self.updates@.dom().contains(i)
                &&& i >= domain@.len()
            },
    {
        broadcast use group_hash_axioms;

        // Validate consistency between share updates, validator keys and polynomial commitments.
        // Let's first reconstruct the expected update commitments from the polynomial commitments:
        let reconstructed_commitments = domain.evaluate_points(&self.coeffs);

        let indices = keys_of(&self.updates);
        let mut i: usize = 0;
        while i < indices.len()
            invariant
                i <= indices.len(),
                indices@.to_set() == self.updates@.dom(),
                self.can_be_judged(validator_public_keys@, domain@, root@),
                reconstructed_commitments.len() == domain@.len(),
                forall|j: int|
                    0 <= j < domain@.len() ==> (#[trigger] reconstructed_commitments[j])@ == residue(
                        value_on_domain(logs(self.coeffs@), domain@, j),
                    ),
                forall|j: int| 0 <= j < i ==> (#[trigger] indices[j]) < domain@.len(),
            decreases indices.len() - i,
        {
            let index = indices[i];
            assert(indices@.to_set().contains(index));
            assert(self.updates@.dom().contains(index));
            let update = self.updates.get(&index).unwrap();

            // Next, validate share updates against their corresponding target validators
            update.verify(validator_public_keys.get(&index).unwrap()).unwrap();

            // Finally, validate update commitments against update polynomial commitments
            if index as u64 >= reconstructed_commitments.len() as u64 {
                return Err(Error::InvalidShareIndex(index));
            }
            let expected_commitment = &reconstructed_commitments[index as usize];
            if !expected_commitment.equals(&update.commitment) {
                assert(false);
                return Err(Error::InvalidShareUpdate);
            }
            i += 1;
        }
        assert forall|k: u32| #[trigger] self.updates@.dom().contains(k) implies k < domain@.len() by {
            assert(indices@.to_set().contains(k));
            assert(indices@.contains(k));
        }

        // Validate update polynomial commitments C_i are consistent with the type of update
        // * For refresh  (root 0): f(0) = 0  ==>  a_0 = 0  ==>  C_0 = [0]G = 1
        // * For recovery (root z): f(z) = 0  ==>  sum{a_i * z^i} = 0  ==>  sum{[z^i]C_i} = 1
        if self.vanishes_at(root) {
            Ok(true)
        } else {
            assert(false);
            Err(Error::InvalidShareUpdate)
        }
    }

    /// Whether there is a committed polynomial that vanishes at `root`.
    pub fn vanishes_at(&self, root: &Scalar) -> (r: bool)
        ensures
            r == self.has_root(root@),
    {
        if self.coeffs.len() == 0 {
            return false;
        }
        if root.is_zero() {
            // Refresh
            proof {
                let first = self.coeffs@[0];
                first.lemma_range();
                lemma_residue(0);
                assert(eval(logs(self.coeffs@), 0) == first@);
            }
            self.coeffs[0].is_zero()
        } else {
            // Recovery
            proof {
                lemma_residue(0);
            }
            evaluate_commitments(&self.coeffs, root).is_zero()
        }
    }

    /// Whether the transcript can be judged: see [`Self::can_be_judged`].
    pub fn is_judgeable(
        &self,
        validator_public_keys: &HashMap<u32, PublicKey>,
        domain: &EvaluationDomain,
        root: &Scalar,
    ) -> (r: bool)
        ensures
            r == self.can_be_judged(validator_public_keys@, domain@, root@),
    {
        broadcast use group_hash_axioms;

        let reconstructed_commitments = domain.evaluate_points(&self.coeffs);
        let indices = keys_of(&self.updates);
        let mut within = true;
        let mut i: usize = 0;
        while i < indices.len()
            invariant
                i <= indices.len(),
                indices@.to_set() == self.updates@.dom(),
                reconstructed_commitments.len() == domain@.len(),
                forall|j: int|
                    0 <= j < domain@.len() ==> (#[trigger] reconstructed_commitments[j])@ == residue(
                        value_on_domain(logs(self.coeffs@), domain@, j),
                    ),
                forall|j: int|
                    0 <= j < i ==> {
                        let index = #[trigger] indices@[j];
                        let update = self.updates@[index];
                        &&& validator_public_keys@.dom().contains(index)
                        &&& update.is_valid(validator_public_keys@[index])
                        &&& index < domain@.len() ==> update.commitment@ == residue(
                            value_on_domain(logs(self.coeffs@), domain@, index as int),
                        )
                    },
                within == (forall|j: int| 0 <= j < i ==> (#[trigger] indices@[j]) < domain@.len()),
            decreases indices.len() - i,
        {
            let index = indices[i];
            assert(indices@.to_set().contains(index));
            assert(self.updates@.dom().contains(index));
            let update = self.updates.get(&index).unwrap();
            match validator_public_keys.get(&index) {
                None => {
                    return false;
                },
                Some(public_key) => {
                    if update.verify(public_key).is_err() {
                        return false;
                    }
                },
            }
            if index as u64 >= reconstructed_commitments.len() as u64 {
                within = false;
            } else {
                let expected_commitment = &reconstructed_commitments[index as usize];
                if !expected_commitment.equals(&update.commitment) {
                    return false;
                }
            }
            i += 1;
        }
        assert forall|k: u32| #[trigger] self.updates@.dom().contains(k) implies indices@.contains(
            k,
        ) by {
            assert(indices@.to_set().contains(k));
        }
        proof {
            if !within {
                let j = choose|j: int| 0 <= j < indices.len() && (#[trigger] indices@[j])
                    >= domain@.len();
                assert(indices@.to_set().contains(indices@[j]));
            }
        }
        assert(within == self.indices_within(domain@));
        !within || self.vanishes_at(root)
    }

    /// As [`Self::verify_recovery`], or nothing where the transcript cannot be judged.
    pub fn try_verify_recovery(
        &self,
        validator_public_keys: &HashMap<u32, PublicKey>,
        domain: &EvaluationDomain,
        root: &Scalar,
    ) -> (r: Option<Result<bool, Error>>)
        ensures
            r is Some <==> self.can_be_judged(validator_public_keys@, domain@, root@),
            r matches Some(Ok(verdict)) ==> verdict && self.indices_within(domain@),
            r matches Some(Err(e)) ==> {
                &&& e matches Error::InvalidShareIndex(i)
                &&& self.updates@.dom().contains(i)
                &&& i >= domain@.len()
            },
    {
        if self.is_judgeable(validator_public_keys, domain, root) {
            Some(self.verify_recovery(validator_public_keys, domain, root))
        } else {
            None
        }
    }

    /// Verifies a transcript that was dealt for a refresh: its polynomial vanishes at zero.
    pub fn verify_refresh(
        &self,
        validator_public_keys: &HashMap<u32, PublicKey>,
        domain: &EvaluationDomain,
    ) -> (r: Result<bool, Error>)
        requires
            self.can_be_judged(validator_public_keys@, domain@, 0),
        ensures
            r is Ok <==> self.indices_within(domain@),
            r matches Ok(verdict) ==> verdict,
            r matches Err(e) ==> {
                &&& e matches Error::InvalidShareIndex(i)
                &&& self.updates@.dom().contains(i)
                &&& i >= domain@.len()
            },
    {
        self.verify_recovery(validator_public_keys, domain, &Scalar::zero())
    }

    /// As [`Self::verify_refresh`], or nothing where the transcript cannot be judged.
    pub fn try_verify_refresh(
        &self,
        validator_public_keys: &HashMap<u32, PublicKey>,
        domain: &EvaluationDomain,
    ) -> (r: Option<Result<bool, Error>>)
        ensures
            r is Some <==> self.can_be_judged(validator_public_keys@, domain@, 0),
            r matches Some(Ok(verdict)) ==> verdict && self.indices_within(domain@),
            r matches Some(Err(e)) ==> {
                &&& e matches Error::InvalidShareIndex(i)
                &&& self.updates@.dom().contains(i)
                &&& i >= domain@.len()
            },
    {
        if self.is_judgeable(validator_public_keys, domain, &Scalar::zero()) {
            Some(self.verify_refresh(validator_public_keys, domain))
        } else {
            None
        }
    }

    /// Deals a random update polynomial of degree `threshold - 1` that vanishes at zero. But for
    /// the free term it is the one that the generator yields.
    pub fn create_refresh_updates(
        domain_points_and_keys: &HashMap<u32, (DomainPoint, PublicKey)>,
        threshold: u32,
        rng: &mut StdRng,
    ) -> (r: UpdateTranscript)
        requires
            threshold >= 1,
        ensures
            exists|c: Seq<int>|
                {
                    &&& #[trigger] r.deals(c, domain_points_and_keys@)
                    &&& c.len() == threshold
                    &&& c[0] == 0
                    &&& threshold >= 2 ==> c.last() != 0
                },
            exists|m: &mut StdRng, drawn: Vec<Scalar>|
                {
                    &&& #[trigger] call_ensures(
                        random_polynomial,
                        ((threshold - 1) as u32, m),
                        drawn,
                    )
                    &&& *m == *old(rng)
                    &&& *final(m) == *final(rng)
                    &&& r.deals(values(drawn@).update(0, 0), domain_points_and_keys@)
                },
    {
        // Update polynomial has root at 0
        let r = prepare_share_updates_with_root(
            domain_points_and_keys,
            &DomainPoint::zero(),
            threshold,
            rng,
        );
        proof {
            let c = choose|c: Seq<int>|
                {
                    &&& #[trigger] r.deals(c, domain_points_and_keys@)
                    &&& c.len() == threshold
                    &&& cong(eval(c, 0), 0)
                    &&& threshold >= 2 ==> c.last() != 0
                };
            assert(eval(c, 0) == c[0]);
            lemma_residue(c[0]);
            lemma_residue(0);
            let first = r.coeffs@[0];
            first.lemma_range();
            assert(c[0] == logs(r.coeffs@)[0]);
            assert forall|rest: Seq<int>| #[trigger] free_term(rest, 0) == 0 by {
                assert(-(0 * eval(rest, 0)) == 0);
            }
        }
        r
    }
}

/// The free term with which a polynomial that goes on with the coefficients `rest` vanishes at
/// `root`.
pub open spec fn free_term(rest: Seq<int>, root: int) -> int {
    residue(-(root * eval(rest, root)))
}

/// The value at `x` of the polynomial whose coefficients are the given points.
pub fn evaluate_commitments(coeffs: &Vec<G1Point>, x: &Scalar) -> (r: G1Point)
    requires
        coeffs.len() > 0,
    ensures
        r@ == residue(eval(logs(coeffs@), x@)),
{
    let ghost c = logs(coeffs@);
    let mut i: usize = coeffs.len() - 1;
    let mut acc = coeffs[i];
    proof {
        acc.lemma_range();
        lemma_eval_last(c, x@);
    }
    while i > 0
        invariant
            i < coeffs.len(),
            c == logs(coeffs@),
            acc@ == residue(eval(c.skip(i as int), x@)),
        decreases i,
    {
        i -= 1;
        proof {
            let tail = c.skip(i + 1);
            let (v, y) = (eval(tail, x@), x@);
            assert(c.skip(i as int).drop_first() =~= tail);
            lemma_cong_residue(v);
            lemma_cong_ops(residue(v), v, y, y);
            lemma_cong_residue(residue(v) * y);
            lemma_cong_ops(c[i as int], c[i as int], residue(residue(v) * y), v * y);
            assert(v * y == y * v) by (nonlinear_arith);
        }
        acc = coeffs[i].plus(&acc.times(x));
    }
    assert(c.skip(0) =~= c);
    acc
}

/// The last coefficient alone is a constant polynomial.
proof fn lemma_eval_last(c: Seq<int>, x: int)
    requires
        c.len() > 0,
    ensures
        eval(c.skip(c.len() - 1), x) == c.last(),
{
    let tail = c.skip(c.len() - 1);
    assert(eval(tail.drop_first(), x) == 0);
    assert(x * 0 == 0) by (nonlinear_arith);
}

/// Prepare share updates with a given root (0 for refresh, some x coord for recovery):
/// a random polynomial of degree `threshold - 1` with that root, evaluated at the point of each
/// of the participants.
pub fn prepare_share_updates_with_root(
    domain_points_and_keys: &HashMap<u32, (DomainPoint, PublicKey)>,
    root: &DomainPoint,
    threshold: u32,
    rng: &mut StdRng,
) -> (r: UpdateTranscript)
    requires
        threshold >= 1,
    ensures
        exists|c: Seq<int>|
            {
                &&& #[trigger] r.deals(c, domain_points_and_keys@)
                &&& c.len() == threshold
                &&& cong(eval(c, root@), 0)
                &&& threshold >= 2 ==> c.last() != 0
            },
        exists|m: &mut StdRng, drawn: Vec<Scalar>|
            {
                &&& #[trigger] call_ensures(random_polynomial, ((threshold - 1) as u32, m), drawn)
                &&& *m == *old(rng)
                &&& *final(m) == *final(rng)
                &&& r.deals(
                    values(drawn@).update(0, free_term(values(drawn@).drop_first(), root@)),
                    domain_points_and_keys@,
                )
            },
{
    let update_poly = make_random_polynomial_with_root(threshold - 1, root, rng);
    let r = share_updates_for_polynomial(domain_points_and_keys, &update_poly);
    assert(r.deals(values(update_poly@), domain_points_and_keys@));
    r
}

/// The transcript that deals the polynomial with the given coefficients.
pub fn share_updates_for_polynomial(
    domain_points_and_keys: &HashMap<u32, (DomainPoint, PublicKey)>,
    update_poly: &Vec<Scalar>,
) -> (r: UpdateTranscript)
    ensures
        r.deals(values(update_poly@), domain_points_and_keys@),
{
    broadcast use group_hash_axioms;

    // Commit to the update polynomial
    let g = G1Point::generator();
    let coeffs = batch_times(&g, update_poly);
    let ghost c = values(update_poly@);
    assert(logs(coeffs@) =~= c) by {
        assert forall|i: int| 0 <= i < coeffs.len() implies (#[trigger] coeffs[i])@ == c[i] by {
            update_poly[i].lemma_range();
            assert(1 * c[i] == c[i]);
        }
    }

    // Now, we need to evaluate the polynomial at each of participants' points
    let indices = keys_of(domain_points_and_keys);
    let mut updates: HashMap<u32, ShareUpdate> = HashMap::new();
    proof {
        assert(updates@.dom() =~= indices@.take(0).to_set());
    }
    let mut i: usize = 0;
    while i < indices.len()
        invariant
            i <= indices.len(),
            indices@.no_duplicates(),
            indices@.to_set() == domain_points_and_keys@.dom(),
            g@ == 1,
            c == values(update_poly@),
            forall|k: u32| #[trigger]
                updates@.dom().contains(k) <==> indices@.take(i as int).contains(k),
            forall|k: u32| #[trigger]
                updates@.dom().contains(k) ==> {
                    &&& updates@[k].commitment@ == residue(
                        eval(c, domain_points_and_keys@[k].0@),
                    )
                    &&& updates@[k].is_valid(domain_points_and_keys@[k].1)
                },
        decreases indices.len() - i,
    {
        let share_index = indices[i];
        assert(indices@.to_set().contains(share_index));
        assert(domain_points_and_keys@.dom().contains(share_index));
        let (x_i, pubkey_i) = domain_points_and_keys.get(&share_index).unwrap();
        let value = evaluate(update_poly, x_i);
        let update = pubkey_i.encryption_key.times(&value);
        let commitment = g.times(&value);
        proof {
            value.lemma_range();
            assert(1 * value@ == value@);
            assert(pubkey_i.encryption_key@ * value@ == value@ * pubkey_i.encryption_key@)
                by (nonlinear_arith);
            let before = indices@.take(i as int);
            let after = indices@.take(i + 1);
            assert(after =~= before.push(share_index));
            assert forall|k: u32| after.contains(k) <==> before.contains(k) || k == share_index by {
                if before.contains(k) {
                    assert(after[before.index_of(k)] == k);
                }
                assert(after[i as int] == share_index);
            }
        }
        updates.insert(share_index, ShareUpdate { update, commitment });
        i += 1;
    }
    assert(indices@.take(indices.len() as int) =~= indices@);
    assert forall|k: u32| domain_points_and_keys@.dom().contains(k) <==> updates@.dom().contains(k) by {
        assert(indices@.to_set().contains(k) <==> indices@.contains(k));
    }
    assert(updates@.dom() =~= domain_points_and_keys@.dom());
    UpdateTranscript { coeffs, updates }
}

/// Generate a random polynomial with a given root
pub fn make_random_polynomial_with_root(
    degree: u32,
    root: &DomainPoint,
    rng: &mut StdRng,
) -> (r: Vec<Scalar>)
    requires
        degree < u32::MAX,
    ensures
        r.len() == degree + 1,
        cong(eval(values(r@), root@), 0),
        degree >= 1 ==> r@.last()@ != 0,
        exists|m: &mut StdRng, drawn: Vec<Scalar>|
            {
                &&& #[trigger] call_ensures(random_polynomial, (degree, m), drawn)
                &&& *m == *old(rng)
                &&& *final(m) == *final(rng)
                &&& values(r@) == values(drawn@).update(
                    0,
                    free_term(values(drawn@).drop_first(), root@),
                )
            },
{
    // [c_0, c_1, ..., c_{degree}] (Random polynomial)
    let poly = random_polynomial(degree, rng);
    let ghost drawn = poly;
    let r = polynomial_with_root(poly, root);
    assert(values(r@) =~= values(drawn@).update(
        0,
        free_term(values(drawn@).drop_first(), root@),
    ));
    r
}

/// Replaces the free term of a polynomial so that it vanishes at `root`.
pub fn polynomial_with_root(poly: Vec<Scalar>, root: &DomainPoint) -> (r: Vec<Scalar>)
    requires
        poly.len() > 0,
    ensures
        r.len() == poly.len(),
        forall|i: int| 1 <= i < poly.len() ==> (#[trigger] r[i]) == poly[i],
        r[0]@ == residue(-(root@ * eval(values(poly@).drop_first(), root@))),
        cong(eval(values(r@), root@), 0),
{
    let mut poly = poly;
    let ghost rest = values(poly@).drop_first();
    let ghost v = root@ * eval(rest, root@);

    // [0, c_1, ... , c_{degree}]  (We zeroize the free term)
    poly.set(0, Scalar::zero());
    assert(values(poly@).drop_first() =~= rest);

    // Now, we calculate a new free term so that `poly(root) = 0`
    let new_c_0 = Scalar::zero().minus(&evaluate(&poly, root));
    proof {
        lemma_cong_residue(v);
        lemma_cong_ops(0, 0, residue(v), v);
    }
    poly.set(0, new_c_0);
    assert(values(poly@).drop_first() =~= rest);
    proof {
        lemma_cong_residue(-v);
        lemma_cong_ops(residue(-v), -v, v, v);
    }
    poly
}

} // verus!
