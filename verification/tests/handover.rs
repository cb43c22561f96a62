use std::collections::HashMap;

use ark_std::rand::rngs::StdRng;
use ark_std::rand::SeedableRng;
use ferveo::curve::{G1Point, G2Point};
use ferveo::domain::EvaluationDomain;
use ferveo::key_share::{
    lagrange_basis_at, BlindedKeyShare, PrivateKeyShare, ShareCommitment,
};
use ferveo::keypair::Keypair;
use ferveo::scalar::{evaluate, random_polynomial, DomainPoint, Scalar};
use ferveo::{Error, HandoverTranscript};

fn scalar(n: u64) -> Scalar {
    Scalar::from_u64(n)
}

fn g1(n: u64) -> G1Point {
    G1Point::generator().times(&scalar(n))
}

fn g2(n: u64) -> G2Point {
    G2Point::generator().times(&scalar(n))
}

fn keypair(n: u64) -> Keypair {
    Keypair { decryption_key: scalar(n) }
}

/// The share 7 under the key 5.
fn outgoing_share() -> BlindedKeyShare {
    BlindedKeyShare { validator_public_key: g2(5), blinded_key_share: g2(35) }
}

/// The handover of the share 7 from the key 5 to the key 11, with 13 as the random scalar.
fn transcript() -> HandoverTranscript {
    HandoverTranscript::with_scalar(
        2,
        &outgoing_share(),
        keypair(5).public_key(),
        &keypair(11),
        &scalar(13),
    )
}

/// 2 parties follow a handover protocol. The output is a new blind share
/// that replaces the original share, using the same domain point
/// but different validator key.
#[test]
fn tdec_simple_variant_share_handover_4() {
    let shares_num = 4;
    let rng = &mut StdRng::seed_from_u64(0);
    let domain = EvaluationDomain::new(shares_num).unwrap();
    let poly = random_polynomial(shares_num as u32 - 1, rng);
    let points: Vec<DomainPoint> = (0..shares_num).map(|i| domain.element(i)).collect();
    let keypairs: Vec<Keypair> =
        (0..shares_num).map(|_| Keypair { decryption_key: Scalar::random(rng) }).collect();
    let values: Vec<Scalar> = points.iter().map(|x| evaluate(&poly, x)).collect();
    let shares: Vec<BlindedKeyShare> = (0..shares_num)
        .map(|i| BlindedKeyShare {
            validator_public_key: keypairs[i].public_key().encryption_key,
            blinded_key_share: G2Point::generator()
                .times(&values[i])
                .times(&keypairs[i].decryption_key),
        })
        .collect();
    let shared_private_key = PrivateKeyShare(G2Point::generator().times(&poly[0]));

    // New participant that will receive the handover
    let incoming = Keypair { decryption_key: Scalar::random(rng) };

    // For simplicity, we're going to do the handover with the last participant
    let slot = shares_num - 1;
    let commitment = ShareCommitment(G1Point::generator().times(&values[slot]));

    // Incoming node creates a handover transcript
    let transcript = HandoverTranscript::new(
        slot as u32,
        &shares[slot],
        keypairs[slot].public_key(),
        &incoming,
        rng,
    );

    // Make sure handover transcript is valid. This is publicly verifiable.
    assert!(transcript.validate(commitment).unwrap());

    let new_blinded_share = transcript.finalize(&keypairs[slot], commitment).unwrap();
    assert_eq!(new_blinded_share.validator_public_key, incoming.public_key().encryption_key);
    assert_ne!(new_blinded_share.blinded_key_share, shares[slot].blinded_key_share);

    let old_private_share = shares[slot].unblind(&keypairs[slot]).unwrap();
    let new_private_share = new_blinded_share.unblind(&incoming).unwrap();
    assert_eq!(new_private_share, old_private_share);

    // The private shares of the other participants plus the one obtained after handover
    // reconstruct the shared private key.
    let mut shares_map: HashMap<usize, PrivateKeyShare> =
        (0..slot).map(|i| (i, shares[i].unblind(&keypairs[i]).unwrap())).collect();
    shares_map.insert(slot, new_private_share);
    let lagrange = lagrange_basis_at(&points, &Scalar::zero());
    let mut sum = g2(0);
    for i in 0..shares_num {
        sum = sum.plus(&shares_map[&i].0.times(&lagrange[i]));
    }
    assert_eq!(PrivateKeyShare(sum), shared_private_key);
}

#[test]
fn transcript_holds_the_blinded_values() {
    let transcript = transcript();
    assert_eq!(transcript.share_index, 2);
    assert_eq!(transcript.double_blind_share, g2(35 * 11));
    assert_eq!(transcript.commitment_to_share, g2(5 * 11 * 13));
    assert_eq!(transcript.commitment_to_g1, g1(13));
    assert_eq!(transcript.commitment_to_g2, g2(13));
    assert_eq!(transcript.incoming_pubkey, keypair(11).public_key());
    assert_eq!(transcript.outgoing_pubkey, keypair(5).public_key());
}

#[test]
fn transcripts_with_other_randomness_differ_and_validate() {
    let rng = &mut StdRng::seed_from_u64(1);
    let mut new = || {
        HandoverTranscript::new(
            2,
            &outgoing_share(),
            keypair(5).public_key(),
            &keypair(11),
            rng,
        )
    };
    let (a, b) = (new(), new());
    assert_ne!(a, b);
    assert!(a.validate(ShareCommitment(g1(7))).unwrap());
    assert!(b.validate(ShareCommitment(g1(7))).unwrap());
}

#[test]
fn honest_transcript_validates_against_its_commitment_only() {
    assert!(transcript().validate(ShareCommitment(g1(7))).unwrap());
    let error = transcript().validate(ShareCommitment(g1(8))).unwrap_err();
    assert!(matches!(error, Error::InvalidShareUpdate));
    assert_eq!(error.message(), "Invalid share update");
}

#[test]
fn forged_transcripts_do_not_validate() {
    let commitment = ShareCommitment(g1(7));

    let mut forged = transcript();
    forged.double_blind_share = g2(36 * 11);
    assert!(matches!(forged.validate(commitment), Err(Error::InvalidShareUpdate)));

    let mut forged = transcript();
    forged.commitment_to_share = g2(5 * 11 * 14);
    assert!(matches!(forged.validate(commitment), Err(Error::InvalidShareUpdate)));

    let mut forged = transcript();
    forged.commitment_to_g1 = g1(14);
    assert!(matches!(forged.validate(commitment), Err(Error::InvalidShareUpdate)));

    let mut forged = transcript();
    forged.commitment_to_g2 = g2(14);
    assert!(matches!(forged.validate(commitment), Err(Error::InvalidShareUpdate)));
}

#[test]
fn identity_commitments_are_refused() {
    // they would meet the pairing equations for every share and every commitment
    let mut forged = transcript();
    forged.commitment_to_g1 = G1Point::zero();
    forged.commitment_to_g2 = G2Point::zero();
    forged.commitment_to_share = G2Point::zero();
    for n in [0, 7, 8] {
        let commitment = ShareCommitment(g1(n));
        assert!(matches!(forged.validate(commitment), Err(Error::InvalidShareUpdate)));
        assert!(forged.try_finalize(&keypair(5), commitment).is_none());
    }
}

#[test]
fn identity_share_with_an_identity_commitment_is_refused() {
    let mut forged = transcript();
    forged.double_blind_share = G2Point::zero();
    forged.commitment_to_share = G2Point::zero();
    for n in [0, 7, 8] {
        let commitment = ShareCommitment(g1(n));
        assert!(matches!(forged.validate(commitment), Err(Error::InvalidShareUpdate)));
        assert!(forged.try_finalize(&keypair(5), commitment).is_none());
    }
}

#[test]
fn handover_with_a_zero_scalar_is_refused() {
    let zero = HandoverTranscript::with_scalar(
        2,
        &outgoing_share(),
        keypair(5).public_key(),
        &keypair(11),
        &Scalar::zero(),
    );
    assert!(matches!(zero.validate(ShareCommitment(g1(7))), Err(Error::InvalidShareUpdate)));
}

#[test]
fn handover_of_a_zero_share_is_accepted() {
    let share = BlindedKeyShare { validator_public_key: g2(5), blinded_key_share: g2(0) };
    let transcript = HandoverTranscript::with_scalar(
        2,
        &share,
        keypair(5).public_key(),
        &keypair(11),
        &scalar(13),
    );
    assert!(transcript.validate(ShareCommitment(g1(0))).unwrap());
    assert!(transcript.validate(ShareCommitment(g1(7))).is_err());
}

#[test]
fn valid_transcript_is_bound_to_the_committed_share() {
    // 17 in place of 11 for the incoming key, in both places
    let mut other = transcript();
    other.double_blind_share = g2(35 * 17);
    other.commitment_to_share = g2(5 * 17 * 13);
    assert!(other.validate(ShareCommitment(g1(7))).unwrap());
    let share = other.finalize(&keypair(5), ShareCommitment(g1(7))).unwrap();
    assert_eq!(share.blinded_key_share, g2(7 * 17));
}

#[test]
fn finalized_share_is_the_same_share_under_the_incoming_key() {
    let share = transcript().finalize(&keypair(5), ShareCommitment(g1(7))).unwrap();
    assert_eq!(
        share,
        BlindedKeyShare { validator_public_key: g2(11), blinded_key_share: g2(7 * 11) }
    );
    assert_eq!(share.unblind(&keypair(11)).unwrap(), PrivateKeyShare(g2(7)));
}

#[test]
fn invalid_handover_is_not_finalized() {
    let commitment = ShareCommitment(g1(7));
    assert!(transcript().try_finalize(&keypair(5), commitment).unwrap().is_ok());
    assert!(transcript().try_finalize(&keypair(5), ShareCommitment(g1(8))).is_none());
    assert!(transcript().try_finalize(&keypair(0), commitment).is_none());
}

#[test]
fn share_under_a_zero_key_cannot_be_unblinded() {
    assert!(outgoing_share().unblind(&keypair(0)).is_none());
    assert_eq!(outgoing_share().unblind(&keypair(5)).unwrap(), PrivateKeyShare(g2(7)));
}
