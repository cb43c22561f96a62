use std::collections::HashMap;

use ark_std::rand::rngs::StdRng;
use ark_std::rand::SeedableRng;
use ferveo::curve::{G1Point, G2Point};
use ferveo::domain::EvaluationDomain;
use ferveo::key_share::{lagrange_basis_at, BlindedKeyShare, PrivateKeyShare};
use ferveo::keypair::{Keypair, PublicKey};
use ferveo::scalar::{evaluate, random_polynomial, DomainPoint, Scalar};
use ferveo::refresh::{
    evaluate_commitments, make_random_polynomial_with_root, polynomial_with_root,
    prepare_share_updates_with_root, share_updates_for_polynomial,
};
use ferveo::{Error, ShareUpdate, UpdatableBlindedKeyShare, UpdateTranscript};

/// A committee that shares the key polynomial `poly`.
struct Committee {
    domain: EvaluationDomain,
    secret: PrivateKeyShare,
    keypairs: Vec<Keypair>,
    shares: Vec<BlindedKeyShare>,
}

impl Committee {
    fn new(shares_num: usize, threshold: usize, rng: &mut StdRng) -> Committee {
        let domain = EvaluationDomain::new(shares_num).unwrap();
        let poly = random_polynomial(threshold as u32 - 1, rng);
        let g2 = G2Point::generator();
        let mut keypairs = vec![];
        let mut shares = vec![];
        for i in 0..shares_num {
            let keypair = Keypair { decryption_key: Scalar::random(rng) };
            let value = evaluate(&poly, &domain.element(i));
            shares.push(BlindedKeyShare {
                validator_public_key: keypair.public_key().encryption_key,
                blinded_key_share: g2.times(&value).times(&keypair.decryption_key),
            });
            keypairs.push(keypair);
        }
        let secret = PrivateKeyShare(g2.times(&poly[0]));
        Committee { domain, secret, keypairs, shares }
    }

    fn points_and_keys(&self) -> HashMap<u32, (DomainPoint, PublicKey)> {
        (0..self.shares.len())
            .map(|i| (i as u32, (self.domain.element(i), self.keypairs[i].public_key())))
            .collect()
    }

    fn keys(&self) -> HashMap<u32, PublicKey> {
        (0..self.shares.len()).map(|i| (i as u32, self.keypairs[i].public_key())).collect()
    }

    fn points(&self) -> HashMap<u32, DomainPoint> {
        (0..self.shares.len()).map(|i| (i as u32, self.domain.element(i))).collect()
    }
}

/// `x_r` is the point at which the share is to be recovered
fn combine_private_shares_at(
    x_r: &DomainPoint,
    domain_points: &HashMap<u32, DomainPoint>,
    shares: &HashMap<u32, PrivateKeyShare>,
) -> PrivateKeyShare {
    let mut indices: Vec<u32> = shares.keys().copied().collect();
    indices.sort();
    let points: Vec<DomainPoint> = indices.iter().map(|i| domain_points[i]).collect();
    let lagrange = lagrange_basis_at(&points, x_r);
    let mut sum = G2Point::generator().times(&Scalar::zero());
    for (i, l) in indices.iter().zip(lagrange.iter()) {
        sum = sum.plus(&shares[i].0.times(l));
    }
    PrivateKeyShare(sum)
}

/// Each participant prepares an update transcript for each other participant.
fn deal(committee: &Committee, threshold: usize, rng: &mut StdRng) -> HashMap<u32, UpdateTranscript> {
    let points_and_keys = committee.points_and_keys();
    (0..committee.shares.len() as u32)
        .map(|p| {
            let transcript =
                UpdateTranscript::create_refresh_updates(&points_and_keys, threshold as u32, rng);
            (p, transcript)
        })
        .collect()
}

/// Participants validate all the update transcripts.
fn transcripts_verify(shares_num: usize, security_threshold: usize) {
    let rng = &mut StdRng::seed_from_u64(0);
    let committee = Committee::new(shares_num, security_threshold, rng);
    let transcripts = deal(&committee, security_threshold, rng);
    let keys = committee.keys();
    for transcript in transcripts.values() {
        assert!(transcript.verify_refresh(&keys, &committee.domain).unwrap());
    }
}

/// Ñ parties (where t <= Ñ <= N) jointly execute a "share refresh" algorithm.
/// The output is M new shares (with M <= Ñ), with each of the M new shares substituting the
/// original share (i.e., the original share is deleted).
fn share_refreshing(shares_num: usize, security_threshold: usize) {
    let rng = &mut StdRng::seed_from_u64(0);
    let committee = Committee::new(shares_num, security_threshold, rng);
    let transcripts = deal(&committee, security_threshold, rng);

    // Participants refresh their shares with the updates from each other. We only need
    // `threshold` refreshed shares to recover the original share
    let mut refreshed = HashMap::new();
    for i in 0..security_threshold {
        let share = UpdatableBlindedKeyShare::new(committee.shares[i]);
        let updated = share.apply_share_updates(&transcripts, i as u32);
        assert_ne!(updated.0.blinded_key_share, share.0.blinded_key_share);
        assert_eq!(updated.0.validator_public_key, share.0.validator_public_key);
        refreshed.insert(i as u32, updated.0.unblind(&committee.keypairs[i]).unwrap());
    }

    let x_r = Scalar::zero();
    let new_secret = combine_private_shares_at(&x_r, &committee.points(), &refreshed);
    assert_eq!(committee.secret, new_secret);
}

#[test]
fn tdec_simple_variant_share_refreshing_4_3() {
    share_refreshing(4, 3);
}

#[test]
fn tdec_simple_variant_transcripts_verify_4_3() {
    transcripts_verify(4, 3);
}

#[test]
fn tdec_simple_variant_share_refreshing_4_4() {
    share_refreshing(4, 4);
}

#[test]
fn tdec_simple_variant_transcripts_verify_4_4() {
    transcripts_verify(4, 4);
}

#[test]
fn tdec_simple_variant_share_refreshing_30_16() {
    share_refreshing(30, 16);
}

#[test]
fn tdec_simple_variant_transcripts_verify_30_16() {
    transcripts_verify(30, 16);
}

#[test]
fn tdec_simple_variant_share_refreshing_30_30() {
    share_refreshing(30, 30);
}

#[test]
fn tdec_simple_variant_transcripts_verify_30_30() {
    transcripts_verify(30, 30);
}

fn scalar(n: u64) -> Scalar {
    Scalar::from_u64(n)
}

fn minus(n: u64) -> Scalar {
    Scalar::zero().minus(&scalar(n))
}

fn g1(n: u64) -> G1Point {
    G1Point::generator().times(&scalar(n))
}

fn g2(n: u64) -> G2Point {
    G2Point::generator().times(&scalar(n))
}

fn transcripts_of(list: Vec<UpdateTranscript>) -> HashMap<u32, UpdateTranscript> {
    list.into_iter().enumerate().map(|(i, t)| (i as u32, t)).collect()
}

// Share updates

#[test]
fn update_is_valid_for_its_own_key_only() {
    let key = PublicKey { encryption_key: g2(5) };
    let update = ShareUpdate { update: g2(35), commitment: g1(7) };
    assert!(update.verify(&key).unwrap());
    let other = PublicKey { encryption_key: g2(6) };
    assert!(matches!(update.verify(&other), Err(Error::InvalidShareUpdate)));
}

#[test]
fn forged_update_is_refused() {
    let key = PublicKey { encryption_key: g2(5) };
    let update = ShareUpdate { update: g2(36), commitment: g1(7) };
    assert!(matches!(update.verify(&key), Err(Error::InvalidShareUpdate)));
}

#[test]
fn identity_update_is_valid() {
    let key = PublicKey { encryption_key: g2(5) };
    let update = ShareUpdate { update: g2(0), commitment: G1Point::zero() };
    assert!(update.verify(&key).unwrap());
}

#[test]
fn updates_compare_by_their_points() {
    let update = ShareUpdate { update: g2(35), commitment: g1(7) };
    assert_eq!(update, update.clone());
    assert_ne!(update, ShareUpdate { update: g2(35), commitment: g1(8) });
    assert_ne!(update, ShareUpdate { update: g2(34), commitment: g1(7) });
}

// Update polynomials

#[test]
fn free_term_makes_the_polynomial_vanish() {
    // 5 + 3x + 2x^2 becomes -44 + 3x + 2x^2, which vanishes at 4
    let poly = polynomial_with_root(vec![scalar(5), scalar(3), scalar(2)], &scalar(4));
    assert_eq!(poly, vec![minus(44), scalar(3), scalar(2)]);
    assert!(evaluate(&poly, &scalar(4)).is_zero());
}

#[test]
fn root_at_zero_clears_the_free_term() {
    let poly = polynomial_with_root(vec![scalar(5), scalar(3)], &Scalar::zero());
    assert_eq!(poly, vec![scalar(0), scalar(3)]);
}

#[test]
fn random_polynomial_has_its_degree_and_root() {
    let rng = &mut StdRng::seed_from_u64(1);
    for degree in 0..5 {
        let poly = make_random_polynomial_with_root(degree, &scalar(9), rng);
        assert_eq!(poly.len(), degree as usize + 1);
        assert!(evaluate(&poly, &scalar(9)).is_zero());
        assert_eq!(poly[degree as usize].is_zero(), degree == 0);
    }
}

#[test]
fn random_polynomials_differ() {
    let rng = &mut StdRng::seed_from_u64(2);
    let a = make_random_polynomial_with_root(3, &scalar(9), rng);
    let b = make_random_polynomial_with_root(3, &scalar(9), rng);
    assert_ne!(a, b);
}

#[test]
fn commitments_evaluate_in_the_exponent() {
    // 1 + 2x + 3x^2 at 10
    let coeffs = vec![g1(1), g1(2), g1(3)];
    assert_eq!(evaluate_commitments(&coeffs, &scalar(10)), g1(321));
    assert_eq!(evaluate_commitments(&vec![g1(8)], &scalar(10)), g1(8));
}

// Transcripts

#[test]
fn transcript_deals_the_polynomial() {
    let keypair = Keypair { decryption_key: scalar(5) };
    let mut points_and_keys = HashMap::new();
    points_and_keys.insert(3, (scalar(10), keypair.public_key()));
    points_and_keys.insert(8, (scalar(2), keypair.public_key()));
    let transcript = share_updates_for_polynomial(
        &points_and_keys,
        &vec![scalar(1), scalar(2), scalar(3)],
    );
    assert_eq!(transcript.coeffs, vec![g1(1), g1(2), g1(3)]);
    assert_eq!(transcript.updates.len(), 2);
    let at_10 = ShareUpdate { update: g2(321 * 5), commitment: g1(321) };
    let at_2 = ShareUpdate { update: g2(17 * 5), commitment: g1(17) };
    assert_eq!(transcript.updates[&3], at_10);
    assert_eq!(transcript.updates[&8], at_2);
}

#[test]
fn transcripts_do_not_depend_on_who_else_is_dealt_to() {
    let committee = Committee::new(4, 3, &mut StdRng::seed_from_u64(16));
    let all = committee.points_and_keys();
    let mut fewer = all.clone();
    fewer.remove(&0);
    fewer.remove(&2);
    let deal = |to: &HashMap<u32, (DomainPoint, PublicKey)>| {
        let rng = &mut StdRng::seed_from_u64(17);
        let transcript = UpdateTranscript::create_refresh_updates(to, 3, rng);
        (transcript, Scalar::random(rng))
    };
    let (first, next_of_first) = deal(&all);
    let (second, next_of_second) = deal(&fewer);
    assert_eq!(first.coeffs, second.coeffs);
    assert_eq!(first.updates[&1], second.updates[&1]);
    assert_eq!(first.updates[&3], second.updates[&3]);
    assert_eq!(second.updates.len(), 2);
    assert_eq!(next_of_first, next_of_second);
}

#[test]
fn honest_refresh_transcript_is_accepted() {
    let rng = &mut StdRng::seed_from_u64(3);
    let committee = Committee::new(4, 3, rng);
    let transcript = UpdateTranscript::create_refresh_updates(&committee.points_and_keys(), 3, rng);
    assert_eq!(transcript.coeffs.len(), 3);
    assert!(transcript.coeffs[0].is_zero());
    assert!(!transcript.coeffs[2].is_zero());
    let verdict = transcript.try_verify_refresh(&committee.keys(), &committee.domain);
    assert!(matches!(verdict, Some(Ok(true))));
}

#[test]
fn threshold_of_one_deals_nothing() {
    let rng = &mut StdRng::seed_from_u64(4);
    let committee = Committee::new(2, 1, rng);
    let transcript = UpdateTranscript::create_refresh_updates(&committee.points_and_keys(), 1, rng);
    assert_eq!(transcript.coeffs, vec![G1Point::zero()]);
    assert!(transcript.verify_refresh(&committee.keys(), &committee.domain).unwrap());
    let share = UpdatableBlindedKeyShare::new(committee.shares[1]);
    let updated = share.apply_share_updates(&transcripts_of(vec![transcript]), 1);
    assert_eq!(updated.0, share.0);
}

#[test]
fn index_outside_the_domain_is_an_error() {
    let rng = &mut StdRng::seed_from_u64(5);
    let committee = Committee::new(4, 3, rng);
    let mut points_and_keys = committee.points_and_keys();
    let mut keys = committee.keys();
    points_and_keys.insert(7, (scalar(11), committee.keypairs[0].public_key()));
    keys.insert(7, committee.keypairs[0].public_key());
    let transcript = UpdateTranscript::create_refresh_updates(&points_and_keys, 3, rng);
    let error = transcript.verify_refresh(&keys, &committee.domain).unwrap_err();
    assert!(matches!(error, Error::InvalidShareIndex(7)));
    assert_eq!(error.message(), "Invalid share index: 7");
    let verdict = transcript.try_verify_refresh(&keys, &committee.domain);
    assert!(matches!(verdict, Some(Err(Error::InvalidShareIndex(7)))));
}

#[test]
fn transcript_without_the_key_of_a_validator_cannot_be_judged() {
    let rng = &mut StdRng::seed_from_u64(6);
    let committee = Committee::new(4, 3, rng);
    let transcript = UpdateTranscript::create_refresh_updates(&committee.points_and_keys(), 3, rng);
    let mut keys = committee.keys();
    keys.remove(&2);
    assert!(transcript.try_verify_refresh(&keys, &committee.domain).is_none());
}

#[test]
fn forged_transcripts_cannot_be_judged() {
    let rng = &mut StdRng::seed_from_u64(7);
    let committee = Committee::new(4, 3, rng);
    let keys = committee.keys();
    let honest = UpdateTranscript::create_refresh_updates(&committee.points_and_keys(), 3, rng);

    // an update under another key
    let mut forged = honest.clone();
    let update = forged.updates[&0].clone();
    forged.updates.insert(1, update);
    assert!(forged.try_verify_refresh(&keys, &committee.domain).is_none());

    // a valid update of another value
    let mut forged = honest.clone();
    let key = committee.keypairs[1].decryption_key;
    let update = ShareUpdate { update: g2(7).times(&key), commitment: g1(7) };
    assert!(update.verify(&committee.keypairs[1].public_key()).unwrap());
    forged.updates.insert(1, update);
    assert!(forged.try_verify_refresh(&keys, &committee.domain).is_none());

    // other commitments
    let mut forged = honest.clone();
    forged.coeffs[1] = forged.coeffs[1].plus(&g1(1));
    assert!(forged.try_verify_refresh(&keys, &committee.domain).is_none());

    // no commitments at all
    let mut forged = honest.clone();
    forged.coeffs.clear();
    assert!(forged.try_verify_refresh(&keys, &committee.domain).is_none());
    let empty = UpdateTranscript { coeffs: vec![], updates: HashMap::new() };
    assert!(empty.try_verify_refresh(&keys, &committee.domain).is_none());
}

#[test]
fn polynomial_without_the_root_cannot_be_judged() {
    let rng = &mut StdRng::seed_from_u64(8);
    let committee = Committee::new(4, 3, rng);
    let poly = vec![scalar(1), scalar(2), scalar(3)];
    let transcript = share_updates_for_polynomial(&committee.points_and_keys(), &poly);
    assert!(!transcript.vanishes_at(&Scalar::zero()));
    assert!(transcript.try_verify_refresh(&committee.keys(), &committee.domain).is_none());
}

#[test]
fn more_coefficients_than_domain_elements_cannot_be_judged() {
    let rng = &mut StdRng::seed_from_u64(9);
    let committee = Committee::new(2, 2, rng);
    let poly = vec![scalar(0), scalar(2), scalar(3)];
    let transcript = share_updates_for_polynomial(&committee.points_and_keys(), &poly);
    assert!(transcript.try_verify_refresh(&committee.keys(), &committee.domain).is_none());
}

#[test]
fn transcripts_verify_on_cosets_and_mixed_radix_domains() {
    let rng = &mut StdRng::seed_from_u64(18);
    let subgroup = EvaluationDomain::mixed_radix(3).unwrap();
    let coset = subgroup.get_coset(&scalar(11)).unwrap();
    let other = EvaluationDomain::new(4).unwrap();
    for domain in [subgroup, coset] {
        let mut points_and_keys = HashMap::new();
        let mut keys = HashMap::new();
        for i in 0..3u32 {
            let key = Keypair { decryption_key: Scalar::random(rng) }.public_key();
            points_and_keys.insert(i, (domain.element(i as usize), key));
            keys.insert(i, key);
        }
        let transcript = UpdateTranscript::create_refresh_updates(&points_and_keys, 2, rng);
        assert!(transcript.verify_refresh(&keys, &domain).unwrap());
        assert!(transcript.try_verify_refresh(&keys, &other).is_none());
    }
}

#[test]
fn recovery_transcript_preserves_the_value_at_its_root() {
    let rng = &mut StdRng::seed_from_u64(10);
    let committee = Committee::new(4, 3, rng);
    let root = scalar(77);
    let keys = committee.keys();
    let transcript =
        prepare_share_updates_with_root(&committee.points_and_keys(), &root, 3, rng);
    assert!(transcript.vanishes_at(&root));
    assert!(!transcript.vanishes_at(&scalar(78)));
    assert!(transcript.verify_recovery(&keys, &committee.domain, &root).unwrap());
    assert!(transcript.try_verify_recovery(&keys, &committee.domain, &scalar(78)).is_none());
    assert!(transcript.try_verify_refresh(&keys, &committee.domain).is_none());

    let transcripts = transcripts_of(vec![transcript]);
    let mut before = HashMap::new();
    let mut after = HashMap::new();
    for i in 0..3 {
        let share = UpdatableBlindedKeyShare::new(committee.shares[i]);
        let updated = share.apply_share_updates(&transcripts, i as u32);
        before.insert(i as u32, share.0.unblind(&committee.keypairs[i]).unwrap());
        after.insert(i as u32, updated.0.unblind(&committee.keypairs[i]).unwrap());
    }
    let points = committee.points();
    assert_eq!(
        combine_private_shares_at(&root, &points, &before),
        combine_private_shares_at(&root, &points, &after),
    );
    let zero = Scalar::zero();
    assert_ne!(
        combine_private_shares_at(&zero, &points, &before),
        combine_private_shares_at(&zero, &points, &after),
    );
}

// Applying updates

#[test]
fn updates_add_to_the_share() {
    let keypair = Keypair { decryption_key: scalar(5) };
    let mut points_and_keys = HashMap::new();
    points_and_keys.insert(0, (scalar(10), keypair.public_key()));
    let first = share_updates_for_polynomial(&points_and_keys, &vec![scalar(0), scalar(2)]);
    let second = share_updates_for_polynomial(&points_and_keys, &vec![scalar(0), scalar(3)]);
    let share = UpdatableBlindedKeyShare::new(BlindedKeyShare {
        validator_public_key: keypair.public_key().encryption_key,
        blinded_key_share: g2(100 * 5),
    });
    let updated = share.apply_share_updates(&transcripts_of(vec![first, second]), 0);
    assert_eq!(updated.0.blinded_key_share, g2(150 * 5));
    assert_eq!(updated.0.unblind(&keypair).unwrap(), PrivateKeyShare(g2(150)));
}

#[test]
fn updates_can_be_applied_in_batches() {
    let rng = &mut StdRng::seed_from_u64(11);
    let committee = Committee::new(4, 3, rng);
    let points_and_keys = committee.points_and_keys();
    let all = transcripts_of(
        (0..3).map(|_| UpdateTranscript::create_refresh_updates(&points_and_keys, 3, rng)).collect(),
    );
    let mut rest = all.clone();
    let first: HashMap<u32, UpdateTranscript> =
        vec![(1, rest.remove(&1).unwrap())].into_iter().collect();
    let share = UpdatableBlindedKeyShare::new(committee.shares[2]);
    let at_once = share.apply_share_updates(&all, 2);
    let in_batches = share.apply_share_updates(&first, 2).apply_share_updates(&rest, 2);
    assert_eq!(at_once.0, in_batches.0);
}

#[test]
fn no_updates_change_nothing() {
    let rng = &mut StdRng::seed_from_u64(12);
    let committee = Committee::new(2, 2, rng);
    let share = UpdatableBlindedKeyShare::new(committee.shares[0]);
    let updated = share.try_apply_share_updates(&HashMap::new(), 0).unwrap();
    assert_eq!(updated.0, share.0);
}

#[test]
fn missing_or_invalid_updates_are_not_applied() {
    let rng = &mut StdRng::seed_from_u64(13);
    let committee = Committee::new(4, 3, rng);
    let transcript = UpdateTranscript::create_refresh_updates(&committee.points_and_keys(), 3, rng);
    let transcripts = transcripts_of(vec![transcript]);
    let share = UpdatableBlindedKeyShare::new(committee.shares[1]);
    assert!(share.try_apply_share_updates(&transcripts, 1).is_some());
    // there is no update for this index
    assert!(share.try_apply_share_updates(&transcripts, 9).is_none());
    // the update for this index is under another key
    assert!(share.try_apply_share_updates(&transcripts, 2).is_none());
}

// Decryption shares

#[test]
fn simple_share_is_the_unblinded_share() {
    let keypair = Keypair { decryption_key: scalar(5) };
    let share = UpdatableBlindedKeyShare::new(BlindedKeyShare {
        validator_public_key: keypair.public_key().encryption_key,
        blinded_key_share: g2(35),
    });
    let inputs = share.create_decryption_share_simple(&keypair);
    assert_eq!(inputs.validator_decryption_key, scalar(5));
    assert_eq!(inputs.private_key_share, PrivateKeyShare(g2(7)));
}

#[test]
fn precomputed_shares_combine_to_the_secret() {
    let rng = &mut StdRng::seed_from_u64(14);
    let committee = Committee::new(4, 3, rng);
    let mut points = committee.points();
    points.remove(&1);
    let mut sum = g2(0);
    for i in [3u32, 0, 2] {
        let share = UpdatableBlindedKeyShare::new(committee.shares[i as usize]);
        let keypair = &committee.keypairs[i as usize];
        let inputs = share.create_decryption_share_precomputed(keypair, i, &points).unwrap();
        assert_eq!(inputs.share_index, i as usize);
        assert_eq!(inputs.validator_decryption_key, keypair.decryption_key);
        assert_eq!(inputs.private_key_share, share.0.unblind(keypair).unwrap());
        sum = sum.plus(&inputs.private_key_share.0.times(&inputs.lagrange_coeff));
    }
    assert_eq!(PrivateKeyShare(sum), committee.secret);
}

#[test]
fn precomputed_coefficient_follows_the_share_index() {
    let keypair = Keypair { decryption_key: scalar(5) };
    let share = UpdatableBlindedKeyShare::new(BlindedKeyShare {
        validator_public_key: keypair.public_key().encryption_key,
        blinded_key_share: g2(35),
    });
    let points: HashMap<u32, DomainPoint> =
        vec![(9, scalar(1)), (4, scalar(3)), (6, scalar(2))].into_iter().collect();
    let coeff = |i: u32| {
        share.create_decryption_share_precomputed(&keypair, i, &points).unwrap().lagrange_coeff
    };
    assert_eq!(coeff(9), scalar(3));
    assert_eq!(coeff(6), minus(3));
    assert_eq!(coeff(4), scalar(1));
}

#[test]
fn precomputed_share_of_an_unknown_index_is_an_error() {
    let rng = &mut StdRng::seed_from_u64(15);
    let committee = Committee::new(2, 2, rng);
    let share = UpdatableBlindedKeyShare::new(committee.shares[0]);
    let error = share
        .create_decryption_share_precomputed(&committee.keypairs[0], 5, &committee.points())
        .unwrap_err();
    assert!(matches!(error, Error::InvalidShareIndex(5)));
    // the index is looked at before the key
    let zero = Keypair { decryption_key: Scalar::zero() };
    let error =
        share.create_decryption_share_precomputed(&zero, 5, &committee.points()).unwrap_err();
    assert!(matches!(error, Error::InvalidShareIndex(5)));
}
