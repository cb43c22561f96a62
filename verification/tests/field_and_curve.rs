use ark_std::rand::rngs::StdRng;
use ark_std::rand::SeedableRng;
use ferveo::common::{Error, SerializationError};
use ferveo::curve::{batch_times, G1Point, G2Point, GtElement};
use ferveo::domain::EvaluationDomain;
use ferveo::key_share::{lagrange_basis_at, prepare_combine_simple};
use ferveo::keypair::{Keypair, PublicKey};
use ferveo::scalar::{evaluate, random_polynomial, Scalar};

fn scalar(n: u64) -> Scalar {
    Scalar::from_u64(n)
}

fn minus(n: u64) -> Scalar {
    Scalar::zero().minus(&scalar(n))
}

fn g1(n: u64) -> G1Point {
    G1Point::generator().times(&scalar(n))
}

fn g2(n: u64) -> G2Point {
    G2Point::generator().times(&scalar(n))
}

#[test]
fn scalars_wrap_at_the_group_order() {
    assert_eq!(scalar(9).minus(&scalar(4)), scalar(5));
    assert_eq!(scalar(6).times(&scalar(7)), scalar(42));
    assert_eq!(minus(1).times(&minus(1)), scalar(1));
    assert!(scalar(4).minus(&scalar(4)).is_zero());
    assert_ne!(scalar(4), scalar(5));
    assert_eq!(Scalar::one(), scalar(1));
}

#[test]
fn every_scalar_but_zero_has_an_inverse() {
    assert!(Scalar::zero().inverse().is_none());
    let inverse = scalar(12345).inverse().unwrap();
    assert_eq!(inverse.times(&scalar(12345)), Scalar::one());
    assert_eq!(minus(1).inverse().unwrap(), minus(1));
}

#[test]
fn random_scalars_differ() {
    let rng = &mut StdRng::seed_from_u64(0);
    assert_ne!(Scalar::random(rng), Scalar::random(rng));
}

#[test]
fn polynomials_evaluate() {
    let poly = vec![scalar(1), scalar(2), scalar(3)];
    assert_eq!(evaluate(&poly, &scalar(10)), scalar(321));
    assert_eq!(evaluate(&poly, &Scalar::zero()), scalar(1));
    assert_eq!(evaluate(&vec![], &scalar(10)), Scalar::zero());
}

#[test]
fn random_polynomial_has_the_degree() {
    let rng = &mut StdRng::seed_from_u64(1);
    let poly = random_polynomial(4, rng);
    assert_eq!(poly.len(), 5);
    assert!(!poly[4].is_zero());
}

#[test]
fn domain_is_the_next_power_of_two() {
    let size = |n: usize| EvaluationDomain::new(n).unwrap().size();
    assert_eq!(size(0), 1);
    assert_eq!(size(1), 1);
    assert_eq!(size(4), 4);
    assert_eq!(size(5), 8);
    assert_eq!(size(30), 32);
}

#[test]
fn beyond_the_powers_of_two_the_domain_has_three_as_a_factor() {
    let size = |n: usize| EvaluationDomain::new(n).map(|d| d.size());
    assert_eq!(size(1 << 32), Some(1 << 32));
    assert_eq!(size((1 << 32) + 1), Some(3 << 31));
    assert_eq!(size(3 << 31), Some(3 << 31));
    assert_eq!(size((3 << 31) + 1), Some(3 << 32));
    assert_eq!(size(3 << 32), Some(3 << 32));
    assert_eq!(size((3 << 32) + 1), None);
    assert_eq!(size(usize::MAX), None);
    let domain = EvaluationDomain::new((1 << 32) + 1).unwrap();
    assert_eq!(domain.element(3 << 30), minus(1));
    assert_eq!(domain.element(3 << 31), Scalar::one());
    assert_ne!(domain.element(1 << 31), Scalar::one());
}

#[test]
fn mixed_radix_domain_is_the_smallest_one() {
    let size = |n: usize| EvaluationDomain::mixed_radix(n).unwrap().size();
    assert_eq!(size(0), 1);
    assert_eq!(size(3), 3);
    assert_eq!(size(4), 4);
    assert_eq!(size(5), 6);
    assert_eq!(size(7), 8);
    assert_eq!(size(30), 32);
    assert_eq!(size(33), 48);
    assert_eq!(size((1 << 32) + 1), 3 << 31);
    assert!(EvaluationDomain::mixed_radix((3 << 32) + 1).is_none());
}

#[test]
fn cosets_are_shifted_by_their_offset() {
    let domain = EvaluationDomain::new(4).unwrap();
    let coset = domain.get_coset(&scalar(5)).unwrap();
    assert_eq!(coset.size(), 4);
    for i in 0..9 {
        assert_eq!(coset.element(i), domain.element(i).times(&scalar(5)));
    }
    // the offset is replaced
    let other = coset.get_coset(&scalar(7)).unwrap();
    assert_eq!(other.element(1), domain.element(1).times(&scalar(7)));
    assert!(domain.get_coset(&Scalar::zero()).is_none());
}

#[test]
fn every_kind_of_domain_evaluates() {
    let poly = vec![scalar(1), scalar(2), scalar(3), scalar(4)];
    let coeffs = batch_times(&G1Point::generator(), &poly);
    for size in [1, 2, 3, 4, 6, 8, 12, 24, 32] {
        let subgroup = EvaluationDomain::mixed_radix(size).unwrap();
        let coset = subgroup.get_coset(&scalar(9)).unwrap();
        for domain in [subgroup, coset] {
            assert_eq!(domain.size(), size);
            let kept: Vec<Scalar> = poly.iter().take(size).copied().collect();
            let values = domain.evaluate_points(&coeffs);
            assert_eq!(values.len(), size);
            for i in 0..size {
                let value = evaluate(&kept, &domain.element(i));
                assert_eq!(values[i], G1Point::generator().times(&value));
                for j in 0..i {
                    assert_ne!(domain.element(i), domain.element(j));
                }
            }
        }
    }
}

#[test]
fn scalars_are_read_from_canonical_limbs() {
    assert_eq!(Scalar::from_bigint([7, 0, 0, 0]), Some(scalar(7)));
    let largest = [0xffffffff00000000, 0x53bda402fffe5bfe, 0x3339d80809a1d805, 0x73eda753299d7d48];
    assert_eq!(Scalar::from_bigint(largest), Some(minus(1)));
    assert_eq!(minus(1).into_bigint(), largest);
    for i in 0..4 {
        let mut above = largest;
        above[i] += 1;
        assert_eq!(Scalar::from_bigint(above), None);
    }
    assert_eq!(Scalar::from_bigint([u64::MAX; 4]), None);
}

#[test]
fn public_keys_are_read_from_their_bytes() {
    let key = Keypair { decryption_key: scalar(9) }.public_key();
    assert_eq!(PublicKey::from_bytes(&key.to_bytes()).unwrap(), key);
    let error = PublicKey::from_bytes(&G2Point::zero().to_bytes()).unwrap_err();
    assert!(matches!(error, Error::IdentityEncryptionKey));
    let error = PublicKey::from_bytes(&[0u8; 95]).unwrap_err();
    assert!(matches!(error, Error::InvalidByteLength(96, 95)));
    let error = PublicKey::from_bytes(&[0u8; 96]).unwrap_err();
    assert!(matches!(error, Error::SerializationError(SerializationError::UnexpectedFlags)));
}

#[test]
fn domain_elements_are_distinct_powers_of_the_generator() {
    let domain = EvaluationDomain::new(8).unwrap();
    assert_eq!(domain.element(0), Scalar::one());
    assert_eq!(domain.element(4), minus(1));
    assert_eq!(domain.element(8), Scalar::one());
    for i in 0..8 {
        assert_eq!(domain.element(i).times(&domain.element(1)), domain.element(i + 1));
        for j in 0..i {
            assert_ne!(domain.element(i), domain.element(j));
        }
    }
}

#[test]
fn committed_polynomial_evaluates_on_the_domain() {
    let domain = EvaluationDomain::new(4).unwrap();
    let poly = vec![scalar(1), scalar(2), scalar(3)];
    let coeffs = batch_times(&G1Point::generator(), &poly);
    assert_eq!(coeffs, vec![g1(1), g1(2), g1(3)]);
    let values = domain.evaluate_points(&coeffs);
    assert_eq!(values.len(), 4);
    for i in 0..4 {
        let value = evaluate(&poly, &domain.element(i));
        assert_eq!(values[i], G1Point::generator().times(&value));
    }
    assert_eq!(domain.evaluate_points(&vec![]), vec![G1Point::zero(); 4]);
}

#[test]
fn coefficients_beyond_the_domain_are_dropped() {
    let domain = EvaluationDomain::new(2).unwrap();
    let values = domain.evaluate_points(&vec![g1(5), g1(3), g1(100)]);
    assert_eq!(values, vec![g1(8), g1(2)]);
}

#[test]
fn lagrange_coefficients_at_zero() {
    let coeffs = prepare_combine_simple(&vec![scalar(1), scalar(2), scalar(3)]);
    assert_eq!(coeffs, vec![scalar(3), minus(3), scalar(1)]);
}

#[test]
fn lagrange_coefficients_at_one_of_the_points() {
    let coeffs = lagrange_basis_at(&vec![scalar(1), scalar(2), scalar(3)], &scalar(2));
    assert_eq!(coeffs, vec![scalar(0), scalar(1), scalar(0)]);
}

#[test]
fn equal_points_are_skipped_in_lagrange_coefficients() {
    let coeffs = lagrange_basis_at(&vec![scalar(1), scalar(1), scalar(2)], &scalar(0));
    assert_eq!(coeffs, vec![scalar(2), scalar(2), scalar(1)]);
}

#[test]
fn points_form_groups() {
    assert_eq!(g1(3).plus(&g1(4)), g1(7));
    assert_eq!(g1(3).times(&scalar(5)), g1(15));
    assert_eq!(g1(3).negated().plus(&g1(3)), G1Point::zero());
    assert!(g1(3).plus(&g1(3).negated()).is_zero());
    assert!(!g1(3).is_zero());
    assert_eq!(g2(3).plus(&g2(4)), g2(7));
    assert_eq!(g2(3).times(&scalar(5)), g2(15));
    assert_ne!(g2(3), g2(4));
    assert!(G2Point::zero().is_zero());
    assert!(!g2(3).is_zero());
    assert_eq!(g2(3).plus(&G2Point::zero()), g2(3));
}

#[test]
fn pairing_is_bilinear() {
    let pairing = GtElement::pairing(&g1(6), &g2(7));
    assert!(pairing.equals(&GtElement::pairing(&g1(21), &g2(2))));
    assert!(!pairing.equals(&GtElement::pairing(&g1(6), &g2(8))));
    let product = GtElement::multi_pairing([&g1(2), &g1(3)], [&g2(9), &g2(8)]);
    assert!(product.equals(&pairing));
    let opposite = GtElement::multi_pairing([&g1(2), &g1(2).negated()], [&g2(9), &g2(9)]);
    assert!(opposite.equals(&GtElement::one()));
    assert!(GtElement::pairing(&G1Point::zero(), &g2(9)).equals(&GtElement::one()));
}

#[test]
fn public_key_is_the_generator_times_the_decryption_key() {
    let keypair = Keypair { decryption_key: scalar(9) };
    assert_eq!(keypair.public_key().encryption_key, g2(9));
}

#[test]
fn encodings_round_trip() {
    for n in [0, 1, 2, 12345] {
        assert_eq!(G1Point::from_bytes(&g1(n).to_bytes()).unwrap(), g1(n));
        assert_eq!(G2Point::from_bytes(&g2(n).to_bytes()).unwrap(), g2(n));
    }
    let mut identity = [0u8; 48];
    identity[0] = 0xc0;
    assert_eq!(G1Point::zero().to_bytes(), identity);
}

#[test]
fn encoding_of_another_length_is_refused() {
    let error = G1Point::from_bytes(&[0u8; 47]).unwrap_err();
    assert!(matches!(error, Error::InvalidByteLength(48, 47)));
    assert_eq!(error.message(), "Invalid byte length: expected 48, actual 47");
    let error = G2Point::from_bytes(&[]).unwrap_err();
    assert!(matches!(error, Error::InvalidByteLength(96, 0)));
}

#[test]
fn encoding_without_the_compression_flag_is_refused() {
    let error = G1Point::from_bytes(&[0u8; 48]).unwrap_err();
    assert!(matches!(error, Error::SerializationError(SerializationError::UnexpectedFlags)));
    assert_eq!(error.message(), "Serialization error: the call expects empty flags");
    let mut bytes = [0u8; 96];
    bytes[0] = 0x40;
    let error = G2Point::from_bytes(&bytes).unwrap_err();
    assert!(matches!(error, Error::SerializationError(SerializationError::UnexpectedFlags)));
}

#[test]
fn encoding_of_no_point_is_refused() {
    // flags that contradict each other
    for first in [0x20u8, 0x60, 0xe0] {
        let mut bytes = [0u8; 48];
        bytes[0] = first;
        let error = G1Point::from_bytes(&bytes).unwrap_err();
        assert!(matches!(error, Error::SerializationError(SerializationError::InvalidData)));
    }
    // the identity with a coordinate
    let mut bytes = [0u8; 48];
    bytes[0] = 0xc0;
    bytes[47] = 1;
    let error = G1Point::from_bytes(&bytes).unwrap_err();
    assert_eq!(
        error.message(),
        "Serialization error: the input buffer contained invalid data"
    );
    // a coordinate that is not reduced
    let mut bytes = [0xffu8; 96];
    bytes[0] = 0x9f;
    assert!(G2Point::from_bytes(&bytes).is_err());
}
