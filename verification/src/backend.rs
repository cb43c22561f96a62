//! The calls into the arkworks crates, from plain values to plain values.
//!
//! A scalar is held as four little-endian 64-bit limbs, a point of G1 or G2 as its compressed
//! encoding, an element of the target group as its canonical encoding. Each of the three groups
//! is cyclic of order [`order`], so its elements are the multiples of a fixed generator: the
//! contracts below speak of an element by that multiple, its discrete logarithm.

use ark_bls12_381::{Bls12_381, Fr, G1Affine, G1Projective, G2Affine};
use ark_ec::pairing::{Pairing, PairingOutput};
use ark_ec::{AffineRepr, CurveGroup, ScalarMul};
use ark_ff::{BigInt, Field, PrimeField, UniformRand, Zero};
use ark_poly::univariate::DensePolynomial;
use ark_poly::{
    DenseUVPolynomial, EvaluationDomain, GeneralEvaluationDomain, MixedRadixEvaluationDomain,
    Polynomial,
};
use ark_serialize::{CanonicalDeserialize, CanonicalSerialize};
use ark_std::rand::rngs::StdRng;
use vstd::arithmetic::power::pow;
use vstd::arithmetic::power2::pow2;
use vstd::prelude::*;

use crate::common::SerializationError;
use crate::modular::{order, residue};
use crate::poly::eval;

verus! {

/// The random number generator that the sampling functions draw from, `rand`'s `StdRng`.
#[verifier::external_type_specification]
#[verifier::external_body]
pub struct ExStdRng(StdRng);

// ---------------------------------------------------------------------------------------------
// Scalars
// ---------------------------------------------------------------------------------------------

/// The integer that four little-endian 64-bit limbs stand for.
pub open spec fn limbs_value(limbs: Seq<u64>) -> int {
    limbs[0] + 0x1_0000_0000_0000_0000 * (limbs[1] + 0x1_0000_0000_0000_0000 * (limbs[2]
        + 0x1_0000_0000_0000_0000 * limbs[3]))
}

/// The limbs of a scalar hold a number below the group order.
pub open spec fn is_scalar(limbs: Seq<u64>) -> bool {
    limbs_value(limbs) < order()
}

/// The numbers that a sequence of scalars stands for.
pub open spec fn limbs_values(scalars: Seq<[u64; 4]>) -> Seq<int> {
    Seq::new(scalars.len(), |i: int| limbs_value(scalars[i]@))
}

/// `-` on `Fr`: the difference modulo the group order.
#[verifier::external_body]
pub(crate) fn scalar_sub(a: [u64; 4], b: [u64; 4]) -> (r: [u64; 4])
    requires
        is_scalar(a@),
        is_scalar(b@),
    ensures
        limbs_value(r@) == residue(limbs_value(a@) - limbs_value(b@)),
{
    (Fr::new(BigInt(a)) - Fr::new(BigInt(b))).into_bigint().0
}

/// `*` on `Fr`: the product modulo the group order.
#[verifier::external_body]
pub(crate) fn scalar_mul(a: [u64; 4], b: [u64; 4]) -> (r: [u64; 4])
    requires
        is_scalar(a@),
        is_scalar(b@),
    ensures
        limbs_value(r@) == residue(limbs_value(a@) * limbs_value(b@)),
{
    (Fr::new(BigInt(a)) * Fr::new(BigInt(b))).into_bigint().0
}

/// `Field::inverse` on `Fr`: the multiplicative inverse, which zero alone lacks.
#[verifier::external_body]
pub(crate) fn scalar_inverse(a: [u64; 4]) -> (r: Option<[u64; 4]>)
    requires
        is_scalar(a@),
    ensures
        r is None <==> limbs_value(a@) == 0,
        r matches Some(b) ==> is_scalar(b@) && residue(limbs_value(a@) * limbs_value(b@)) == 1,
{
    Fr::new(BigInt(a)).inverse().map(|b| b.into_bigint().0)
}

/// `limbs` are what a draw of a scalar gives, from the state in which the generator `rng` is
/// before it. The state of `rng` in the end is the one in which the draw leaves it.
pub closed spec fn draws_scalar(rng: &mut StdRng, limbs: [u64; 4]) -> bool {
    call_ensures(scalar_random, (rng,), limbs)
}

/// A scalar is drawn where [`scalar_random`] gave it, and nowhere else.
pub(crate) proof fn law_draws_scalar(rng: &mut StdRng, limbs: [u64; 4])
    ensures
        draws_scalar(rng, limbs) <==> call_ensures(scalar_random, (rng,), limbs),
{
}

/// `UniformRand::rand` on `Fr`: some scalar.
#[verifier::external_body]
pub(crate) fn scalar_random(rng: &mut StdRng) -> (r: [u64; 4])
    ensures
        is_scalar(r@),
{
    Fr::rand(rng).into_bigint().0
}

// ---------------------------------------------------------------------------------------------
// Polynomials and evaluation domains
// ---------------------------------------------------------------------------------------------

/// `coeffs` are what a draw of a polynomial of the given degree gives, from the state in which
/// the generator `rng` is before it. The state of `rng` in the end is the one in which the draw
/// leaves it.
pub closed spec fn draws_polynomial(
    rng: &mut StdRng,
    degree: usize,
    coeffs: Vec<[u64; 4]>,
) -> bool {
    call_ensures(poly_random, (degree, rng), coeffs)
}

/// A polynomial is drawn where [`poly_random`] gave it, and nowhere else.
pub(crate) proof fn law_draws_polynomial(
    rng: &mut StdRng,
    degree: usize,
    coeffs: Vec<[u64; 4]>,
)
    ensures
        draws_polynomial(rng, degree, coeffs) <==> call_ensures(
            poly_random,
            (degree, rng),
            coeffs,
        ),
{
}

/// `DenseUVPolynomial::rand` on `DensePolynomial<Fr>`: `degree + 1` coefficients, the leading
/// one not zero.
#[verifier::external_body]
pub(crate) fn poly_random(degree: usize, rng: &mut StdRng) -> (r: Vec<[u64; 4]>)
    requires
        degree < usize::MAX,
    ensures
        r.len() == degree + 1,
        forall|i: int| 0 <= i < r.len() ==> is_scalar(#[trigger] r[i]@),
        limbs_value(r[degree as int]@) != 0,
{
    let poly = DensePolynomial::<Fr>::rand(degree, rng);
    poly.coeffs.iter().map(|c| c.into_bigint().0).collect()
}

/// `Polynomial::evaluate` on `DensePolynomial<Fr>`: the value at `x` modulo the group order.
#[verifier::external_body]
pub(crate) fn poly_evaluate(coeffs: &Vec<[u64; 4]>, x: [u64; 4]) -> (r: [u64; 4])
    requires
        forall|i: int| 0 <= i < coeffs.len() ==> is_scalar(#[trigger] coeffs[i]@),
        is_scalar(x@),
    ensures
        limbs_value(r@) == residue(eval(limbs_values(coeffs@), limbs_value(x@))),
{
    let coeffs: Vec<Fr> = coeffs.iter().map(|c| Fr::new(BigInt(*c))).collect();
    DensePolynomial { coeffs }.evaluate(&Fr::new(BigInt(x))).into_bigint().0
}

/// The sizes of the radix-2 domains in the scalar field, whose two-adicity is 32.
pub open spec fn is_radix2_size(size: nat) -> bool {
    exists|k: nat| k <= 32 && size == #[trigger] pow2(k)
}

/// The sizes of the domains that have 3 as a second radix, which occurs once.
pub open spec fn is_mixed_size(size: nat) -> bool {
    exists|k: nat| k <= 32 && size == 3 * #[trigger] pow2(k)
}

/// The sizes of the evaluation domains in the scalar field.
pub open spec fn is_domain_size(size: nat) -> bool {
    is_radix2_size(size) || is_mixed_size(size)
}

/// The generator of the subgroup of `size` elements: 7 generates the multiplicative group of
/// the scalar field.
pub open spec fn domain_generator(size: nat) -> int {
    pow(7, ((order() - 1) / size as int) as nat)
}

/// Element `i` of the coset, with the given offset, of the subgroup of `size` elements.
pub open spec fn domain_point(size: nat, offset: int, i: nat) -> int {
    residue(offset * pow(domain_generator(size), i))
}

/// The elements of that coset. It is the subgroup itself if the offset is one.
pub open spec fn domain_points(size: nat, offset: int) -> Seq<int> {
    Seq::new(size, |i: int| domain_point(size, offset, i as nat))
}

/// The first `size` coefficients of a polynomial.
pub open spec fn kept(c: Seq<int>, size: nat) -> Seq<int> {
    if c.len() < size {
        c
    } else {
        c.take(size as int)
    }
}

/// The value, at element `i` of a domain with the given elements, of the polynomial with
/// coefficients `c`, those beyond the number of elements being dropped.
pub open spec fn value_on_domain(c: Seq<int>, points: Seq<int>, i: int) -> int {
    eval(kept(c, points.len()), points[i])
}

/// `size` is the smallest size of a radix-2 domain with room for `n` elements.
pub open spec fn is_smallest_radix2(n: nat, size: nat) -> bool {
    &&& is_radix2_size(size)
    &&& n <= size
    &&& forall|s: nat| #[trigger] is_radix2_size(s) && n <= s ==> size <= s
}

/// `size` is the smallest size of a domain with room for `n` elements.
pub open spec fn is_smallest_domain(n: nat, size: nat) -> bool {
    &&& is_domain_size(size)
    &&& n <= size
    &&& forall|s: nat| #[trigger] is_domain_size(s) && n <= s ==> size <= s
}

/// There is a domain with room for `n` elements: the largest has three times two to the power of
/// 32. Where `usize` has 32 bits, the search for a size ends at two to the power of 31.
pub open spec fn has_domain(n: nat) -> bool {
    n <= 0x8000_0000 || (usize::MAX > 0xffff_ffff && n <= 0x3_0000_0000)
}

/// `GeneralEvaluationDomain::<Fr>::new` and its `size`: the smallest radix-2 domain with room for
/// `num_coeffs` elements, and beyond these the smallest mixed-radix one.
#[verifier::external_body]
pub(crate) fn domain_size(num_coeffs: usize) -> (r: usize)
    requires
        has_domain(num_coeffs as nat),
    ensures
        num_coeffs <= 0x1_0000_0000 ==> is_smallest_radix2(num_coeffs as nat, r as nat),
        num_coeffs > 0x1_0000_0000 ==> is_smallest_domain(num_coeffs as nat, r as nat),
{
    GeneralEvaluationDomain::<Fr>::new(num_coeffs).unwrap().size()
}

/// `MixedRadixEvaluationDomain::<Fr>::new` and its `size`: the smallest domain with room for
/// `num_coeffs` elements, whether 3 divides its size or not.
#[verifier::external_body]
pub(crate) fn mixed_domain_size(num_coeffs: usize) -> (r: usize)
    requires
        has_domain(num_coeffs as nat),
    ensures
        is_smallest_domain(num_coeffs as nat, r as nat),
{
    MixedRadixEvaluationDomain::<Fr>::new(num_coeffs).unwrap().size()
}

/// `EvaluationDomain::element`: the offset times a power of the generator. The domain is made by
/// `MixedRadixEvaluationDomain::new`, which meets every size, and `get_coset`, which replaces
/// the offset.
#[verifier::external_body]
pub(crate) fn domain_element(size: usize, offset: [u64; 4], i: usize) -> (r: [u64; 4])
    requires
        is_domain_size(size as nat),
        has_domain(size as nat),
        is_scalar(offset@),
        limbs_value(offset@) != 0,
    ensures
        limbs_value(r@) == domain_point(size as nat, limbs_value(offset@), i as nat),
{
    let subgroup = MixedRadixEvaluationDomain::<Fr>::new(size).unwrap();
    subgroup.get_coset(Fr::new(BigInt(offset))).unwrap().element(i).into_bigint().0
}

// ---------------------------------------------------------------------------------------------
// The group G1
// ---------------------------------------------------------------------------------------------

/// The compressed encoding of `k` times the generator of G1.
pub uninterp spec fn g1_multiple(k: int) -> Seq<u8>;

/// The discrete logarithm of the point of G1 that `bytes` encode.
pub open spec fn g1_log(bytes: Seq<u8>) -> int {
    residue(choose|k: int| bytes == #[trigger] g1_multiple(k))
}

/// `bytes` are the compressed encoding of a point of G1.
pub open spec fn is_g1(bytes: Seq<u8>) -> bool {
    bytes == g1_multiple(g1_log(bytes))
}

/// The discrete logarithms of a sequence of encoded points.
pub open spec fn g1_logs(points: Seq<[u8; 48]>) -> Seq<int> {
    Seq::new(points.len(), |i: int| g1_log(points[i]@))
}

/// The error on a compressed encoding that is refused: the flags are read before the rest.
pub open spec fn refusal(first_byte: u8) -> SerializationError {
    if first_byte / 32 == 0 || first_byte / 32 == 2 {
        SerializationError::UnexpectedFlags
    } else {
        SerializationError::InvalidData
    }
}

/// `G1Affine::deserialize_compressed`, which validates: it accepts the compressed encodings of
/// the points of G1 and nothing else.
#[verifier::external_body]
pub(crate) fn g1_check(bytes: &[u8; 48]) -> (r: Result<(), SerializationError>)
    ensures
        r is Ok <==> is_g1(bytes@),
        r matches Err(e) ==> e == refusal(bytes@[0]),
{
    match G1Affine::deserialize_compressed(&bytes[..]) {
        Ok(_) => Ok(()),
        Err(ark_serialize::SerializationError::NotEnoughSpace) => Err(SerializationError::NotEnoughSpace),
        Err(ark_serialize::SerializationError::InvalidData) => Err(SerializationError::InvalidData),
        Err(ark_serialize::SerializationError::UnexpectedFlags) => Err(SerializationError::UnexpectedFlags),
        Err(ark_serialize::SerializationError::IoError(e)) => Err(SerializationError::IoError(format!("{e:?}"))),
    }
}

/// `AffineRepr::generator` of `G1Affine`: the point to whose multiples the logarithms refer.
#[verifier::external_body]
pub(crate) fn g1_generator() -> (r: [u8; 48])
    ensures
        r@ == g1_multiple(1),
        g1_log(r@) == 1,
{
    let mut bytes = [0u8; 48];
    G1Affine::generator().serialize_compressed(&mut bytes[..]).unwrap();
    bytes
}

/// `AffineRepr::zero` of `G1Affine`: the identity.
#[verifier::external_body]
pub(crate) fn g1_zero() -> (r: [u8; 48])
    ensures
        r@ == g1_multiple(0),
        g1_log(r@) == 0,
{
    let mut bytes = [0u8; 48];
    G1Affine::zero().serialize_compressed(&mut bytes[..]).unwrap();
    bytes
}

/// `+` on `G1Affine`: the logarithms add up.
#[verifier::external_body]
pub(crate) fn g1_add(p: [u8; 48], q: [u8; 48]) -> (r: [u8; 48])
    requires
        is_g1(p@),
        is_g1(q@),
    ensures
        r@ == g1_multiple(residue(g1_log(p@) + g1_log(q@))),
        g1_log(r@) == residue(g1_log(p@) + g1_log(q@)),
{
    let a = G1Affine::deserialize_compressed_unchecked(&p[..]).unwrap();
    let b = G1Affine::deserialize_compressed_unchecked(&q[..]).unwrap();
    let mut bytes = [0u8; 48];
    (a + b).into_affine().serialize_compressed(&mut bytes[..]).unwrap();
    bytes
}

/// `-` on `G1Affine`: the opposite logarithm.
#[verifier::external_body]
pub(crate) fn g1_neg(p: [u8; 48]) -> (r: [u8; 48])
    requires
        is_g1(p@),
    ensures
        r@ == g1_multiple(residue(-g1_log(p@))),
        g1_log(r@) == residue(-g1_log(p@)),
{
    let a = G1Affine::deserialize_compressed_unchecked(&p[..]).unwrap();
    let mut bytes = [0u8; 48];
    (-a).serialize_compressed(&mut bytes[..]).unwrap();
    bytes
}

/// `*` of `G1Affine` and `Fr`: the scalar multiplies the logarithm.
#[verifier::external_body]
pub(crate) fn g1_mul(p: [u8; 48], s: [u64; 4]) -> (r: [u8; 48])
    requires
        is_g1(p@),
        is_scalar(s@),
    ensures
        r@ == g1_multiple(residue(g1_log(p@) * limbs_value(s@))),
        g1_log(r@) == residue(g1_log(p@) * limbs_value(s@)),
{
    let a = G1Affine::deserialize_compressed_unchecked(&p[..]).unwrap();
    let mut bytes = [0u8; 48];
    (a * Fr::new(BigInt(s))).into_affine().serialize_compressed(&mut bytes[..]).unwrap();
    bytes
}

/// `ScalarMul::batch_mul` on G1: each scalar times the one base point.
#[verifier::external_body]
pub(crate) fn g1_batch_mul(base: [u8; 48], scalars: &Vec<[u64; 4]>) -> (r: Vec<[u8; 48]>)
    requires
        is_g1(base@),
        forall|i: int| 0 <= i < scalars.len() ==> is_scalar(#[trigger] scalars[i]@),
    ensures
        r.len() == scalars.len(),
        forall|i: int|
            0 <= i < r.len() ==> {
                &&& (#[trigger] r[i])@ == g1_multiple(
                    residue(g1_log(base@) * limbs_value(scalars[i]@)),
                )
                &&& g1_log(r[i]@) == residue(g1_log(base@) * limbs_value(scalars[i]@))
            },
{
    let base = G1Affine::deserialize_compressed_unchecked(&base[..]).unwrap().into_group();
    let scalars: Vec<Fr> = scalars.iter().map(|s| Fr::new(BigInt(*s))).collect();
    let encode = |p: &G1Affine| {
        let mut bytes = [0u8; 48];
        p.serialize_compressed(&mut bytes[..]).unwrap();
        bytes
    };
    base.batch_mul(&scalars).iter().map(encode).collect()
}

/// `GeneralEvaluationDomain::fft_in_place` on points of G1, for a radix-2 size: the values, at
/// the elements of the domain, of the polynomial whose coefficients are the given points.
/// Coefficients beyond the size of the domain are dropped.
#[verifier::external_body]
pub(crate) fn g1_fft(coeffs: &Vec<[u8; 48]>, size: usize, offset: [u64; 4]) -> (r: Vec<[u8; 48]>)
    requires
        is_radix2_size(size as nat),
        is_scalar(offset@),
        limbs_value(offset@) != 0,
        forall|i: int| 0 <= i < coeffs.len() ==> is_g1(#[trigger] coeffs[i]@),
    ensures
        r.len() == size,
        forall|i: int|
            0 <= i < size ==> {
                let points = domain_points(size as nat, limbs_value(offset@));
                let value = residue(value_on_domain(g1_logs(coeffs@), points, i));
                (#[trigger] r[i])@ == g1_multiple(value) && g1_log(r[i]@) == value
            },
{
    let decode = |c: &[u8; 48]| G1Affine::deserialize_compressed_unchecked(&c[..]).unwrap().into();
    let mut points: Vec<G1Projective> = coeffs.iter().map(decode).collect();
    let subgroup = GeneralEvaluationDomain::<Fr>::new(size).unwrap();
    subgroup.get_coset(Fr::new(BigInt(offset))).unwrap().fft_in_place(&mut points);
    let encode = |p: &G1Projective| {
        let mut bytes = [0u8; 48];
        p.into_affine().serialize_compressed(&mut bytes[..]).unwrap();
        bytes
    };
    points.iter().map(encode).collect()
}

/// `MixedRadixEvaluationDomain::fft_in_place` on points of G1, for a size that 3 divides: as
/// [`g1_fft`].
#[verifier::external_body]
pub(crate) fn g1_fft_mixed(coeffs: &Vec<[u8; 48]>, size: usize, offset: [u64; 4]) -> (r: Vec<[u8; 48]>)
    requires
        is_mixed_size(size as nat),
        has_domain(size as nat),
        is_scalar(offset@),
        limbs_value(offset@) != 0,
        forall|i: int| 0 <= i < coeffs.len() ==> is_g1(#[trigger] coeffs[i]@),
    ensures
        r.len() == size,
        forall|i: int|
            0 <= i < size ==> {
                let points = domain_points(size as nat, limbs_value(offset@));
                let value = residue(value_on_domain(g1_logs(coeffs@), points, i));
                (#[trigger] r[i])@ == g1_multiple(value) && g1_log(r[i]@) == value
            },
{
    let decode = |c: &[u8; 48]| G1Affine::deserialize_compressed_unchecked(&c[..]).unwrap().into();
    let mut points: Vec<G1Projective> = coeffs.iter().map(decode).collect();
    let subgroup = MixedRadixEvaluationDomain::<Fr>::new(size).unwrap();
    subgroup.get_coset(Fr::new(BigInt(offset))).unwrap().fft_in_place(&mut points);
    let encode = |p: &G1Projective| {
        let mut bytes = [0u8; 48];
        p.into_affine().serialize_compressed(&mut bytes[..]).unwrap();
        bytes
    };
    points.iter().map(encode).collect()
}

// ---------------------------------------------------------------------------------------------
// The group G2
// ---------------------------------------------------------------------------------------------

/// The compressed encoding of `k` times the generator of G2.
pub uninterp spec fn g2_multiple(k: int) -> Seq<u8>;

/// The discrete logarithm of the point of G2 that `bytes` encode.
pub open spec fn g2_log(bytes: Seq<u8>) -> int {
    residue(choose|k: int| bytes == #[trigger] g2_multiple(k))
}

/// `bytes` are the compressed encoding of a point of G2.
pub open spec fn is_g2(bytes: Seq<u8>) -> bool {
    bytes == g2_multiple(g2_log(bytes))
}

/// `G2Affine::deserialize_compressed`, which validates: it accepts the compressed encodings of
/// the points of G2 and nothing else.
#[verifier::external_body]
pub(crate) fn g2_check(bytes: &[u8; 96]) -> (r: Result<(), SerializationError>)
    ensures
        r is Ok <==> is_g2(bytes@),
        r matches Err(e) ==> e == refusal(bytes@[0]),
{
    match G2Affine::deserialize_compressed(&bytes[..]) {
        Ok(_) => Ok(()),
        Err(ark_serialize::SerializationError::NotEnoughSpace) => Err(SerializationError::NotEnoughSpace),
        Err(ark_serialize::SerializationError::InvalidData) => Err(SerializationError::InvalidData),
        Err(ark_serialize::SerializationError::UnexpectedFlags) => Err(SerializationError::UnexpectedFlags),
        Err(ark_serialize::SerializationError::IoError(e)) => Err(SerializationError::IoError(format!("{e:?}"))),
    }
}

/// `AffineRepr::generator` of `G2Affine`: the point to whose multiples the logarithms refer.
#[verifier::external_body]
pub(crate) fn g2_generator() -> (r: [u8; 96])
    ensures
        r@ == g2_multiple(1),
        g2_log(r@) == 1,
{
    let mut bytes = [0u8; 96];
    G2Affine::generator().serialize_compressed(&mut bytes[..]).unwrap();
    bytes
}

/// `+` on `G2Affine`: the logarithms add up.
#[verifier::external_body]
pub(crate) fn g2_add(p: [u8; 96], q: [u8; 96]) -> (r: [u8; 96])
    requires
        is_g2(p@),
        is_g2(q@),
    ensures
        r@ == g2_multiple(residue(g2_log(p@) + g2_log(q@))),
        g2_log(r@) == residue(g2_log(p@) + g2_log(q@)),
{
    let a = G2Affine::deserialize_compressed_unchecked(&p[..]).unwrap();
    let b = G2Affine::deserialize_compressed_unchecked(&q[..]).unwrap();
    let mut bytes = [0u8; 96];
    (a + b).into_affine().serialize_compressed(&mut bytes[..]).unwrap();
    bytes
}

/// `*` of `G2Affine` and `Fr`: the scalar multiplies the logarithm.
#[verifier::external_body]
pub(crate) fn g2_mul(p: [u8; 96], s: [u64; 4]) -> (r: [u8; 96])
    requires
        is_g2(p@),
        is_scalar(s@),
    ensures
        r@ == g2_multiple(residue(g2_log(p@) * limbs_value(s@))),
        g2_log(r@) == residue(g2_log(p@) * limbs_value(s@)),
{
    let a = G2Affine::deserialize_compressed_unchecked(&p[..]).unwrap();
    let mut bytes = [0u8; 96];
    (a * Fr::new(BigInt(s))).into_affine().serialize_compressed(&mut bytes[..]).unwrap();
    bytes
}

// ---------------------------------------------------------------------------------------------
// The target group and the pairing
// ---------------------------------------------------------------------------------------------

/// The canonical encoding of `k` times the pairing of the two generators, the target group
/// being written additively.
pub uninterp spec fn gt_multiple(k: int) -> Seq<u8>;

/// The discrete logarithm of the element of the target group that `bytes` encode.
pub open spec fn gt_log(bytes: Seq<u8>) -> int {
    residue(choose|k: int| bytes == #[trigger] gt_multiple(k))
}

/// `bytes` are the canonical encoding of an element of the target group.
pub open spec fn is_gt(bytes: Seq<u8>) -> bool {
    bytes == gt_multiple(gt_log(bytes))
}

/// `Zero::zero` of `PairingOutput<Bls12_381>`: the identity of the target group, which is `one`
/// in the target field.
#[verifier::external_body]
pub(crate) fn gt_one() -> (r: [u8; 576])
    ensures
        r@ == gt_multiple(0),
        gt_log(r@) == 0,
{
    let mut bytes = [0u8; 576];
    PairingOutput::<Bls12_381>::zero().serialize_compressed(&mut bytes[..]).unwrap();
    bytes
}

/// `Pairing::pairing`, which is bilinear: the logarithms multiply.
#[verifier::external_body]
pub(crate) fn pairing(p: [u8; 48], q: [u8; 96]) -> (r: [u8; 576])
    requires
        is_g1(p@),
        is_g2(q@),
    ensures
        r@ == gt_multiple(residue(g1_log(p@) * g2_log(q@))),
        gt_log(r@) == residue(g1_log(p@) * g2_log(q@)),
{
    let a = G1Affine::deserialize_compressed_unchecked(&p[..]).unwrap();
    let b = G2Affine::deserialize_compressed_unchecked(&q[..]).unwrap();
    let mut bytes = [0u8; 576];
    Bls12_381::pairing(a, b).serialize_compressed(&mut bytes[..]).unwrap();
    bytes
}

/// `Pairing::multi_pairing` on two pairs: the product of the two pairings.
#[verifier::external_body]
pub(crate) fn multi_pairing(p: [[u8; 48]; 2], q: [[u8; 96]; 2]) -> (r: [u8; 576])
    requires
        is_g1(p[0]@),
        is_g1(p[1]@),
        is_g2(q[0]@),
        is_g2(q[1]@),
    ensures
        r@ == gt_multiple(
            residue(g1_log(p[0]@) * g2_log(q[0]@) + g1_log(p[1]@) * g2_log(q[1]@)),
        ),
        gt_log(r@) == residue(g1_log(p[0]@) * g2_log(q[0]@) + g1_log(p[1]@) * g2_log(q[1]@)),
{
    let a = p.map(|c| G1Affine::deserialize_compressed_unchecked(&c[..]).unwrap());
    let b = q.map(|c| G2Affine::deserialize_compressed_unchecked(&c[..]).unwrap());
    let mut bytes = [0u8; 576];
    Bls12_381::multi_pairing(a, b).serialize_compressed(&mut bytes[..]).unwrap();
    bytes
}

} // verus!
