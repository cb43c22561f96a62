//! Points of the two source groups, elements of the target group, and the pairing.

use vstd::arithmetic::power2::{lemma2_to64, lemma_pow2_unfold, pow2};
use vstd::prelude::*;

use crate::backend::{
    domain_points, g1_add, g1_batch_mul, g1_check, g1_fft, g1_fft_mixed, g1_generator, g1_log,
    g1_logs, g1_mul, g1_multiple, g1_neg, g1_zero, g2_add, g2_check, g2_generator, g2_log, g2_mul,
    g2_multiple, gt_log, gt_one, has_domain, is_domain_size, is_g1, is_g2, is_gt, is_mixed_size,
    is_radix2_size, multi_pairing, pairing, refusal, value_on_domain,
};
use crate::common::Error;
use crate::modular::{lemma_order_bounds, lemma_residue, order, residue};
use crate::scalar::{to_limbs, values, Scalar};

verus! {

/// A point of G1, held as its compressed encoding.
#[derive(Clone, Copy, Debug)]
pub struct G1Point {
    pub(crate) bytes: [u8; 48],
}

impl View for G1Point {
    type V = int;

    /// The discrete logarithm of the point: the multiple of the generator that it is.
    closed spec fn view(&self) -> int {
        g1_log(self.bytes@)
    }
}

impl G1Point {
    #[verifier::type_invariant]
    pub(crate) closed spec fn is_point(self) -> bool {
        is_g1(self.bytes@)
    }

    /// The compressed encoding of the point.
    pub closed spec fn encoding(self) -> Seq<u8> {
        self.bytes@
    }

    /// A logarithm is a number below the group order.
    pub proof fn lemma_range(self)
        ensures
            0 <= self@ < order(),
            residue(self@) == self@,
    {
        lemma_residue(choose|k: int| self.bytes@ == #[trigger] g1_multiple(k));
    }

    /// Reads a point from its compressed encoding, which is validated.
    pub fn from_bytes(bytes: &[u8]) -> (r: Result<G1Point, Error>)
        ensures
            r is Ok <==> bytes@.len() == 48 && is_g1(bytes@),
            r matches Ok(p) ==> p.encoding() == bytes@ && p@ == g1_log(bytes@),
            r matches Err(e) ==> e == (if bytes@.len() != 48 {
                Error::InvalidByteLength(48, bytes@.len() as usize)
            } else {
                Error::SerializationError(refusal(bytes@[0]))
            }),
    {
        if bytes.len() != 48 {
            return Err(Error::InvalidByteLength(48, bytes.len()));
        }
        let mut copy: [u8; 48] = [0; 48];
        let mut i: usize = 0;
        while i < 48
            invariant
                i <= 48,
                bytes@.len() == 48,
                forall|j: int| 0 <= j < i ==> copy[j] == bytes@[j],
            decreases 48 - i,
        {
            copy[i] = bytes[i];
            i += 1;
        }
        assert(copy@ =~= bytes@);
        match g1_check(&copy) {
            Ok(_) => Ok(G1Point { bytes: copy }),
            Err(e) => Err(Error::SerializationError(e)),
        }
    }

    /// The compressed encoding of the point.
    pub fn to_bytes(&self) -> (r: [u8; 48])
        ensures
            r@ == self.encoding(),
            is_g1(r@),
            g1_log(r@) == self@,
    {
        proof {
            use_type_invariant(self);
        }
        self.bytes
    }

    /// Whether the two points are the same.
    pub fn equals(&self, other: &G1Point) -> (r: bool)
        ensures
            r == (self@ == other@),
            r == (self.encoding() == other.encoding()),
    {
        proof {
            use_type_invariant(self);
            use_type_invariant(other);
        }
        let mut i: usize = 0;
        while i < 48
            invariant
                i <= 48,
                self.is_point(),
                other.is_point(),
                forall|j: int| 0 <= j < i ==> self.bytes[j] == other.bytes[j],
            decreases 48 - i,
        {
            if self.bytes[i] != other.bytes[i] {
                assert(self.bytes@[i as int] != other.bytes@[i as int]);
                return false;
            }
            i += 1;
        }
        assert(self.bytes@ =~= other.bytes@);
        true
    }

    /// The fixed generator of the group.
    pub fn generator() -> (r: G1Point)
        ensures
            r@ == 1,
    {
        Self { bytes: g1_generator() }
    }

    /// The sum of the two points.
    pub fn plus(&self, other: &G1Point) -> (r: G1Point)
        ensures
            r@ == residue(self@ + other@),
    {
        proof {
            use_type_invariant(self);
            use_type_invariant(other);
        }
        Self { bytes: g1_add(self.bytes, other.bytes) }
    }

    /// The point multiplied by a scalar.
    pub fn times(&self, scalar: &Scalar) -> (r: G1Point)
        ensures
            r@ == residue(self@ * scalar@),
    {
        proof {
            use_type_invariant(self);
            use_type_invariant(scalar);
            scalar.lemma_limbs();
        }
        Self { bytes: g1_mul(self.bytes, scalar.limbs) }
    }

    /// The identity.
    pub fn zero() -> (r: G1Point)
        ensures
            r@ == 0,
    {
        proof {
            lemma_order_bounds();
        }
        Self { bytes: g1_zero() }
    }

    /// Whether the point is the identity.
    pub fn is_zero(&self) -> (r: bool)
        ensures
            r == (self@ == 0),
    {
        self.equals(&G1Point::zero())
    }

    /// The inverse of the point.
    pub fn negated(&self) -> (r: G1Point)
        ensures
            r@ == residue(-self@),
    {
        proof {
            use_type_invariant(self);
        }
        Self { bytes: g1_neg(self.bytes) }
    }
}

impl PartialEq for G1Point {
    fn eq(&self, other: &G1Point) -> (r: bool) {
        self.equals(other)
    }
}

impl vstd::std_specs::cmp::PartialEqSpecImpl for G1Point {
    open spec fn obeys_eq_spec() -> bool {
        true
    }

    open spec fn eq_spec(&self, other: &G1Point) -> bool {
        self@ == other@
    }
}

impl Eq for G1Point {

}

/// A point of G2, held as its compressed encoding.
#[derive(Clone, Copy, Debug)]
pub struct G2Point {
    pub(crate) bytes: [u8; 96],
}

impl View for G2Point {
    type V = int;

    /// The discrete logarithm of the point: the multiple of the generator that it is.
    closed spec fn view(&self) -> int {
        g2_log(self.bytes@)
    }
}

impl G2Point {
    #[verifier::type_invariant]
    pub(crate) closed spec fn is_point(self) -> bool {
        is_g2(self.bytes@)
    }

    /// The compressed encoding of the point.
    pub closed spec fn encoding(self) -> Seq<u8> {
        self.bytes@
    }

    /// A logarithm is a number below the group order.
    pub proof fn lemma_range(self)
        ensures
            0 <= self@ < order(),
            residue(self@) == self@,
    {
        lemma_residue(choose|k: int| self.bytes@ == #[trigger] g2_multiple(k));
    }

    /// Reads a point from its compressed encoding, which is validated.
    pub fn from_bytes(bytes: &[u8]) -> (r: Result<G2Point, Error>)
        ensures
            r is Ok <==> bytes@.len() == 96 && is_g2(bytes@),
            r matches Ok(p) ==> p.encoding() == bytes@ && p@ == g2_log(bytes@),
            r matches Err(e) ==> e == (if bytes@.len() != 96 {
                Error::InvalidByteLength(96, bytes@.len() as usize)
            } else {
                Error::SerializationError(refusal(bytes@[0]))
            }),
    {
        if bytes.len() != 96 {
            return Err(Error::InvalidByteLength(96, bytes.len()));
        }
        let mut copy: [u8; 96] = [0; 96];
        let mut i: usize = 0;
        while i < 96
            invariant
                i <= 96,
                bytes@.len() == 96,
                forall|j: int| 0 <= j < i ==> copy[j] == bytes@[j],
            decreases 96 - i,
        {
            copy[i] = bytes[i];
            i += 1;
        }
        assert(copy@ =~= bytes@);
        match g2_check(&copy) {
            Ok(_) => Ok(G2Point { bytes: copy }),
            Err(e) => Err(Error::SerializationError(e)),
        }
    }

    /// The compressed encoding of the point.
    pub fn to_bytes(&self) -> (r: [u8; 96])
        ensures
            r@ == self.encoding(),
            is_g2(r@),
            g2_log(r@) == self@,
    {
        proof {
            use_type_invariant(self);
        }
        self.bytes
    }

    /// Whether the two points are the same.
    pub fn equals(&self, other: &G2Point) -> (r: bool)
        ensures
            r == (self@ == other@),
            r == (self.encoding() == other.encoding()),
    {
        proof {
            use_type_invariant(self);
            use_type_invariant(other);
        }
        let mut i: usize = 0;
        while i < 96
            invariant
                i <= 96,
                self.is_point(),
                other.is_point(),
                forall|j: int| 0 <= j < i ==> self.bytes[j] == other.bytes[j],
            decreases 96 - i,
        {
            if self.bytes[i] != other.bytes[i] {
                assert(self.bytes@[i as int] != other.bytes@[i as int]);
                return false;
            }
            i += 1;
        }
        assert(self.bytes@ =~= other.bytes@);
        true
    }

    /// The fixed generator of the group.
    pub fn generator() -> (r: G2Point)
        ensures
            r@ == 1,
    {
        Self { bytes: g2_generator() }
    }

    /// The sum of the two points.
    pub fn plus(&self, other: &G2Point) -> (r: G2Point)
        ensures
            r@ == residue(self@ + other@),
    {
        proof {
            use_type_invariant(self);
            use_type_invariant(other);
        }
        Self { bytes: g2_add(self.bytes, other.bytes) }
    }

    /// The point multiplied by a scalar.
    pub fn times(&self, scalar: &Scalar) -> (r: G2Point)
        ensures
            r@ == residue(self@ * scalar@),
    {
        proof {
            use_type_invariant(self);
            use_type_invariant(scalar);
            scalar.lemma_limbs();
        }
        Self { bytes: g2_mul(self.bytes, scalar.limbs) }
    }

    /// The identity.
    pub fn zero() -> (r: G2Point)
        ensures
            r@ == 0,
    {
        proof {
            lemma_residue(0);
        }
        Self::generator().times(&Scalar::zero())
    }

    /// Whether the point is the identity.
    pub fn is_zero(&self) -> (r: bool)
        ensures
            r == (self@ == 0),
    {
        self.equals(&G2Point::zero())
    }
}

impl PartialEq for G2Point {
    fn eq(&self, other: &G2Point) -> (r: bool) {
        self.equals(other)
    }
}

impl vstd::std_specs::cmp::PartialEqSpecImpl for G2Point {
    open spec fn obeys_eq_spec() -> bool {
        true
    }

    open spec fn eq_spec(&self, other: &G2Point) -> bool {
        self@ == other@
    }
}

impl Eq for G2Point {

}

/// An element of the target group, held as its canonical encoding.
#[derive(Clone, Copy, Debug)]
pub struct GtElement {
    pub(crate) bytes: [u8; 576],
}

impl View for GtElement {
    type V = int;

    /// The discrete logarithm to the base of the pairing of the two generators.
    closed spec fn view(&self) -> int {
        gt_log(self.bytes@)
    }
}

impl GtElement {
    #[verifier::type_invariant]
    pub(crate) closed spec fn is_element(self) -> bool {
        is_gt(self.bytes@)
    }

    /// The pairing of the two points.
    pub fn pairing(p: &G1Point, q: &G2Point) -> (r: GtElement)
        ensures
            r@ == residue(p@ * q@),
    {
        proof {
            use_type_invariant(p);
            use_type_invariant(q);
        }
        GtElement { bytes: pairing(p.bytes, q.bytes) }
    }

    /// The product of the pairings of `p[0]` with `q[0]` and of `p[1]` with `q[1]`.
    pub fn multi_pairing(p: [&G1Point; 2], q: [&G2Point; 2]) -> (r: GtElement)
        ensures
            r@ == residue(p[0]@ * q[0]@ + p[1]@ * q[1]@),
    {
        let (p0, p1, q0, q1) = (p[0], p[1], q[0], q[1]);
        proof {
            use_type_invariant(p0);
            use_type_invariant(p1);
            use_type_invariant(q0);
            use_type_invariant(q1);
        }
        GtElement { bytes: multi_pairing([p0.bytes, p1.bytes], [q0.bytes, q1.bytes]) }
    }

    /// The neutral element of the target group.
    pub fn one() -> (r: GtElement)
        ensures
            r@ == 0,
    {
        GtElement { bytes: gt_one() }
    }

    /// Whether the two elements are the same.
    pub fn equals(&self, other: &GtElement) -> (r: bool)
        ensures
            r == (self@ == other@),
    {
        proof {
            use_type_invariant(self);
            use_type_invariant(other);
        }
        let mut i: usize = 0;
        while i < 576
            invariant
                i <= 576,
                self.is_element(),
                other.is_element(),
                forall|j: int| 0 <= j < i ==> self.bytes[j] == other.bytes[j],
            decreases 576 - i,
        {
            if self.bytes[i] != other.bytes[i] {
                assert(self.bytes@[i as int] != other.bytes@[i as int]);
                return false;
            }
            i += 1;
        }
        assert(self.bytes@ =~= other.bytes@);
        true
    }
}

/// The discrete logarithms of a sequence of points of G1.
pub open spec fn logs(points: Seq<G1Point>) -> Seq<int> {
    Seq::new(points.len(), |i: int| points[i]@)
}

/// Each scalar times the one base point.
pub fn batch_times(base: &G1Point, scalars: &Vec<Scalar>) -> (r: Vec<G1Point>)
    ensures
        r.len() == scalars.len(),
        forall|i: int| 0 <= i < r.len() ==> (#[trigger] r[i])@ == residue(base@ * scalars[i]@),
{
    proof {
        use_type_invariant(base);
    }
    let limbs = to_limbs(scalars);
    let encoded = g1_batch_mul(base.bytes, &limbs);
    let mut r: Vec<G1Point> = Vec::new();
    let mut i: usize = 0;
    while i < encoded.len()
        invariant
            i <= encoded.len(),
            encoded.len() == scalars.len(),
            r.len() == i,
            forall|j: int|
                0 <= j < encoded.len() ==> (#[trigger] encoded[j])@ == g1_multiple(
                    residue(base@ * scalars[j]@),
                ) && g1_log(encoded[j]@) == residue(base@ * scalars[j]@),
            forall|j: int| 0 <= j < i ==> (#[trigger] r[j])@ == residue(base@ * scalars[j]@),
        decreases encoded.len() - i,
    {
        r.push(G1Point { bytes: encoded[i] });
        i += 1;
    }
    r
}

/// The values, at the elements of a domain, of the polynomial whose coefficients are the given
/// points. The domain is the coset, with the given offset, of the subgroup of `size` elements.
pub(crate) fn fft(coeffs: &Vec<G1Point>, size: usize, offset: &Scalar) -> (r: Vec<G1Point>)
    requires
        is_domain_size(size as nat),
        has_domain(size as nat),
        offset@ != 0,
    ensures
        r.len() == size,
        forall|i: int|
            0 <= i < size ==> (#[trigger] r[i])@ == residue(
                value_on_domain(logs(coeffs@), domain_points(size as nat, offset@), i),
            ),
{
    let mut encoded: Vec<[u8; 48]> = Vec::new();
    let mut i: usize = 0;
    while i < coeffs.len()
        invariant
            i <= coeffs.len(),
            encoded.len() == i,
            forall|j: int|
                0 <= j < i ==> is_g1(#[trigger] encoded[j]@) && g1_log(encoded[j]@) == coeffs[j]@,
        decreases coeffs.len() - i,
    {
        let coeff = coeffs[i];
        proof {
            use_type_invariant(coeff);
        }
        encoded.push(coeff.bytes);
        i += 1;
    }
    assert(g1_logs(encoded@) =~= logs(coeffs@));
    let ghost points = domain_points(size as nat, offset@);
    proof {
        use_type_invariant(offset);
        offset.lemma_limbs();
        lemma_radix(size as nat);
    }
    let transformed = if size % 3 == 0 {
        g1_fft_mixed(&encoded, size, offset.limbs)
    } else {
        g1_fft(&encoded, size, offset.limbs)
    };
    let mut r: Vec<G1Point> = Vec::new();
    let mut i: usize = 0;
    while i < transformed.len()
        invariant
            i <= transformed.len(),
            transformed.len() == size,
            r.len() == i,
            forall|j: int|
                0 <= j < size ==> {
                    let value = residue(value_on_domain(logs(coeffs@), points, j));
                    (#[trigger] transformed[j])@ == g1_multiple(value) && g1_log(transformed[j]@)
                        == value
                },
            forall|j: int|
                0 <= j < i ==> (#[trigger] r[j])@ == residue(
                    value_on_domain(logs(coeffs@), points, j),
                ),
        decreases transformed.len() - i,
    {
        r.push(G1Point { bytes: transformed[i] });
        i += 1;
    }
    r
}

/// Three divides the sizes of the mixed-radix domains, and no other.
proof fn lemma_radix(size: nat)
    requires
        is_domain_size(size),
    ensures
        size % 3 == 0 ==> is_mixed_size(size),
        size % 3 != 0 ==> is_radix2_size(size),
{
    if is_radix2_size(size) {
        let k = choose|k: nat| k <= 32 && size == #[trigger] pow2(k);
        lemma_power_of_two(k);
    }
}

/// Three divides no power of two.
proof fn lemma_power_of_two(k: nat)
    ensures
        pow2(k) % 3 != 0,
    decreases k,
{
    if k == 0 {
        lemma2_to64();
    } else {
        lemma_pow2_unfold(k);
        lemma_power_of_two((k - 1) as nat);
    }
}

} // verus!
