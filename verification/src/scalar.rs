//! Elements of the scalar field.

use ark_std::rand::rngs::StdRng;
use vstd::prelude::*;

use crate::backend::{
    draws_polynomial, draws_scalar, is_scalar, law_draws_polynomial, law_draws_scalar,
    limbs_value, limbs_values, poly_evaluate, poly_random, scalar_inverse, scalar_mul,
    scalar_random, scalar_sub,
};
use crate::modular::{lemma_order_bounds, lemma_residue, order, residue};
use crate::poly::eval;

verus! {

/// An element of the scalar field of BLS12-381, held as four little-endian limbs.
#[derive(Clone, Copy, Debug)]
pub struct Scalar {
    pub(crate) limbs: [u64; 4],
}

/// A point at which a share polynomial is evaluated.
pub type DomainPoint = Scalar;

impl View for Scalar {
    type V = int;

    /// The residue modulo the group order that the scalar stands for.
    closed spec fn view(&self) -> int {
        residue(limbs_value(self.limbs@))
    }
}

/// The residues that a sequence of scalars stands for.
pub open spec fn values(scalars: Seq<Scalar>) -> Seq<int> {
    Seq::new(scalars.len(), |i: int| scalars[i]@)
}

impl Scalar {
    #[verifier::type_invariant]
    pub(crate) closed spec fn is_canonical(self) -> bool {
        is_scalar(self.limbs@)
    }

    /// A scalar stands for a number below the group order.
    pub proof fn lemma_range(self)
        ensures
            0 <= self@ < order(),
            residue(self@) == self@,
    {
        lemma_residue(limbs_value(self.limbs@));
    }

    /// The number that a canonical scalar stands for is the one in its limbs.
    pub(crate) proof fn lemma_limbs(self)
        requires
            self.is_canonical(),
        ensures
            self@ == limbs_value(self.limbs@),
            is_scalar(self.limbs@),
    {
        lemma_residue(limbs_value(self.limbs@));
    }

    /// The scalar with the given limbs.
    pub(crate) fn from_limbs(limbs: [u64; 4]) -> (r: Scalar)
        requires
            is_scalar(limbs@),
        ensures
            r@ == limbs_value(limbs@),
    {
        proof {
            lemma_residue(limbs_value(limbs@));
        }
        Scalar { limbs }
    }

    /// The scalar with the given limbs, or nothing if they hold a number that is not below the
    /// group order.
    pub fn from_bigint(limbs: [u64; 4]) -> (r: Option<Scalar>)
        ensures
            r is Some <==> limbs_value(limbs@) < order(),
            r matches Some(scalar) ==> scalar@ == limbs_value(limbs@),
    {
        proof {
            reveal(order);
        }
        let below = limbs[3] < 0x73eda753299d7d48 || (limbs[3] == 0x73eda753299d7d48 && (limbs[2]
            < 0x3339d80809a1d805 || (limbs[2] == 0x3339d80809a1d805 && (limbs[1]
            < 0x53bda402fffe5bfe || (limbs[1] == 0x53bda402fffe5bfe && limbs[0]
            < 0xffffffff00000001)))));
        if below {
            Some(Scalar::from_limbs(limbs))
        } else {
            None
        }
    }

    /// The limbs of the scalar.
    pub fn into_bigint(&self) -> (r: [u64; 4])
        ensures
            limbs_value(r@) == self@,
    {
        proof {
            use_type_invariant(self);
            self.lemma_limbs();
        }
        self.limbs
    }

    /// The scalar `n`.
    pub fn from_u64(n: u64) -> (r: Scalar)
        ensures
            r@ == n,
    {
        proof {
            lemma_order_bounds();
        }
        let r = Scalar { limbs: [n, 0, 0, 0] };
        proof {
            r.lemma_limbs();
        }
        r
    }

    pub fn zero() -> (r: Scalar)
        ensures
            r@ == 0,
    {
        Scalar::from_u64(0)
    }

    pub fn one() -> (r: Scalar)
        ensures
            r@ == 1,
    {
        Scalar::from_u64(1)
    }

    /// Whether the two scalars are the same element of the field.
    pub fn equals(&self, other: &Scalar) -> (r: bool)
        ensures
            r == (self@ == other@),
    {
        proof {
            use_type_invariant(self);
            use_type_invariant(other);
            self.lemma_limbs();
            other.lemma_limbs();
        }
        self.limbs[0] == other.limbs[0] && self.limbs[1] == other.limbs[1] && self.limbs[2]
            == other.limbs[2] && self.limbs[3] == other.limbs[3]
    }

    pub fn is_zero(&self) -> (r: bool)
        ensures
            r == (self@ == 0),
    {
        self.equals(&Scalar::zero())
    }

    /// The difference in the field.
    pub fn minus(&self, other: &Scalar) -> (r: Scalar)
        ensures
            r@ == residue(self@ - other@),
    {
        proof {
            use_type_invariant(self);
            use_type_invariant(other);
            self.lemma_limbs();
            other.lemma_limbs();
            lemma_residue(self@ - other@);
        }
        Scalar { limbs: scalar_sub(self.limbs, other.limbs) }
    }

    /// The product in the field.
    pub fn times(&self, other: &Scalar) -> (r: Scalar)
        ensures
            r@ == residue(self@ * other@),
    {
        proof {
            use_type_invariant(self);
            use_type_invariant(other);
            self.lemma_limbs();
            other.lemma_limbs();
            lemma_residue(self@ * other@);
        }
        Scalar { limbs: scalar_mul(self.limbs, other.limbs) }
    }

    /// The multiplicative inverse, which zero alone lacks.
    pub fn inverse(&self) -> (r: Option<Scalar>)
        ensures
            r is None <==> self@ == 0,
            r matches Some(b) ==> residue(self@ * b@) == 1,
    {
        proof {
            use_type_invariant(self);
            self.lemma_limbs();
        }
        match scalar_inverse(self.limbs) {
            Some(limbs) => {
                let inverse = Scalar { limbs };
                proof {
                    inverse.lemma_limbs();
                }
                Some(inverse)
            },
            None => None,
        }
    }

    /// A scalar drawn at random: the one that the generator yields.
    pub fn random(rng: &mut StdRng) -> (r: Scalar)
        ensures
            0 <= r@ < order(),
            exists|m: &mut StdRng, limbs: [u64; 4]|
                {
                    &&& #[trigger] draws_scalar(m, limbs)
                    &&& *m == *old(rng)
                    &&& *final(m) == *final(rng)
                    &&& r@ == limbs_value(limbs@)
                },
    {
        let limbs = scalar_random(rng);
        proof {
            assert forall|m: &mut StdRng, l: [u64; 4]| #[trigger]
                call_ensures(scalar_random, (m,), l) implies draws_scalar(m, l) by {
                law_draws_scalar(m, l);
            }
        }
        let r = Scalar::from_limbs(limbs);
        proof {
            r.lemma_range();
        }
        r
    }
}

impl PartialEq for Scalar {
    fn eq(&self, other: &Scalar) -> (r: bool) {
        self.equals(other)
    }
}

impl vstd::std_specs::cmp::PartialEqSpecImpl for Scalar {
    open spec fn obeys_eq_spec() -> bool {
        true
    }

    open spec fn eq_spec(&self, other: &Scalar) -> bool {
        self@ == other@
    }
}

impl Eq for Scalar {

}

/// The limbs of a list of scalars.
pub(crate) fn to_limbs(scalars: &Vec<Scalar>) -> (r: Vec<[u64; 4]>)
    ensures
        r.len() == scalars.len(),
        forall|i: int|
            0 <= i < r.len() ==> is_scalar(#[trigger] r[i]@) && limbs_value(r[i]@) == scalars[i]@,
        limbs_values(r@) == values(scalars@),
{
    let mut r: Vec<[u64; 4]> = Vec::new();
    let mut i: usize = 0;
    while i < scalars.len()
        invariant
            i <= scalars.len(),
            r.len() == i,
            forall|j: int|
                0 <= j < i ==> is_scalar(#[trigger] r[j]@) && limbs_value(r[j]@) == scalars[j]@,
        decreases scalars.len() - i,
    {
        let scalar = scalars[i];
        proof {
            use_type_invariant(scalar);
            scalar.lemma_limbs();
        }
        r.push(scalar.limbs);
        i += 1;
    }
    assert(limbs_values(r@) =~= values(scalars@));
    r
}

/// The value at `x` of the polynomial with the given coefficients.
pub fn evaluate(coeffs: &Vec<Scalar>, x: &Scalar) -> (r: Scalar)
    ensures
        r@ == residue(eval(values(coeffs@), x@)),
{
    proof {
        use_type_invariant(x);
        x.lemma_limbs();
        lemma_residue(eval(values(coeffs@), x@));
    }
    let limbs = poly_evaluate(&to_limbs(coeffs), x.limbs);
    Scalar { limbs }
}

/// The coefficients of a polynomial of exactly the given degree, drawn at random: those that the
/// generator yields.
pub fn random_polynomial(degree: u32, rng: &mut StdRng) -> (r: Vec<Scalar>)
    requires
        degree < usize::MAX,
    ensures
        r.len() == degree + 1,
        r[degree as int]@ != 0,
        exists|m: &mut StdRng, coeffs: Vec<[u64; 4]>|
            {
                &&& #[trigger] draws_polynomial(m, degree as usize, coeffs)
                &&& *m == *old(rng)
                &&& *final(m) == *final(rng)
                &&& values(r@) == limbs_values(coeffs@)
            },
{
    let drawn = poly_random(degree as usize, rng);
    proof {
        assert forall|m: &mut StdRng, c: Vec<[u64; 4]>| #[trigger]
            call_ensures(poly_random, (degree as usize, m), c) implies draws_polynomial(
            m,
            degree as usize,
            c,
        ) by {
            law_draws_polynomial(m, degree as usize, c);
        }
    }
    let mut r: Vec<Scalar> = Vec::new();
    let mut i: usize = 0;
    while i < drawn.len()
        invariant
            i <= drawn.len(),
            r.len() == i,
            forall|j: int| 0 <= j < drawn.len() ==> is_scalar(#[trigger] drawn[j]@),
            forall|j: int| 0 <= j < i ==> (#[trigger] r[j])@ == limbs_value(drawn[j]@),
        decreases drawn.len() - i,
    {
        r.push(Scalar::from_limbs(drawn[i]));
        i += 1;
    }
    assert(values(r@) =~= limbs_values(drawn@));
    r
}

} // verus!
