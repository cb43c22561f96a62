//! Shares of the committee's private key, and how a threshold of them is combined.

use vstd::prelude::*;

use crate::curve::{G1Point, G2Point};
use crate::keypair::Keypair;
use crate::modular::{cong, lemma_cong_ops, lemma_cong_residue, lemma_residue, order, residue};
use crate::poly::{basis_product, is_basis_value};
use crate::scalar::{values, DomainPoint, Scalar};

verus! {

/// A share of the private key: the generator of G2 times a value of the key polynomial.
#[derive(Clone, Copy, Debug)]
pub struct PrivateKeyShare(pub G2Point);

impl PartialEq for PrivateKeyShare {
    fn eq(&self, other: &PrivateKeyShare) -> (r: bool) {
        self.0.equals(&other.0)
    }
}

impl vstd::std_specs::cmp::PartialEqSpecImpl for PrivateKeyShare {
    open spec fn obeys_eq_spec() -> bool {
        true
    }

    open spec fn eq_spec(&self, other: &PrivateKeyShare) -> bool {
        self.0@ == other.0@
    }
}

impl Eq for PrivateKeyShare {

}

/// The commitment to a share: the generator of G1 times the value of the key polynomial.
#[derive(Clone, Copy, Debug, PartialEq, Eq)]
pub struct ShareCommitment(pub G1Point);

/// A private key share multiplied by the decryption key of the validator who holds it.
#[derive(Clone, Copy, Debug, PartialEq, Eq)]
pub struct BlindedKeyShare {
    pub validator_public_key: G2Point,
    pub blinded_key_share: G2Point,
}

impl BlindedKeyShare {
    /// Takes the decryption key of the validator off the share. Zero alone has no inverse.
    pub fn unblind(&self, validator_keypair: &Keypair) -> (r: Option<PrivateKeyShare>)
        ensures
            r is None <==> validator_keypair.decryption_key@ == 0,
            r matches Some(share) ==> residue(share.0@ * validator_keypair.decryption_key@)
                == self.blinded_key_share@,
    {
        match validator_keypair.decryption_key.inverse() {
            None => None,
            Some(inverse) => {
                let share = PrivateKeyShare(self.blinded_key_share.times(&inverse));
                proof {
                    let (b, k, i) = (
                        self.blinded_key_share@,
                        validator_keypair.decryption_key@,
                        inverse@,
                    );
                    lemma_cancel(b, k, i);
                    self.blinded_key_share.lemma_range();
                }
                Some(share)
            },
        }
    }
}

/// Multiplying by an inverse of `k` and then by `k` changes nothing.
pub proof fn lemma_cancel(b: int, k: int, i: int)
    requires
        residue(k * i) == 1,
    ensures
        residue(residue(b * i) * k) == residue(b),
{
    lemma_cong_residue(b * i);
    lemma_cong_ops(residue(b * i), b * i, k, k);
    lemma_residue(1);
    lemma_residue(k * i);
    lemma_cong_ops(b, b, k * i, 1);
    assert(b * i * k == b * (k * i)) by (nonlinear_arith);
}

// ---------------------------------------------------------------------------------------------
// Lagrange interpolation
// ---------------------------------------------------------------------------------------------

/// The values at `x` of the Lagrange basis polynomials of the given points.
pub fn lagrange_basis_at(points: &Vec<DomainPoint>, x: &DomainPoint) -> (r: Vec<Scalar>)
    ensures
        r.len() == points.len(),
        forall|j: int|
            0 <= j < points.len() ==> is_basis_value(
                (#[trigger] r[j])@,
                values(points@),
                j,
                x@,
            ),
{
    let mut r: Vec<Scalar> = Vec::new();
    let mut j: usize = 0;
    while j < points.len()
        invariant
            j <= points.len(),
            r.len() == j,
            forall|k: int|
                0 <= k < j ==> is_basis_value((#[trigger] r[k])@, values(points@), k, x@),
        decreases points.len() - j,
    {
        let value = basis_value(points, &points[j], x);
        r.push(value);
        j += 1;
    }
    r
}

/// The value at `x` of the Lagrange basis polynomial of `x_j` among the given points.
fn basis_value(points: &Vec<DomainPoint>, x_j: &DomainPoint, x: &DomainPoint) -> (r: Scalar)
    ensures
        cong(
            r@ * basis_product(values(points@), x_j@, x_j@),
            basis_product(values(points@), x_j@, x@),
        ),
{
    let ghost xs = values(points@);
    let mut prod = Scalar::one();
    let mut i: usize = 0;
    while i < points.len()
        invariant
            i <= points.len(),
            xs == values(points@),
            cong(
                prod@ * basis_product(xs.take(i as int), x_j@, x_j@),
                basis_product(xs.take(i as int), x_j@, x@),
            ),
        decreases points.len() - i,
    {
        let x_m = &points[i];
        assert(xs.take(i + 1).drop_last() =~= xs.take(i as int));
        assert(xs.take(i + 1).last() == x_m@);
        if !x_j.equals(x_m) {
            let numerator = x.minus(x_m);
            let denominator = x_j.minus(x_m);
            proof {
                x_j.lemma_range();
                x_m.lemma_range();
                lemma_difference(x_j@, x_m@);
            }
            let inverse = denominator.inverse().unwrap();
            let factor = numerator.times(&inverse);
            proof {
                lemma_cong_residue(x@ - x_m@);
                lemma_cong_residue(x_j@ - x_m@);
                lemma_cong_residue(numerator@ * inverse@);
                lemma_cong_residue(prod@ * factor@);
                lemma_basis_step(
                    prod@,
                    basis_product(xs.take(i as int), x_j@, x_j@),
                    basis_product(xs.take(i as int), x_j@, x@),
                    x@ - x_m@,
                    x_j@ - x_m@,
                    numerator@,
                    denominator@,
                    inverse@,
                    factor@,
                );
            }
            prod = prod.times(&factor);
        }
        i += 1;
    }
    assert(xs.take(points.len() as int) =~= xs);
    prod
}

/// Numbers below the group order that differ are not congruent.
pub proof fn lemma_difference(a: int, b: int)
    requires
        0 <= a < order(),
        0 <= b < order(),
        a != b,
    ensures
        residue(a - b) != 0,
{
    if residue(a - b) == 0 {
        lemma_residue(0);
        lemma_cong_ops(a - b, 0, b, b);
        lemma_residue(a);
        lemma_residue(b);
    }
}

/// One more factor `a / b` of a basis value.
proof fn lemma_basis_step(
    p: int,
    d: int,
    n: int,
    a: int,
    b: int,
    ra: int,
    rb: int,
    i: int,
    f: int,
)
    requires
        cong(p * d, n),
        cong(ra, a),
        cong(rb, b),
        cong(f, ra * i),
        residue(rb * i) == 1,
    ensures
        cong(residue(p * f) * (b * d), a * n),
{
    lemma_cong_residue(p * f);
    lemma_residue(1);
    lemma_residue(rb * i);
    // p * f is congruent to p * (a * i)
    lemma_cong_ops(ra, a, i, i);
    lemma_cong_ops(p, p, f, a * i);
    lemma_cong_ops(residue(p * f), p * (a * i), b * d, b * d);
    // b * i is congruent to one
    lemma_cong_ops(rb, b, i, i);
    lemma_cong_ops(b * i, 1, a * (p * d), a * (p * d));
    lemma_cong_ops(a, a, p * d, n);
    assert((p * (a * i)) * (b * d) == (b * i) * (a * (p * d))) by (nonlinear_arith);
    assert(1 * (a * (p * d)) == a * (p * d));
}

/// The Lagrange coefficients that combine the shares at the given points into the secret.
pub fn prepare_combine_simple(domain: &Vec<DomainPoint>) -> (r: Vec<Scalar>)
    ensures
        r.len() == domain.len(),
        forall|j: int|
            0 <= j < domain.len() ==> is_basis_value((#[trigger] r[j])@, values(domain@), j, 0),
{
    lagrange_basis_at(domain, &Scalar::zero())
}

} // verus!
