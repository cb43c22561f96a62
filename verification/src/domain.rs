//! The multiplicative subgroups of the scalar field, and their cosets, whose elements are the
//! evaluation points of the committee.

use vstd::arithmetic::div_mod::{
    lemma_div_multiples_vanish, lemma_fundamental_div_mod, lemma_mod_multiples_vanish,
    lemma_mul_mod_noop,
};
use vstd::arithmetic::power::{lemma_pow_adds, lemma_pow_multiplies, lemma_square_is_pow2, pow};
use vstd::arithmetic::power2::{lemma2_to64, lemma_pow2, lemma_pow2_adds, pow2};
use vstd::prelude::*;

use crate::backend::{
    domain_element, domain_generator, domain_point, domain_points, domain_size, has_domain,
    is_domain_size, is_mixed_size, is_radix2_size, is_smallest_domain, is_smallest_radix2,
    mixed_domain_size, value_on_domain,
};
use crate::curve::{fft, logs, G1Point};
use crate::modular::{
    cong, lemma_cong_ops, lemma_cong_residue, lemma_order_bounds, lemma_residue, order, residue,
};
use crate::number_theory::{
    is_prime, lemma_power_one_multiple, lemma_powers_distinct, lemma_product_concat,
    lemma_product_repeat, product,
};
use crate::powers::lemma_powers_at_order;
use crate::primality::{lemma_cancel_factor, lemma_prime_2, lemma_prime_3};
use crate::scalar::{DomainPoint, Scalar};

verus! {

/// A subgroup of the multiplicative group of the scalar field, or a coset of one.
#[derive(Clone, Copy, Debug)]
pub struct EvaluationDomain {
    pub(crate) size: usize,
    pub(crate) offset: Scalar,
}

impl View for EvaluationDomain {
    type V = Seq<int>;

    /// The elements of the domain.
    closed spec fn view(&self) -> Seq<int> {
        domain_points(self.size as nat, self.offset@)
    }
}

/// `points` are the elements of an evaluation domain.
pub open spec fn is_domain(points: Seq<int>) -> bool {
    exists|size: nat, offset: int|
        {
            &&& is_domain_size(size)
            &&& !cong(offset, 0)
            &&& points == #[trigger] domain_points(size, offset)
        }
}

impl EvaluationDomain {
    #[verifier::type_invariant]
    pub(crate) closed spec fn is_well_formed(self) -> bool {
        &&& is_domain_size(self.size as nat)
        &&& has_domain(self.size as nat)
        &&& self.offset@ != 0
    }

    /// The smallest subgroup with room for `num_coeffs` elements whose size is a power of two,
    /// or, where that would be too large, the smallest one of all.
    pub fn new(num_coeffs: usize) -> (r: Option<EvaluationDomain>)
        ensures
            r is Some <==> has_domain(num_coeffs as nat),
            r matches Some(d) ==> {
                &&& d@ == domain_points(d@.len(), 1)
                &&& num_coeffs <= 0x1_0000_0000 ==> is_smallest_radix2(
                    num_coeffs as nat,
                    d@.len(),
                )
                &&& num_coeffs > 0x1_0000_0000 ==> is_smallest_domain(num_coeffs as nat, d@.len())
            },
    {
        if num_coeffs as u64 > largest_domain() {
            return None;
        }
        let size = domain_size(num_coeffs);
        proof {
            lemma_largest(num_coeffs as nat, size as nat);
        }
        Some(EvaluationDomain { size, offset: Scalar::one() })
    }

    /// The smallest subgroup with room for `num_coeffs` elements, whether its size is a power of
    /// two or three times one.
    pub fn mixed_radix(num_coeffs: usize) -> (r: Option<EvaluationDomain>)
        ensures
            r is Some <==> has_domain(num_coeffs as nat),
            r matches Some(d) ==> {
                &&& d@ == domain_points(d@.len(), 1)
                &&& is_smallest_domain(num_coeffs as nat, d@.len())
            },
    {
        if num_coeffs as u64 > largest_domain() {
            return None;
        }
        let size = mixed_domain_size(num_coeffs);
        proof {
            lemma_largest(num_coeffs as nat, size as nat);
        }
        Some(EvaluationDomain { size, offset: Scalar::one() })
    }

    /// The coset, with the given offset, of the same subgroup. Zero is no offset.
    pub fn get_coset(&self, offset: &Scalar) -> (r: Option<EvaluationDomain>)
        ensures
            r is None <==> offset@ == 0,
            r matches Some(d) ==> d@ == domain_points(self@.len(), offset@),
    {
        proof {
            use_type_invariant(self);
        }
        if offset.is_zero() {
            None
        } else {
            Some(EvaluationDomain { size: self.size, offset: *offset })
        }
    }

    /// The number of elements of the domain.
    pub fn size(&self) -> (r: usize)
        ensures
            r == self@.len(),
            is_domain(self@),
    {
        proof {
            use_type_invariant(self);
            self.offset.lemma_range();
            lemma_residue(0);
            assert(self@ == domain_points(self.size as nat, self.offset@));
        }
        self.size
    }

    /// Element `i` of the domain, counted round and round.
    pub fn element(&self, i: usize) -> (r: DomainPoint)
        ensures
            r@ == self@[i as int % self@.len() as int],
    {
        let offset = self.offset;
        proof {
            use_type_invariant(self);
            use_type_invariant(offset);
            offset.lemma_limbs();
            lemma_order_bounds();
            lemma_residue(offset@ * pow(domain_generator(self.size as nat), i as nat));
            lemma_wrap_around(self.size as nat, offset@, i as nat);
        }
        Scalar::from_limbs(domain_element(self.size, offset.limbs, i))
    }

    /// The values, at the elements of the domain, of the polynomial whose coefficients are the
    /// given points; coefficients beyond the size of the domain are dropped.
    pub fn evaluate_points(&self, coeffs: &Vec<G1Point>) -> (r: Vec<G1Point>)
        ensures
            r.len() == self@.len(),
            forall|i: int|
                0 <= i < self@.len() ==> (#[trigger] r[i])@ == residue(
                    value_on_domain(logs(coeffs@), self@, i),
                ),
    {
        proof {
            use_type_invariant(self);
        }
        fft(coeffs, self.size, &self.offset)
    }
}

/// The largest number of elements for which there is a domain.
fn largest_domain() -> (r: u64)
    ensures
        forall|n: nat| #[trigger] has_domain(n) <==> n <= r,
{
    if usize::MAX as u64 > 0xffff_ffff {
        0x3_0000_0000
    } else {
        0x8000_0000
    }
}

/// The smallest domain with room for a number of elements is not too large.
proof fn lemma_largest(n: nat, size: nat)
    requires
        has_domain(n),
        n <= 0x1_0000_0000 ==> is_smallest_radix2(n, size) || is_smallest_domain(n, size),
        n > 0x1_0000_0000 ==> is_smallest_domain(n, size),
    ensures
        is_domain_size(size),
        has_domain(size),
{
    lemma2_to64();
    assert(is_radix2_size(pow2(31)));
    assert(is_radix2_size(pow2(32)));
    assert(is_mixed_size(3 * pow2(32)));
    assert(is_domain_size(pow2(31)));
    assert(is_domain_size(pow2(32)));
    assert(is_domain_size(3 * pow2(32)));
}

// ---------------------------------------------------------------------------------------------
// The order of the generator
// ---------------------------------------------------------------------------------------------

/// The size of a domain divides the group order less one.
proof fn lemma_domain_size_divides(size: nat)
    requires
        is_domain_size(size),
    ensures
        size > 0,
        (order() - 1) == size * ((order() - 1) / size as int),
{
    lemma2_to64();
    reveal(order);
    let c: int = (order() - 1) / 0x3_0000_0000;
    assert(order() - 1 == 0x3_0000_0000 * c);
    let t: int = if is_radix2_size(size) {
        let k = choose|k: nat| k <= 32 && size == #[trigger] pow2(k);
        lemma_pow2_adds(k, (32 - k) as nat);
        let rest = pow2((32 - k) as nat) as int;
        assert(size * (3 * rest) == 3 * (size * rest)) by (nonlinear_arith);
        3 * rest
    } else {
        let k = choose|k: nat| k <= 32 && size == 3 * #[trigger] pow2(k);
        lemma_pow2_adds(k, (32 - k) as nat);
        let (power, rest) = (pow2(k) as int, pow2((32 - k) as nat) as int);
        assert((3 * power) * rest == 3 * (power * rest)) by (nonlinear_arith);
        rest
    };
    assert(size * t == 0x3_0000_0000);
    assert(size > 0) by (nonlinear_arith)
        requires
            size * t == 0x3_0000_0000,
            size >= 0,
    ;
    let q = t * c;
    assert(order() - 1 == size * q) by (nonlinear_arith)
        requires
            order() - 1 == 0x3_0000_0000 * c,
            size * t == 0x3_0000_0000,
            q == t * c,
    ;
    lemma_div_multiples_vanish(q, size as int);
}

/// The generator of a domain, to the power of a part of its size, is 7 to the power of the same
/// part of the group order less one.
proof fn lemma_generator_part(size: nat, q: nat)
    requires
        is_domain_size(size),
        q > 0,
        size % q == 0,
    ensures
        pow(domain_generator(size), size / q) == pow(7, ((order() - 1) / q as int) as nat),
{
    lemma_domain_size_divides(size);
    lemma_order_bounds();
    let c = (order() - 1) / size as int;
    assert(c >= 0) by (nonlinear_arith)
        requires
            size * c > 0,
            size > 0,
    ;
    lemma_fundamental_div_mod(size as int, q as int);
    let h = size / q;
    assert(order() - 1 == q * (c * h)) by (nonlinear_arith)
        requires
            order() - 1 == size * c,
            size == q * h,
    ;
    lemma_div_multiples_vanish(c * h, q as int);
    lemma_pow_multiplies(7, c as nat, h);
}

/// The generator to the power of the size of its domain is one.
proof fn lemma_generator_power(size: nat)
    requires
        is_domain_size(size),
    ensures
        size > 0,
        pow(domain_generator(size), size) % order() == 1,
{
    lemma_domain_size_divides(size);
    lemma_powers_at_order();
    lemma_order_bounds();
    let m = order();
    lemma_generator_part(size, 1);
    let half = ((m - 1) / 2) as nat;
    assert(m - 1 == 2 * half) by {
        reveal(order);
    }
    lemma_pow_multiplies(7, half, 2);
    lemma_square_is_pow2(pow(7, half));
    lemma_mul_mod_noop(pow(7, half), pow(7, half), m);
    assert((m - 1) * (m - 1) == m * (m - 2) + 1) by (nonlinear_arith);
    lemma_mod_multiples_vanish(m - 2, 1, m);
    lemma_residue(1);
}

/// Lower powers of the generator are distinct.
proof fn lemma_generator_powers_distinct(size: nat, i: nat, j: nat)
    requires
        is_domain_size(size),
        i < j < size,
    ensures
        !cong(pow(domain_generator(size), i), pow(domain_generator(size), j)),
{
    lemma_generator_power(size);
    lemma_powers_at_order();
    lemma_order_bounds();
    lemma_prime_2();
    lemma_prime_3();
    let radix2 = is_radix2_size(size);
    let k = if radix2 {
        choose|k: nat| k <= 32 && size == #[trigger] pow2(k)
    } else {
        choose|k: nat| k <= 32 && size == 3 * #[trigger] pow2(k)
    };
    let twos = Seq::new(k, |n: int| 2int);
    let threes = if radix2 {
        Seq::<int>::empty()
    } else {
        seq![3int]
    };
    let qs = twos + threes;
    lemma_product_repeat(2, k);
    lemma_pow2(k);
    lemma_product_concat(twos, threes);
    assert(product(qs) == size) by {
        if !radix2 {
            assert(seq![3int].drop_first() =~= Seq::<int>::empty());
            assert(product(seq![3int].drop_first()) == 1);
            assert(product(threes) == 3);
        }
    }
    let a = domain_generator(size);
    assert forall|n: int| 0 <= n < qs.len() implies is_prime(#[trigger] qs[n]) && pow(
        a,
        (product(qs) / qs[n]) as nat,
    ) % order() != 1 by {
        if n < k {
            assert(qs[n] == 2);
            vstd::arithmetic::power2::lemma_pow2_unfold(k);
            lemma_generator_part(size, 2);
        } else {
            assert(qs[n] == 3);
            lemma_generator_part(size, 3);
        }
    }
    lemma_powers_distinct(a, qs, order(), i, j);
}

/// The elements of an evaluation domain are distinct.
pub proof fn lemma_points_distinct(points: Seq<int>, i: int, j: int)
    requires
        is_domain(points),
        0 <= i < j < points.len(),
    ensures
        !cong(points[i], points[j]),
{
    let (size, offset) = choose|size: nat, offset: int|
        {
            &&& is_domain_size(size)
            &&& !cong(offset, 0)
            &&& points == #[trigger] domain_points(size, offset)
        };
    let g = domain_generator(size);
    let (x, y) = (pow(g, i as nat), pow(g, j as nat));
    lemma_generator_powers_distinct(size, i as nat, j as nat);
    lemma_cong_residue(offset * x);
    lemma_cong_residue(offset * y);
    assert(offset * x == x * offset && offset * y == y * offset) by (nonlinear_arith);
    if cong(points[i], points[j]) {
        lemma_cancel_factor(offset, x, y);
    }
}

/// No power of the generator of a domain is congruent to zero.
pub proof fn lemma_generator_is_unit(size: nat, i: nat)
    requires
        is_domain_size(size),
    ensures
        !cong(pow(domain_generator(size), i), 0),
{
    let g = domain_generator(size);
    lemma_order_bounds();
    lemma_generator_power(size);
    lemma_power_one_multiple(g, size, i, order());
    lemma_residue(0);
    if cong(pow(g, i), 0) {
        // the power of the size times `i` is a power of the one at hand
        assert(size * i >= i) by (nonlinear_arith)
            requires
                size > 0,
        ;
        let rest = (size * i - i) as nat;
        lemma_pow_adds(g, i, rest);
        lemma_cong_ops(pow(g, i), 0, pow(g, rest), pow(g, rest));
        assert(0 * pow(g, rest) == 0);
        lemma_residue(1);
    }
}

/// Counting on from the last element of a domain leads to the first one again.
pub proof fn lemma_wrap_around(size: nat, offset: int, i: nat)
    requires
        is_domain_size(size),
    ensures
        size > 0,
        domain_point(size, offset, i) == domain_point(size, offset, (i % size) as nat),
{
    lemma_generator_power(size);
    lemma_order_bounds();
    lemma_fundamental_div_mod(i as int, size as int);
    let g = domain_generator(size);
    let (q, r) = ((i / size) as nat, (i % size) as nat);
    assert(size * q >= 0) by (nonlinear_arith);
    lemma_pow_adds(g, (size * q) as nat, r);
    lemma_power_one_multiple(g, size, q, order());
    lemma_residue(1);
    let (one, p) = (pow(g, (size * q) as nat), pow(g, r));
    lemma_cong_ops(one, 1, p, p);
    assert(1 * p == p);
    lemma_cong_ops(offset, offset, one * p, p);
}

} // verus!
