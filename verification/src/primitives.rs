//! What the building blocks of the operations give, whenever they are called: domains and their
//! elements, polynomials, Lagrange coefficients, lists of indices, encodings and texts.

use std::collections::HashMap;

use vstd::arithmetic::div_mod::{lemma_mod_add_multiples_vanish, lemma_small_mod};
use vstd::arithmetic::power::{lemma_pow0, lemma_pow1, lemma_pow_adds, pow};
use vstd::arithmetic::power2::{lemma2_to64, lemma_pow2_strictly_increases, pow2};
use vstd::prelude::*;
use vstd::set_lib::{lemma_int_range, lemma_subset_equality, set_int_range};
use vstd::std_specs::cmp::PartialEqSpec;

use crate::backend::{
    domain_generator, domain_point, domain_points, is_domain_size, is_g1, is_g2, is_mixed_size,
    is_radix2_size, kept,
};
use crate::common::SerializationError;
use crate::curve::{logs, G1Point, G2Point, GtElement};
use crate::domain::{
    is_domain, lemma_generator_is_unit, lemma_points_distinct, lemma_wrap_around, EvaluationDomain,
};
use crate::error::Error;
use crate::indices::{in_order, keys_of, lemma_in_order_lists, sorted_keys_of};
use crate::interpolation::lemma_basis_product_unit;
use crate::key_share::{lagrange_basis_at, prepare_combine_simple, PrivateKeyShare};
use crate::keypair::{Keypair, PublicKey};
use crate::laws::law_lagrange_coefficient_unique;
use crate::modular::{
    cong, lemma_cong_ops, lemma_cong_residue, lemma_order_bounds, lemma_residue, order, residue,
};
use crate::poly::{basis_product, eval, is_basis_value};
use crate::primality::{lemma_cancel_factor, lemma_zero_product};
use crate::refresh::{
    points_in_order, PrecomputedShareInputs, ShareUpdate, UpdatableBlindedKeyShare,
};
use crate::scalar::{evaluate, values, DomainPoint, Scalar};
use crate::text::{decimal, decimal_digits, digit};

verus! {

// ---------------------------------------------------------------------------------------------
// Domains
// ---------------------------------------------------------------------------------------------

/// There is a domain for every number of elements up to three times two to the power of 32, or,
/// where `usize` has 32 bits, up to two to the power of 31. Its size is a power of two, the
/// smallest with room for them, as long as there is one, and then three times a power of two.
pub proof fn law_new_domain(num_coeffs: usize, r: Option<EvaluationDomain>)
    requires
        call_ensures(EvaluationDomain::new, (num_coeffs,), r),
    ensures
        r is Some <==> num_coeffs <= (if usize::MAX > 0xffff_ffff {
            0x3_0000_0000
        } else {
            0x8000_0000int
        }),
        r matches Some(d) ==> {
            &&& num_coeffs <= d@.len()
            &&& num_coeffs <= 0x1_0000_0000 ==> exists|k: nat|
                k <= 32 && d@.len() == #[trigger] pow2(k)
            &&& num_coeffs > 0x1_0000_0000 ==> exists|k: nat|
                k <= 32 && d@.len() == 3 * #[trigger] pow2(k)
            &&& forall|k: nat|
                k <= 32 && num_coeffs <= #[trigger] pow2(k) ==> d@.len() <= pow2(k)
            &&& num_coeffs > 0x1_0000_0000 ==> forall|k: nat|
                k <= 32 && num_coeffs <= 3 * #[trigger] pow2(k) ==> d@.len() <= 3 * pow2(k)
        },
{
    lemma2_to64();
    assert forall|k: nat| k <= 32 implies is_radix2_size(#[trigger] pow2(k)) && is_mixed_size(
        3 * pow2(k),
    ) && is_domain_size(3 * pow2(k)) && pow2(k) <= 0x1_0000_0000 by {
        if k < 32 {
            lemma_pow2_strictly_increases(k, 32);
        }
    }
    if let Some(d) = r {
        if num_coeffs > 0x1_0000_0000 {
            assert(is_domain_size(d@.len()));
            if is_radix2_size(d@.len()) {
                let k = choose|k: nat| k <= 32 && d@.len() == #[trigger] pow2(k);
                assert(pow2(k) <= 0x1_0000_0000);
            }
            assert(is_mixed_size(d@.len()));
        } else {
            assert(is_radix2_size(d@.len()));
        }
    }
}

/// A mixed-radix domain is there for the same numbers of elements, and no power of two, nor three
/// times one, that has room for them is smaller than its size.
pub proof fn law_mixed_radix_domain(num_coeffs: usize, r: Option<EvaluationDomain>)
    requires
        call_ensures(EvaluationDomain::mixed_radix, (num_coeffs,), r),
    ensures
        r is Some <==> num_coeffs <= (if usize::MAX > 0xffff_ffff {
            0x3_0000_0000
        } else {
            0x8000_0000int
        }),
        r matches Some(d) ==> {
            &&& num_coeffs <= d@.len()
            &&& exists|k: nat|
                k <= 32 && (d@.len() == #[trigger] pow2(k) || d@.len() == 3 * pow2(k))
            &&& forall|k: nat|
                k <= 32 && num_coeffs <= #[trigger] pow2(k) ==> d@.len() <= pow2(k)
            &&& forall|k: nat|
                k <= 32 && num_coeffs <= 3 * #[trigger] pow2(k) ==> d@.len() <= 3 * pow2(k)
        },
{
    assert forall|k: nat| k <= 32 implies is_domain_size(#[trigger] pow2(k)) && is_domain_size(
        3 * pow2(k),
    ) by {
        assert(is_radix2_size(pow2(k)));
        assert(is_mixed_size(3 * pow2(k)));
    }
    if let Some(d) = r {
        assert(is_domain_size(d@.len()));
        if is_radix2_size(d@.len()) {
            let k = choose|k: nat| k <= 32 && d@.len() == #[trigger] pow2(k);
            assert(k <= 32 && (d@.len() == pow2(k) || d@.len() == 3 * pow2(k)));
        } else {
            let k = choose|k: nat| k <= 32 && d@.len() == 3 * #[trigger] pow2(k);
            assert(k <= 32 && (d@.len() == pow2(k) || d@.len() == 3 * pow2(k)));
        }
    }
}

/// A domain that was made for a number of elements starts at one, and each element times the
/// second one is the next; the last element leads back to one. The second element is the
/// generator 7 to the power of the group order less one divided by the size, as far as there is
/// one.
pub proof fn law_subgroup(num_coeffs: usize, d: EvaluationDomain)
    requires
        call_ensures(EvaluationDomain::new, (num_coeffs,), Some(d)) || call_ensures(
            EvaluationDomain::mixed_radix,
            (num_coeffs,),
            Some(d),
        ),
    ensures
        d@.len() > 0,
        d@[0] == 1,
        d@.len() > 1 ==> d@[1] == residue(pow(7, ((order() - 1) / d@.len() as int) as nat)),
        forall|i: int| 0 <= i < d@.len() - 1 ==> #[trigger] d@[i + 1] == residue(d@[i] * d@[1]),
        d@.len() > 1 ==> residue(d@[d@.len() - 1] * d@[1]) == 1,
        forall|i: int, j: int| 0 <= i < j < d@.len() ==> #[trigger] d@[i] != #[trigger] d@[j],
{
    let n = d@.len();
    assert(is_domain_size(n));
    lemma_residue(0);
    lemma_residue(1);
    lemma_order_bounds();
    assert(d@ == domain_points(n, 1));
    assert(is_domain(d@));
    law_domain_elements(d@);
    lemma_pow0(domain_generator(n));
    lemma_pow1(domain_generator(n));
    assert(d@[0] == domain_point(n, 1, 0));
    if n > 1 {
        assert(d@[1] == domain_point(n, 1, 1));
        assert forall|i: int| 0 <= i < n - 1 implies #[trigger] d@[i + 1] == residue(
            d@[i] * d@[1],
        ) by {
            assert(d@[i + 1] == domain_point(n, 1, (i + 1) as nat));
            lemma_residue(pow(domain_generator(n), (i + 1) as nat));
        }
    }
    assert forall|i: int, j: int| 0 <= i < j < n implies #[trigger] d@[i] != #[trigger] d@[j] by {
        lemma_points_distinct(d@, i, j);
    }
}

/// From each element of a domain to the next there is the same factor, and from the last one to
/// the first. No element is zero.
pub proof fn law_domain_elements(points: Seq<int>)
    requires
        is_domain(points),
    ensures
        points.len() > 0,
        forall|i: int| 0 <= i < points.len() ==> 0 < #[trigger] points[i] < order(),
        forall|i: int|
            0 <= i < points.len() - 1 ==> residue(#[trigger] points[i + 1] * points[0]) == residue(
                points[i] * points[1],
            ),
        points.len() > 1 ==> residue(points[points.len() - 1] * points[1]) == residue(
            points[0] * points[0],
        ),
{
    let (size, offset) = choose|size: nat, offset: int|
        {
            &&& is_domain_size(size)
            &&& !cong(offset, 0)
            &&& points == #[trigger] domain_points(size, offset)
        };
    let g = domain_generator(size);
    lemma_wrap_around(size, offset, 0);
    lemma_wrap_around(size, offset, size);
    lemma_pow0(g);
    lemma_pow1(g);
    lemma_order_bounds();
    assert forall|i: int| 0 <= i < points.len() implies 0 < #[trigger] points[i] < order() by {
        assert(points[i] == residue(offset * pow(g, i as nat)));
        lemma_residue(offset * pow(g, i as nat));
        lemma_generator_is_unit(size, i as nat);
        if points[i] == 0 {
            lemma_residue(0);
            lemma_zero_product(offset, pow(g, i as nat));
        }
    }
    assert forall|i: int| 0 <= i < points.len() && points.len() > 1 implies residue(
        domain_point(size, offset, (i + 1) as nat) * points[0],
    ) == #[trigger] residue(points[i] * points[1]) by {
        let (a, b) = (pow(g, i as nat), pow(g, (i + 1) as nat));
        lemma_pow_adds(g, i as nat, 1);
        lemma_cong_residue(offset * b);
        lemma_cong_residue(offset * 1);
        lemma_cong_residue(offset * a);
        lemma_cong_residue(offset * g);
        assert(points[0] == domain_point(size, offset, 0));
        assert(points[1] == domain_point(size, offset, 1));
        assert(points[i] == domain_point(size, offset, i as nat));
        let next = domain_point(size, offset, (i + 1) as nat);
        lemma_cong_ops(next, offset * b, points[0], offset * 1);
        lemma_cong_ops(points[i], offset * a, points[1], offset * g);
        assert((offset * (a * g)) * (offset * 1) == (offset * a) * (offset * g))
            by (nonlinear_arith);
    }
    assert forall|i: int| 0 <= i < points.len() - 1 implies residue(
        #[trigger] points[i + 1] * points[0],
    ) == residue(points[i] * points[1]) by {
        assert(points[i + 1] == domain_point(size, offset, (i + 1) as nat));
    }
    if points.len() > 1 {
        let last = points.len() - 1;
        assert(residue(domain_point(size, offset, (last + 1) as nat) * points[0]) == residue(
            points[last] * points[1],
        ));
        assert(size as int % size as int == 0) by (nonlinear_arith)
            requires
                size > 0,
        ;
    }
}

/// The coset of a subgroup has its elements times the offset, and zero alone is no offset. What
/// offset the domain had before makes no difference.
pub proof fn law_coset(
    domain: EvaluationDomain,
    offset: Scalar,
    r: Option<EvaluationDomain>,
    size: usize,
)
    requires
        call_ensures(EvaluationDomain::get_coset, (&domain, &offset), r),
        call_ensures(EvaluationDomain::size, (&domain,), size),
    ensures
        r is None <==> offset@ == 0,
        r matches Some(d) ==> {
            &&& d@.len() == domain@.len() == size
            &&& d@[0] == offset@
            &&& forall|i: int|
                0 <= i < domain@.len() ==> residue(#[trigger] d@[i] * domain@[0]) == residue(
                    offset@ * domain@[i],
                )
        },
{
    if let Some(d) = r {
        let (size, before) = choose|size: nat, before: int|
            {
                &&& is_domain_size(size)
                &&& !cong(before, 0)
                &&& domain@ == #[trigger] domain_points(size, before)
            };
        let g = domain_generator(size);
        law_domain_elements(domain@);
        lemma_pow0(g);
        offset.lemma_range();
        assert(d@[0] == domain_point(size, offset@, 0));
        assert forall|i: int| 0 <= i < domain@.len() implies residue(
            #[trigger] d@[i] * domain@[0],
        ) == residue(offset@ * domain@[i]) by {
            let a = pow(g, i as nat);
            assert(d@[i] == domain_point(size, offset@, i as nat));
            assert(domain@[i] == domain_point(size, before, i as nat));
            assert(domain@[0] == domain_point(size, before, 0));
            lemma_cong_residue(offset@ * a);
            lemma_cong_residue(before * a);
            lemma_cong_residue(before * 1);
            lemma_cong_ops(d@[i], offset@ * a, domain@[0], before * 1);
            lemma_cong_ops(offset@, offset@, domain@[i], before * a);
            let o = offset@;
            assert((o * a) * (before * 1) == o * (before * a)) by (nonlinear_arith);
        }
    }
}

/// Elements are counted round and round.
pub proof fn law_element(domain: EvaluationDomain, i: usize, r: DomainPoint, size: usize)
    requires
        call_ensures(EvaluationDomain::element, (&domain, i), r),
        call_ensures(EvaluationDomain::size, (&domain,), size),
    ensures
        size == domain@.len(),
        i < size ==> r@ == domain@[i as int],
        forall|j: usize, s: DomainPoint|
            j == i + size && #[trigger] call_ensures(EvaluationDomain::element, (&domain, j), s)
                ==> s@ == r@,
{
    law_domain_elements(domain@);
    assert forall|j: usize, s: DomainPoint|
        j == i + size && #[trigger] call_ensures(
            EvaluationDomain::element,
            (&domain, j),
            s,
        ) implies s@ == r@ by {
        lemma_mod_add_multiples_vanish(i as int, size as int);
    }
    if i < size {
        lemma_small_mod(i as nat, size as nat);
    }
}

/// The value on a domain of a polynomial with one more coefficient in front is that coefficient
/// plus the element times the value without it. Of no coefficients the value is the identity.
pub proof fn law_evaluate_points(
    domain: EvaluationDomain,
    coeffs: Vec<G1Point>,
    rest: Vec<G1Point>,
    r: Vec<G1Point>,
    of_rest: Vec<G1Point>,
)
    requires
        call_ensures(EvaluationDomain::evaluate_points, (&domain, &coeffs), r),
        call_ensures(EvaluationDomain::evaluate_points, (&domain, &rest), of_rest),
    ensures
        r.len() == domain@.len(),
        coeffs.len() == 0 ==> forall|i: int| 0 <= i < r.len() ==> (#[trigger] r[i])@ == 0,
        0 < coeffs.len() <= domain@.len() && logs(rest@) == logs(coeffs@).drop_first()
            ==> forall|i: int|
            0 <= i < r.len() ==> (#[trigger] r[i])@ == residue(
                coeffs[0]@ + domain@[i] * of_rest[i]@,
            ),
        coeffs.len() > domain@.len() && logs(rest@) == logs(coeffs@).take(domain@.len() as int)
            ==> forall|i: int| 0 <= i < r.len() ==> (#[trigger] r[i])@ == of_rest[i]@,
{
    let n = domain@.len();
    let (c, d) = (logs(coeffs@), logs(rest@));
    lemma_residue(0);
    assert(c.len() == coeffs.len() && d.len() == rest.len());
    if coeffs.len() == 0 {
        assert forall|i: int| 0 <= i < r.len() implies (#[trigger] r[i])@ == 0 by {
            assert(kept(c, n) == c || c.take(0) =~= c);
        }
    }
    if 0 < coeffs.len() <= n && d == c.drop_first() {
        assert(kept(c, n) =~= c);
        assert(kept(d, n) == d);
        assert forall|i: int| 0 <= i < r.len() implies (#[trigger] r[i])@ == residue(
            coeffs[0]@ + domain@[i] * of_rest[i]@,
        ) by {
            let x = domain@[i];
            assert(of_rest[i]@ == residue(eval(d, x)));
            assert(eval(c, x) == c[0] + x * eval(d, x));
            lemma_cong_residue(eval(d, x));
            lemma_cong_ops(x, x, of_rest[i]@, eval(d, x));
            lemma_cong_ops(c[0], c[0], x * of_rest[i]@, x * eval(d, x));
        }
    }
    if coeffs.len() > n && d == c.take(n as int) {
        assert(kept(c, n) == d);
        assert(kept(d, n) =~= d);
        assert forall|i: int| 0 <= i < r.len() implies (#[trigger] r[i])@ == of_rest[i]@ by {
            assert(of_rest[i]@ == residue(eval(d, domain@[i])));
        }
    }
}

// ---------------------------------------------------------------------------------------------
// Polynomials
// ---------------------------------------------------------------------------------------------

/// A coefficient contributes itself times the power of the argument at its place.
pub proof fn law_eval_next_power(c: Seq<int>, a: int, x: int)
    ensures
        eval(c.push(a), x) == eval(c, x) + a * pow(x, c.len()),
        eval(Seq::empty(), x) == 0,
    decreases c.len(),
{
    if c.len() == 0 {
        lemma_pow0(x);
        assert(c.push(a).drop_first() =~= Seq::empty());
        assert(c =~= Seq::empty());
        assert(eval(Seq::<int>::empty(), x) == 0);
        assert(c.push(a)[0] == a);
        assert(eval(c.push(a), x) == a + x * eval(c.push(a).drop_first(), x));
    } else {
        let rest = c.drop_first();
        law_eval_next_power(rest, a, x);
        assert(c.push(a).drop_first() =~= rest.push(a));
        lemma_pow1(x);
        lemma_pow_adds(x, 1, rest.len());
        let (e, p) = (eval(rest, x), pow(x, rest.len()));
        assert(x * (e + a * p) == x * e + a * (x * p)) by (nonlinear_arith);
    }
}

/// With one more coefficient at the end, the value of a polynomial grows by that coefficient
/// times the power of the argument at its place.
pub proof fn law_evaluate(
    coeffs: Vec<Scalar>,
    more: Vec<Scalar>,
    x: Scalar,
    r: Scalar,
    of_more: Scalar,
)
    requires
        call_ensures(evaluate, (&coeffs, &x), r),
        call_ensures(evaluate, (&more, &x), of_more),
        more.len() == coeffs.len() + 1,
        forall|i: int| 0 <= i < coeffs.len() ==> (#[trigger] more[i])@ == coeffs[i]@,
    ensures
        of_more@ == residue(r@ + more[coeffs.len() as int]@ * pow(x@, coeffs@.len())),
        coeffs.len() == 0 ==> r@ == 0,
{
    let c = values(coeffs@);
    let a = more[coeffs.len() as int]@;
    assert(values(more@) =~= c.push(a));
    law_eval_next_power(c, a, x@);
    lemma_cong_residue(eval(c, x@));
    let term = a * pow(x@, coeffs@.len());
    lemma_cong_ops(r@, eval(c, x@), term, term);
    lemma_residue(0);
    if coeffs.len() == 0 {
        assert(c =~= Seq::empty());
    }
}

// ---------------------------------------------------------------------------------------------
// Lagrange coefficients
// ---------------------------------------------------------------------------------------------

/// With one more point `y`, the coefficient of a point `p` other than `y` gains the factor
/// `(x - y) / (p - y)`; the coefficient of a point that equals `y` stays as it was. The
/// coefficient of the only point is one.
pub proof fn law_lagrange_one_more_point(
    points: Vec<DomainPoint>,
    more: Vec<DomainPoint>,
    x: DomainPoint,
    r: Vec<Scalar>,
    of_more: Vec<Scalar>,
)
    requires
        call_ensures(lagrange_basis_at, (&points, &x), r),
        call_ensures(lagrange_basis_at, (&more, &x), of_more),
        more.len() == points.len() + 1,
        forall|j: int| 0 <= j < points.len() ==> (#[trigger] more[j])@ == points[j]@,
    ensures
        r.len() == points.len(),
        of_more.len() == more.len(),
        forall|j: int|
            0 <= j < points.len() ==> {
                let y = more[points.len() as int]@;
                if points[j]@ == y {
                    (#[trigger] of_more[j])@ == r[j]@
                } else {
                    residue(of_more[j]@ * (points[j]@ - y)) == residue(r[j]@ * (x@ - y))
                }
            },
        more.len() == 1 ==> of_more[0]@ == 1,
{
    let xs = values(points@);
    let ys = values(more@);
    let y = more[points.len() as int]@;
    assert(ys =~= xs.push(y));
    assert(ys.drop_last() =~= xs);
    assert(ys.last() == y);
    assert forall|j: int| 0 <= j < points.len() implies {
        if points[j]@ == y {
            (#[trigger] of_more[j])@ == r[j]@
        } else {
            residue(of_more[j]@ * (points[j]@ - y)) == residue(r[j]@ * (x@ - y))
        }
    } by {
        let p = points[j]@;
        assert(xs[j] == p && ys[j] == p);
        let (u, v) = (r[j]@, of_more[j]@);
        let (d, n) = (basis_product(xs, p, p), basis_product(xs, p, x@));
        assert(is_basis_value(u, xs, j, x@));
        assert(is_basis_value(v, ys, j, x@));
        lemma_points_apart(points@, j);
        if p == y {
            r[j].lemma_range();
            of_more[j].lemma_range();
            law_lagrange_coefficient_unique(v, u, xs, j, x@);
        } else {
            lemma_basis_product_unit(xs, p);
            // v * (p - y) * d and u * (x - y) * d are both (x - y) * n
            let (a, b) = (v * (p - y), u * (x@ - y));
            assert(v * ((p - y) * d) == a * d) by (nonlinear_arith)
                requires
                    a == v * (p - y),
            ;
            assert((u * d) * (x@ - y) == b * d) by (nonlinear_arith)
                requires
                    b == u * (x@ - y),
            ;
            assert(n * (x@ - y) == (x@ - y) * n) by (nonlinear_arith);
            lemma_cong_ops(u * d, n, x@ - y, x@ - y);
            lemma_cancel_factor(d, a, b);
        }
    }
    if more.len() == 1 {
        assert(is_basis_value(of_more[0]@, ys, 0, x@));
        assert(basis_product(xs, y, y) == 1 && basis_product(xs, y, x@) == 1);
        assert(ys[0] == y);
        of_more[0].lemma_range();
        lemma_order_bounds();
        lemma_residue(1);
    }
}

/// Points that differ are not congruent.
proof fn lemma_points_apart(points: Seq<Scalar>, j: int)
    requires
        0 <= j < points.len(),
    ensures
        forall|i: int|
            0 <= i < points.len() && #[trigger] values(points)[i] != values(points)[j] ==> !cong(
                values(points)[j],
                values(points)[i],
            ),
{
    assert forall|i: int|
        0 <= i < points.len() && #[trigger] values(points)[i] != values(points)[j] implies !cong(
        values(points)[j],
        values(points)[i],
    ) by {
        points[i].lemma_range();
        points[j].lemma_range();
    }
}

/// The coefficients that combine shares into the secret are those at zero.
pub proof fn law_combine_at_zero(
    points: Vec<DomainPoint>,
    x: DomainPoint,
    r: Vec<Scalar>,
    at_x: Vec<Scalar>,
)
    requires
        call_ensures(prepare_combine_simple, (&points,), r),
        call_ensures(lagrange_basis_at, (&points, &x), at_x),
        x@ == 0,
    ensures
        r.len() == at_x.len() == points.len(),
        forall|j: int| 0 <= j < points.len() ==> (#[trigger] r[j])@ == at_x[j]@,
{
    assert forall|j: int| 0 <= j < points.len() implies (#[trigger] r[j])@ == at_x[j]@ by {
        lemma_points_apart(points@, j);
        assert(is_basis_value(at_x[j]@, values(points@), j, 0));
        law_lagrange_coefficient_unique(r[j]@, at_x[j]@, values(points@), j, 0);
        r[j].lemma_range();
        at_x[j].lemma_range();
    }
}

/// A product over the points at the members of a list, without one of these members.
proof fn lemma_basis_product_remove(
    keys: Seq<int>,
    f: spec_fn(int) -> int,
    k: int,
    p: int,
    x: int,
)
    requires
        0 <= k < keys.len(),
    ensures
        basis_product(keys.map_values(f), p, x) == basis_product(
            keys.remove(k).map_values(f),
            p,
            x,
        ) * (if f(keys[k]) == p {
            1
        } else {
            x - f(keys[k])
        }),
    decreases keys.len(),
{
    let xs = keys.map_values(f);
    let without = keys.remove(k);
    if k == keys.len() - 1 {
        assert(without.map_values(f) =~= xs.drop_last());
        let rest = basis_product(xs.drop_last(), p, x);
        assert(xs.last() == f(keys[k]));
        assert((x - f(keys[k])) * rest == rest * (x - f(keys[k]))) by (nonlinear_arith);
    } else {
        let before = keys.drop_last();
        lemma_basis_product_remove(before, f, k, p, x);
        assert(xs.drop_last() =~= before.map_values(f));
        assert(without.map_values(f).drop_last() =~= before.remove(k).map_values(f));
        assert(without.map_values(f).last() == xs.last());
        let rest = basis_product(before.remove(k).map_values(f), p, x);
        let a = x - xs.last();
        let b = if f(keys[k]) == p {
            1
        } else {
            x - f(keys[k])
        };
        assert(before[k] == keys[k]);
        assert(a * (rest * b) == (a * rest) * b) by (nonlinear_arith);
    }
}

/// A product over points does not depend on the order in which they are listed.
proof fn lemma_basis_product_order(
    a: Seq<int>,
    b: Seq<int>,
    f: spec_fn(int) -> int,
    p: int,
    x: int,
)
    requires
        a.no_duplicates(),
        b.no_duplicates(),
        a.to_set() == b.to_set(),
    ensures
        a.len() == b.len(),
        basis_product(a.map_values(f), p, x) == basis_product(b.map_values(f), p, x),
    decreases a.len(),
{
    a.unique_seq_to_set();
    b.unique_seq_to_set();
    if a.len() == 0 {
        assert(a.map_values(f) =~= b.map_values(f));
    } else {
        let i = a.len() - 1;
        let last = a[i];
        assert(a.to_set().contains(last));
        assert(b.to_set().contains(last));
        let k = b.index_of(last);
        let (c, d) = (a.remove(i), b.remove(k));
        assert forall|v: int| c.to_set().contains(v) == d.to_set().contains(v) by {
            assert(a.to_set().contains(v) == b.to_set().contains(v));
            if c.contains(v) {
                let at = c.index_of(v);
                assert(a[at] == v && at != i);
                assert(a.contains(v) && v != last);
                assert(a.to_set().contains(v));
                assert(b.contains(v) && b.contains(last));
                let j = b.index_of(v);
                assert(b[j] == v && b[k] == last);
                assert(d[if j < k { j } else { j - 1 }] == v);
            }
            if d.contains(v) {
                let at = d.index_of(v);
                let j = if at < k {
                    at
                } else {
                    at + 1
                };
                assert(b[j] == v && j != k);
                assert(b.contains(v) && v != last);
                assert(b.to_set().contains(v));
                assert(a.contains(v));
                let m = a.index_of(v);
                assert(m != i);
                assert(c[m] == v);
            }
        }
        assert(c.to_set() =~= d.to_set());
        assert(c.no_duplicates());
        assert(d.no_duplicates());
        lemma_basis_product_order(c, d, f, p, x);
        lemma_basis_product_remove(a, f, i, p, x);
        lemma_basis_product_remove(b, f, k, p, x);
    }
}

/// A coefficient belongs to its point, and not to the place at which the point is listed:
/// `place` gives for each point of `others` the place of the same point in `points`.
pub proof fn law_lagrange_order(
    points: Vec<DomainPoint>,
    others: Vec<DomainPoint>,
    place: Seq<int>,
    x: DomainPoint,
    r: Vec<Scalar>,
    of_others: Vec<Scalar>,
)
    requires
        call_ensures(lagrange_basis_at, (&points, &x), r),
        call_ensures(lagrange_basis_at, (&others, &x), of_others),
        others.len() == points.len() == place.len(),
        place.no_duplicates(),
        forall|j: int|
            0 <= j < place.len() ==> 0 <= #[trigger] place[j] < points.len() && others[j]@
                == points[place[j]]@,
    ensures
        forall|j: int|
            0 <= j < place.len() ==> (#[trigger] of_others[j])@ == r[place[j]]@,
{
    let n = points.len() as int;
    let f = |i: int| points[i]@;
    let own = Seq::new(points@.len(), |i: int| i);
    lemma_all_places(place);
    assert(own.to_set() =~= place.to_set()) by {
        assert forall|v: int| own.to_set().contains(v) == place.to_set().contains(v) by {
            if own.contains(v) {
                assert(0 <= v < n);
            }
            if place.contains(v) {
                assert(own[v] == v);
            }
        }
    }
    let (xs, ys) = (values(points@), values(others@));
    assert(xs =~= own.map_values(f));
    assert(ys =~= place.map_values(f));
    assert forall|j: int| 0 <= j < place.len() implies (#[trigger] of_others[j])@
        == r[place[j]]@ by {
        let k = place[j];
        let p = points[k]@;
        assert(xs[k] == p && ys[j] == p);
        assert(is_basis_value(of_others[j]@, ys, j, x@));
        lemma_basis_product_order(own, place, f, p, p);
        lemma_basis_product_order(own, place, f, p, x@);
        assert(is_basis_value(of_others[j]@, xs, k, x@));
        assert(is_basis_value(r[k]@, xs, k, x@));
        lemma_points_apart(points@, k);
        law_lagrange_coefficient_unique(of_others[j]@, r[k]@, xs, k, x@);
        r[k].lemma_range();
        of_others[j].lemma_range();
    }
}

/// As many different places as there are leave none out.
proof fn lemma_all_places(place: Seq<int>)
    requires
        place.no_duplicates(),
        forall|j: int| 0 <= j < place.len() ==> 0 <= #[trigger] place[j] < place.len(),
    ensures
        forall|v: int| 0 <= v < place.len() ==> place.contains(v),
{
    let all = set_int_range(0, place.len() as int);
    lemma_int_range(0, place.len() as int);
    place.unique_seq_to_set();
    assert(place.to_set().subset_of(all));
    lemma_subset_equality(place.to_set(), all);
    assert forall|v: int| 0 <= v < place.len() implies place.contains(v) by {
        assert(all.contains(v));
        assert(place.to_set().contains(v));
    }
}

/// The inputs of a decryption share of the precomputed variant are the key, the share without it,
/// the index, and the coefficient of the point at that index, among all points in whatever order
/// they are listed. `keys` gives the index of each listed point.
pub proof fn law_precomputed_share(
    share: UpdatableBlindedKeyShare,
    keypair: Keypair,
    share_index: u32,
    domain_points: HashMap<u32, DomainPoint>,
    r: Result<PrecomputedShareInputs, Error>,
    keys: Seq<u32>,
    points: Vec<DomainPoint>,
    coeffs: Vec<Scalar>,
)
    requires
        call_ensures(
            UpdatableBlindedKeyShare::create_decryption_share_precomputed,
            (&share, &keypair, share_index, &domain_points),
            r,
        ),
        call_ensures(prepare_combine_simple, (&points,), coeffs),
        keys.no_duplicates(),
        keys.to_set() == domain_points@.dom(),
        points.len() == keys.len(),
        forall|j: int|
            0 <= j < keys.len() ==> (#[trigger] points[j])@ == domain_points@[keys[j]]@,
    ensures
        r is Ok <==> domain_points@.dom().contains(share_index),
        r matches Err(e) ==> e == Error::InvalidShareIndex(share_index),
        r matches Ok(inputs) ==> {
            &&& inputs.share_index == share_index
            &&& inputs.validator_decryption_key == keypair.decryption_key
            &&& residue(inputs.private_key_share.0@ * keypair.decryption_key@)
                == share.0.blinded_key_share@
            &&& forall|j: int|
                0 <= j < keys.len() && #[trigger] keys[j] == share_index
                    ==> inputs.lagrange_coeff@ == coeffs[j]@
        },
        keypair.decryption_key@ != 0 || !domain_points@.dom().contains(share_index)
            ==> call_requires(
            UpdatableBlindedKeyShare::create_decryption_share_precomputed,
            (&share, &keypair, share_index, &domain_points),
        ),
{
    if let Ok(inputs) = r {
        let sorted = in_order(domain_points@.dom());
        keys.unique_seq_to_set();
        lemma_in_order_lists(domain_points@.dom());
        assert(sorted.no_duplicates());
        let number = |k: u32| k as int;
        let f = |k: int| domain_points@[k as u32]@;
        let (a, b) = (keys.map_values(number), sorted.map_values(number));
        assert forall|v: int| a.to_set().contains(v) == b.to_set().contains(v) by {
            if a.contains(v) {
                let k = keys[a.index_of(v)];
                assert(keys.to_set().contains(k));
                assert(sorted.to_set().contains(k));
                assert(b[sorted.index_of(k)] == v);
            }
            if b.contains(v) {
                let k = sorted[b.index_of(v)];
                assert(sorted.to_set().contains(k));
                assert(keys.to_set().contains(k));
                assert(a[keys.index_of(k)] == v);
            }
        }
        assert(a.to_set() =~= b.to_set());
        let (xs, ys) = (values(points@), points_in_order(domain_points@));
        assert(xs =~= a.map_values(f));
        assert(ys =~= b.map_values(f));
        assert forall|j: int| 0 <= j < keys.len() && #[trigger] keys[j] == share_index implies
            inputs.lagrange_coeff@ == coeffs[j]@ by {
            let at = sorted.index_of(share_index);
            assert(sorted.to_set().contains(share_index));
            assert(sorted.contains(share_index));
            let p = domain_points@[share_index]@;
            assert(xs[j] == points[j]@ && xs[j] == p && ys[at] == p);
            lemma_basis_product_order(a, b, f, p, p);
            lemma_basis_product_order(a, b, f, p, 0);
            assert(is_basis_value(inputs.lagrange_coeff@, xs, j, 0));
            assert(is_basis_value(coeffs[j]@, xs, j, 0));
            lemma_points_apart(points@, j);
            law_lagrange_coefficient_unique(inputs.lagrange_coeff@, coeffs[j]@, xs, j, 0);
            inputs.lagrange_coeff.lemma_range();
            coeffs[j].lemma_range();
        }
    }
}

// ---------------------------------------------------------------------------------------------
// Lists of indices
// ---------------------------------------------------------------------------------------------

/// The keys of a map are listed each once, and in ascending order where that is asked for.
pub proof fn law_listed_keys<V>(map: HashMap<u32, V>, r: Vec<u32>)
    requires
        call_ensures(keys_of, (&map,), r) || call_ensures(sorted_keys_of, (&map,), r),
    ensures
        forall|k: u32| map@.dom().contains(k) <==> #[trigger] r@.contains(k),
        forall|i: int, j: int| 0 <= i < j < r.len() ==> #[trigger] r[i] != #[trigger] r[j],
        call_ensures(sorted_keys_of, (&map,), r) ==> forall|i: int, j: int|
            0 <= i < j < r.len() ==> #[trigger] r[i] < #[trigger] r[j],
{
    assert forall|k: u32| map@.dom().contains(k) <==> #[trigger] r@.contains(k) by {
        assert(r@.to_set().contains(k) == r@.contains(k));
    }
    if call_ensures(sorted_keys_of, (&map,), r) {
        assert forall|i: int, j: int| 0 <= i < j < r.len() implies #[trigger] r[i]
            < #[trigger] r[j] by {
            assert(r@[i] < r@[j]);
        }
    }
}

// ---------------------------------------------------------------------------------------------
// Encodings
// ---------------------------------------------------------------------------------------------

/// Points of G1 are read from their own encodings: what was written is read back, and what was
/// read is written back. No other length than that of an encoding is read.
pub proof fn law_g1_encoding(
    p: G1Point,
    bytes: [u8; 48],
    input: &[u8],
    r: Result<G1Point, crate::common::Error>,
)
    requires
        call_ensures(G1Point::to_bytes, (&p,), bytes),
        call_ensures(G1Point::from_bytes, (input,), r),
    ensures
        input@ == bytes@ ==> r is Ok && (r->Ok_0)@ == p@,
        input@.len() != 48 ==> r == Err::<G1Point, _>(
            crate::common::Error::InvalidByteLength(48, input@.len() as usize),
        ),
        input@.len() == 48 && !is_g1(input@) ==> r == Err::<G1Point, _>(
            crate::common::Error::SerializationError(
                if input@[0] < 32 || 64 <= input@[0] < 96 {
                    SerializationError::UnexpectedFlags
                } else {
                    SerializationError::InvalidData
                },
            ),
        ),
        forall|q: G1Point, back: [u8; 48]|
            r == Ok::<G1Point, crate::common::Error>(q) && #[trigger] call_ensures(
                G1Point::to_bytes,
                (&q,),
                back,
            ) ==> back@ == input@,
{
}

/// The same of points of G2.
pub proof fn law_g2_encoding(
    p: G2Point,
    bytes: [u8; 96],
    input: &[u8],
    r: Result<G2Point, crate::common::Error>,
)
    requires
        call_ensures(G2Point::to_bytes, (&p,), bytes),
        call_ensures(G2Point::from_bytes, (input,), r),
    ensures
        input@ == bytes@ ==> r is Ok && (r->Ok_0)@ == p@,
        input@.len() != 96 ==> r == Err::<G2Point, _>(
            crate::common::Error::InvalidByteLength(96, input@.len() as usize),
        ),
        input@.len() == 96 && !is_g2(input@) ==> r == Err::<G2Point, _>(
            crate::common::Error::SerializationError(
                if input@[0] < 32 || 64 <= input@[0] < 96 {
                    SerializationError::UnexpectedFlags
                } else {
                    SerializationError::InvalidData
                },
            ),
        ),
        forall|q: G2Point, back: [u8; 96]|
            r == Ok::<G2Point, crate::common::Error>(q) && #[trigger] call_ensures(
                G2Point::to_bytes,
                (&q,),
                back,
            ) ==> back@ == input@,
{
}

/// A public key is read back from its encoding, unless it is the identity, which is refused.
pub proof fn law_public_key_encoding(
    key: PublicKey,
    bytes: [u8; 96],
    input: &[u8],
    r: Result<PublicKey, crate::common::Error>,
)
    requires
        call_ensures(PublicKey::to_bytes, (&key,), bytes),
        call_ensures(PublicKey::from_bytes, (input,), r),
    ensures
        input@ == bytes@ && key.encryption_key@ != 0 ==> r is Ok && (r->Ok_0).encryption_key@
            == key.encryption_key@,
        input@ == bytes@ && key.encryption_key@ == 0 ==> r == Err::<PublicKey, _>(
            crate::common::Error::IdentityEncryptionKey,
        ),
        input@.len() != 96 ==> r == Err::<PublicKey, _>(
            crate::common::Error::InvalidByteLength(96, input@.len() as usize),
        ),
        input@.len() == 96 && !is_g2(input@) ==> r == Err::<PublicKey, _>(
            crate::common::Error::SerializationError(
                if input@[0] < 32 || 64 <= input@[0] < 96 {
                    SerializationError::UnexpectedFlags
                } else {
                    SerializationError::InvalidData
                },
            ),
        ),
        forall|q: PublicKey, back: [u8; 96]|
            r == Ok::<PublicKey, crate::common::Error>(q) && #[trigger] call_ensures(
                PublicKey::to_bytes,
                (&q,),
                back,
            ) ==> back@ == input@,
{
}

/// A scalar is read back from its limbs.
pub proof fn law_scalar_limbs(s: Scalar, limbs: [u64; 4], r: Option<Scalar>)
    requires
        call_ensures(Scalar::into_bigint, (&s,), limbs),
        call_ensures(Scalar::from_bigint, (limbs,), r),
    ensures
        r is Some,
        (r->0)@ == s@,
{
    s.lemma_range();
}

/// Values are equal if what they stand for is.
pub proof fn law_equality(
    p: G1Point,
    q: G1Point,
    v: G2Point,
    w: G2Point,
    s: Scalar,
    t: Scalar,
)
    ensures
        p.eq_spec(&q) <==> p@ == q@,
        v.eq_spec(&w) <==> v@ == w@,
        s.eq_spec(&t) <==> s@ == t@,
        (PublicKey { encryption_key: v }).eq_spec(&(PublicKey { encryption_key: w })) <==> v@ == w@,
        PrivateKeyShare(v).eq_spec(&PrivateKeyShare(w)) <==> v@ == w@,
        (ShareUpdate { update: v, commitment: p }).eq_spec(
            &(ShareUpdate { update: w, commitment: q }),
        ) <==> v@ == w@ && p@ == q@,
{
}

// ---------------------------------------------------------------------------------------------
// Arithmetic
// ---------------------------------------------------------------------------------------------

/// The difference is what has to be added, the product is that of the numbers, and the inverse,
/// which zero alone lacks, undoes a product.
pub proof fn law_field_operations(
    a: Scalar,
    b: Scalar,
    difference: Scalar,
    product: Scalar,
    inverse: Option<Scalar>,
)
    requires
        call_ensures(Scalar::minus, (&a, &b), difference),
        call_ensures(Scalar::times, (&a, &b), product),
        call_ensures(Scalar::inverse, (&b,), inverse),
    ensures
        residue(difference@ + b@) == a@,
        product@ == residue(a@ * b@),
        inverse is None <==> b@ == 0,
        inverse is Some ==> residue(product@ * (inverse->0)@) == a@,
{
    a.lemma_range();
    lemma_cong_residue(a@ - b@);
    lemma_cong_ops(difference@, a@ - b@, b@, b@);
    if let Some(i) = inverse {
        lemma_cong_residue(a@ * b@);
        lemma_cong_ops(product@, a@ * b@, i@, i@);
        lemma_cong_residue(b@ * i@);
        lemma_order_bounds();
        lemma_cong_ops(a@, a@, b@ * i@, 1);
        let (x, y, z) = (a@, b@, i@);
        assert((x * y) * z == x * (y * z)) by (nonlinear_arith);
    }
}

/// Sums, multiples and inverses of points are those of their logarithms.
pub proof fn law_group_operations(
    p: G1Point,
    q: G1Point,
    s: Scalar,
    sum: G1Point,
    multiple: G1Point,
    inverse: G1Point,
)
    requires
        call_ensures(G1Point::plus, (&p, &q), sum),
        call_ensures(G1Point::times, (&p, &s), multiple),
        call_ensures(G1Point::negated, (&p,), inverse),
    ensures
        sum@ == residue(p@ + q@),
        multiple@ == residue(p@ * s@),
        residue(p@ + inverse@) == 0,
{
    lemma_cong_residue(-p@);
    lemma_cong_ops(p@, p@, inverse@, -p@);
    lemma_residue(0);
}

/// The same in G2.
pub proof fn law_g2_operations(v: G2Point, w: G2Point, s: Scalar, sum: G2Point, multiple: G2Point)
    requires
        call_ensures(G2Point::plus, (&v, &w), sum),
        call_ensures(G2Point::times, (&v, &s), multiple),
    ensures
        sum@ == residue(v@ + w@),
        multiple@ == residue(v@ * s@),
{
}

/// A pairing multiplies logarithms, and a product of two pairings adds them up.
pub proof fn law_pairing(
    p: [&G1Point; 2],
    q: [&G2Point; 2],
    first: GtElement,
    second: GtElement,
    both: GtElement,
    one: GtElement,
)
    requires
        call_ensures(GtElement::pairing, (p[0], q[0]), first),
        call_ensures(GtElement::pairing, (p[1], q[1]), second),
        call_ensures(GtElement::multi_pairing, (p, q), both),
        call_ensures(GtElement::one, (), one),
    ensures
        first@ == residue(p[0]@ * q[0]@),
        both@ == residue(first@ + second@),
        one@ == 0,
{
    let (a, b) = (p[0]@ * q[0]@, p[1]@ * q[1]@);
    lemma_cong_residue(a);
    lemma_cong_residue(b);
    lemma_cong_ops(first@, a, second@, b);
}

// ---------------------------------------------------------------------------------------------
// Texts
// ---------------------------------------------------------------------------------------------

/// A number below ten is one digit; any other is the text of its tenth, and its last digit.
pub proof fn law_decimal(n: u64, r: String, tenth: String)
    requires
        call_ensures(decimal, (n,), r),
        call_ensures(decimal, (n / 10,), tenth),
    ensures
        r@.len() > 0,
        r@.last() as int == 48 + n % 10,
        n < 10 ==> r@.len() == 1,
        n >= 10 ==> r@.drop_last() == tenth@,
{
    if n >= 10 {
        assert(r@ == decimal_digits((n / 10) as nat).push(digit((n % 10) as nat)));
        assert(r@.drop_last() =~= tenth@);
    }
}

/// The number of a text of decimal digits.
pub open spec fn number(text: Seq<char>) -> int
    decreases text.len(),
{
    if text.len() == 0 {
        0
    } else {
        10 * number(text.drop_last()) + (text.last() as int - 48)
    }
}

/// The text of a number holds digits alone, does not start with zero unless it is zero, and can
/// be read back.
pub proof fn law_decimal_can_be_read(n: u64, r: String)
    requires
        call_ensures(decimal, (n,), r),
    ensures
        number(r@) == n,
        forall|i: int| 0 <= i < r@.len() ==> '0' <= #[trigger] r@[i] <= '9',
        n > 0 ==> r@.len() > 0 && r@[0] != '0',
{
    lemma_digits(n as nat);
}

proof fn lemma_digits(n: nat)
    ensures
        number(decimal_digits(n)) == n,
        decimal_digits(n).len() > 0,
        forall|i: int|
            0 <= i < decimal_digits(n).len() ==> '0' <= #[trigger] decimal_digits(n)[i] <= '9',
        n > 0 ==> decimal_digits(n)[0] != '0',
    decreases n,
{
    let text = decimal_digits(n);
    if n < 10 {
        assert(text.drop_last() =~= Seq::empty());
        assert(number(text.drop_last()) == 0);
        assert(text.last() == digit(n));
    } else {
        lemma_digits(n / 10);
        assert(text.drop_last() =~= decimal_digits(n / 10));
        assert(text.last() == digit(n % 10));
    }
}

/// What each error says.
pub proof fn law_error_message(e: Error, r: String)
    requires
        call_ensures(Error::message, (&e,), r),
    ensures
        e matches Error::ThresholdEncryptionError(text) ==> r@ == text@,
        e matches Error::DealerNotInValidatorSet(text) ==> r@
            == "Expected validator to be a part of the DKG validator set: "@ + text@,
        e matches Error::UnknownDealer(text) ==> r@ == "DKG received an unknown dealer: "@ + text@,
        e matches Error::DuplicateDealer(text) ==> r@
            == "DKG received a PVSS transcript from a dealer that has already been dealt: "@
                + text@,
        e matches Error::InvalidPvssTranscript(text) ==> r@
            == "DKG received an invalid transcript from validator: "@ + text@,
        forall|m: u32, n: u32, a: String, b: String|
            e == Error::InsufficientValidators(m, n) && #[trigger] call_ensures(
                decimal,
                (m as u64,),
                a,
            ) && #[trigger] call_ensures(decimal, (n as u64,), b) ==> r@
                == "Not enough validators (expected "@ + a@ + ", got "@ + b@ + ")"@,
        e == Error::InvalidTranscriptAggregate ==> r@
            == "Transcript aggregate doesn't match the received PVSS instances"@,
        forall|m: u32, n: u32, a: String, b: String|
            e == Error::InvalidTranscriptDegree(m, n) && #[trigger] call_ensures(
                decimal,
                (m as u64,),
                a,
            ) && #[trigger] call_ensures(decimal, (n as u64,), b) ==> r@
                == "Invalid transcript degree: expected "@ + a@
                    + " coefficients (security threshold), got "@ + b@,
        e == Error::ValidatorPublicKeyMismatch ==> r@ == "Validator public key mismatch"@,
        e matches Error::BincodeError(text) ==> r@ == text@,
        forall|inner: SerializationError, text: String|
            e == Error::ArkSerializeError(inner) && #[trigger] call_ensures(
                SerializationError::message,
                (&inner,),
                text,
            ) ==> r@ == text@,
        forall|m: usize, n: usize, a: String, b: String|
            e == Error::InvalidByteLength(m, n) && #[trigger] call_ensures(
                decimal,
                (m as u64,),
                a,
            ) && #[trigger] call_ensures(decimal, (n as u64,), b) ==> r@
                == "Invalid byte length. Expected "@ + a@ + ", got "@ + b@,
        e matches Error::InvalidVariant(text) ==> r@ == "Invalid variant: "@ + text@,
        forall|m: u32, n: u32, a: String, b: String|
            e == Error::InvalidDkgParameters(m, n) && #[trigger] call_ensures(
                decimal,
                (m as u64,),
                a,
            ) && #[trigger] call_ensures(decimal, (n as u64,), b) ==> r@
                == "Invalid DKG parameters: number of shares "@ + a@ + ", threshold "@ + b@,
        forall|m: u32, a: String|
            e == Error::InvalidShareIndex(m) && #[trigger] call_ensures(
                decimal,
                (m as u64,),
                a,
            ) ==> r@ == "Invalid share index: "@ + a@,
        e == Error::InvalidShareUpdate ==> r@ == "Invalid share update"@,
        forall|m: u32, n: u32, a: String, b: String|
            e == Error::InvalidDkgParametersForPrecomputedVariant(m, n) && #[trigger] call_ensures(
                decimal,
                (m as u64,),
                a,
            ) && #[trigger] call_ensures(decimal, (n as u64,), b) ==> r@
                == "Invalid DKG parameters for precomputed variant: number of shares "@ + a@
                    + ", threshold "@ + b@,
        forall|m: u32, a: String|
            e == Error::DuplicatedShareIndex(m) && #[trigger] call_ensures(
                decimal,
                (m as u64,),
                a,
            ) ==> r@ == "Duplicated share index: "@ + a@,
        e == Error::NoTranscriptsToAggregate ==> r@ == "No transcripts to aggregate"@,
        forall|m: u32, n: u32, a: String, b: String|
            e == Error::InvalidAggregateVerificationParameters(m, n) && #[trigger] call_ensures(
                decimal,
                (m as u64,),
                a,
            ) && #[trigger] call_ensures(decimal, (n as u64,), b) ==> r@
                == "Invalid aggregate verification parameters: number of validators "@ + a@
                    + ", number of messages: "@ + b@,
        forall|m: u32, n: u32, a: String, b: String|
            e == Error::TooManyTranscripts(m, n) && #[trigger] call_ensures(
                decimal,
                (m as u64,),
                a,
            ) && #[trigger] call_ensures(decimal, (n as u64,), b) ==> r@
                == "Too many transcripts. Expected: "@ + a@ + ", got: "@ + b@,
        e matches Error::DuplicateTranscript(text) ==> r@
            == "Received a duplicated transcript from validator: "@ + text@,
{
}

/// What each serialization error says.
pub proof fn law_serialization_error_message(e: SerializationError, r: String)
    requires
        call_ensures(SerializationError::message, (&e,), r),
    ensures
        e == SerializationError::NotEnoughSpace ==> r@
            == "the last byte does not have enough space to encode the extra info bits"@,
        e == SerializationError::InvalidData ==> r@ == "the input buffer contained invalid data"@,
        e == SerializationError::UnexpectedFlags ==> r@ == "the call expects empty flags"@,
        e matches SerializationError::IoError(text) ==> r@ == "I/O error: "@ + text@,
{
}

/// What each error on keys and their encodings says.
pub proof fn law_encoding_error_message(e: crate::common::Error, r: String)
    requires
        call_ensures(crate::common::Error::message, (&e,), r),
    ensures
        forall|m: usize, n: usize, a: String, b: String|
            e == crate::common::Error::InvalidByteLength(m, n) && #[trigger] call_ensures(
                decimal,
                (m as u64,),
                a,
            ) && #[trigger] call_ensures(decimal, (n as u64,), b) ==> r@
                == "Invalid byte length: expected "@ + a@ + ", actual "@ + b@,
        forall|inner: SerializationError, text: String|
            e == crate::common::Error::SerializationError(inner) && #[trigger] call_ensures(
                SerializationError::message,
                (&inner,),
                text,
            ) ==> r@ == "Serialization error: "@ + text@,
        forall|m: usize, a: String|
            e == crate::common::Error::InvalidSeedLength(m) && #[trigger] call_ensures(
                decimal,
                (m as u64,),
                a,
            ) ==> r@ == "Invalid seed length: "@ + a@,
        e == crate::common::Error::IdentityEncryptionKey ==> r@
            == "Encryption key is the identity point"@,
{
}

} // verus!
