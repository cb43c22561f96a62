//! Polynomials over the integers, given by their coefficients from the constant term upwards.

use vstd::prelude::*;

use crate::modular::{cong, lemma_cong_ops, lemma_not_cong_difference};
use crate::primality::lemma_zero_product;

verus! {

/// The value at `x` of the polynomial with coefficients `c`.
pub open spec fn eval(c: Seq<int>, x: int) -> int
    decreases c.len(),
{
    if c.len() == 0 {
        0
    } else {
        c[0] + x * eval(c.drop_first(), x)
    }
}

/// The product of `x - y` over the members `y` of `xs` other than `xj`.
pub open spec fn basis_product(xs: Seq<int>, xj: int, x: int) -> int
    decreases xs.len(),
{
    if xs.len() == 0 {
        1
    } else {
        let rest = basis_product(xs.drop_last(), xj, x);
        if xs.last() == xj {
            rest
        } else {
            (x - xs.last()) * rest
        }
    }
}

/// `v` is the value at `x` of the Lagrange basis polynomial of `xs[j]`: the product of
/// `(x - y) / (xs[j] - y)` over the members `y` of `xs` other than `xs[j]`.
pub open spec fn is_basis_value(v: int, xs: Seq<int>, j: int, x: int) -> bool {
    cong(v * basis_product(xs, xs[j], xs[j]), basis_product(xs, xs[j], x))
}

// ---------------------------------------------------------------------------------------------
// Sums and multiples
// ---------------------------------------------------------------------------------------------

/// Coefficient `i` of a polynomial: beyond the last one they are zero.
pub open spec fn coef(c: Seq<int>, i: int) -> int {
    if 0 <= i < c.len() {
        c[i]
    } else {
        0
    }
}

/// The sum of two polynomials.
pub open spec fn poly_sum(a: Seq<int>, b: Seq<int>) -> Seq<int> {
    Seq::new(
        if a.len() < b.len() {
            b.len()
        } else {
            a.len()
        },
        |i: int| coef(a, i) + coef(b, i),
    )
}

/// A polynomial times an integer.
pub open spec fn poly_scaled(c: Seq<int>, k: int) -> Seq<int> {
    Seq::new(c.len(), |i: int| k * c[i])
}

/// A polynomial times the linear polynomial that vanishes at `y`.
pub open spec fn times_linear(c: Seq<int>, y: int) -> Seq<int> {
    poly_sum(seq![0int] + c, poly_scaled(c, -y))
}

pub proof fn lemma_eval_sum(a: Seq<int>, b: Seq<int>, x: int)
    ensures
        eval(poly_sum(a, b), x) == eval(a, x) + eval(b, x),
    decreases a.len() + b.len(),
{
    if a.len() == 0 {
        assert(poly_sum(a, b) =~= b);
    } else if b.len() == 0 {
        assert(poly_sum(a, b) =~= a);
    } else {
        let (u, v) = (a.drop_first(), b.drop_first());
        assert(poly_sum(a, b).drop_first() =~= poly_sum(u, v));
        lemma_eval_sum(u, v, x);
        assert(x * (eval(u, x) + eval(v, x)) == x * eval(u, x) + x * eval(v, x))
            by (nonlinear_arith);
    }
}

pub proof fn lemma_eval_scaled(c: Seq<int>, k: int, x: int)
    ensures
        eval(poly_scaled(c, k), x) == k * eval(c, x),
    decreases c.len(),
{
    if c.len() == 0 {
        assert(k * 0 == 0) by (nonlinear_arith);
    } else {
        let u = c.drop_first();
        assert(poly_scaled(c, k).drop_first() =~= poly_scaled(u, k));
        lemma_eval_scaled(u, k, x);
        let v = eval(u, x);
        assert(k * (c[0] + x * v) == k * c[0] + x * (k * v)) by (nonlinear_arith);
    }
}

pub proof fn lemma_eval_times_linear(c: Seq<int>, y: int, x: int)
    ensures
        eval(times_linear(c, y), x) == (x - y) * eval(c, x),
        times_linear(c, y).len() == c.len() + 1,
{
    let shifted = seq![0int] + c;
    assert(shifted.drop_first() =~= c);
    lemma_eval_scaled(c, -y, x);
    lemma_eval_sum(shifted, poly_scaled(c, -y), x);
    let v = eval(c, x);
    assert((x - y) * v == x * v + (-y) * v) by (nonlinear_arith);
}

// ---------------------------------------------------------------------------------------------
// Roots
// ---------------------------------------------------------------------------------------------

/// The quotient of a polynomial by the linear one that vanishes at `r`.
pub open spec fn quotient(c: Seq<int>, r: int) -> Seq<int>
    decreases c.len(),
{
    if c.len() <= 1 {
        Seq::empty()
    } else {
        seq![eval(c.drop_first(), r)] + quotient(c.drop_first(), r)
    }
}

/// Division by a linear polynomial leaves the value at its root.
pub proof fn lemma_quotient(c: Seq<int>, r: int, x: int)
    requires
        c.len() > 0,
    ensures
        quotient(c, r).len() == c.len() - 1,
        eval(c, x) == eval(c, r) + (x - r) * eval(quotient(c, r), x),
    decreases c.len(),
{
    let u = c.drop_first();
    let q = quotient(c, r);
    if c.len() == 1 {
        assert(eval(u, x) == 0 && eval(u, r) == 0);
        assert(x * 0 == 0 && r * 0 == 0 && (x - r) * 0 == 0) by (nonlinear_arith);
    } else {
        lemma_quotient(u, r, x);
        let qu = quotient(u, r);
        assert(q.drop_first() =~= qu);
        let (ur, ux, v) = (eval(u, r), eval(u, x), eval(qu, x));
        assert(c[0] + x * ux == c[0] + r * ur + (x - r) * (ur + x * v)) by (nonlinear_arith)
            requires
                ux == ur + (x - r) * v,
        {
            assert(x * (ur + (x - r) * v) == x * ur + (x - r) * (x * v));
            assert(x * ur == r * ur + (x - r) * ur);
            assert((x - r) * (ur + x * v) == (x - r) * ur + (x - r) * (x * v));
        }
    }
}

/// No two of the points are congruent.
pub open spec fn all_distinct(xs: Seq<int>) -> bool {
    forall|i: int, j: int| 0 <= i < j < xs.len() ==> !cong(#[trigger] xs[i], #[trigger] xs[j])
}

/// A polynomial that vanishes at as many points as it has coefficients vanishes everywhere.
pub proof fn lemma_root_bound(c: Seq<int>, xs: Seq<int>, x: int)
    requires
        c.len() <= xs.len(),
        all_distinct(xs),
        forall|i: int| 0 <= i < xs.len() ==> cong(eval(c, #[trigger] xs[i]), 0),
    ensures
        cong(eval(c, x), 0),
    decreases c.len(),
{
    if c.len() > 0 {
        let r = xs.last();
        let q = quotient(c, r);
        let rest = xs.drop_last();
        assert(cong(eval(c, r), 0));
        lemma_quotient(c, r, x);
        assert forall|i: int| 0 <= i < rest.len() implies cong(eval(q, #[trigger] rest[i]), 0) by {
            let y = xs[i];
            lemma_quotient(c, r, y);
            lemma_cong_ops(eval(c, y), 0, eval(c, r), 0);
            assert(cong((y - r) * eval(q, y), 0));
            assert(!cong(y, r)) by {
                assert(!cong(xs[i], xs[xs.len() - 1]));
            }
            lemma_not_cong_difference(y, r);
            lemma_zero_product(y - r, eval(q, y));
        }
        assert forall|i: int, j: int| 0 <= i < j < rest.len() implies !cong(
            #[trigger] rest[i],
            #[trigger] rest[j],
        ) by {
            assert(!cong(xs[i], xs[j]));
        }
        lemma_root_bound(q, rest, x);
        lemma_cong_ops(x - r, x - r, eval(q, x), 0);
        lemma_cong_ops(eval(c, r), 0, (x - r) * eval(q, x), (x - r) * 0);
        assert((x - r) * 0 == 0) by (nonlinear_arith);
    }
}

} // verus!
