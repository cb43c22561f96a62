//! Lagrange interpolation: the values of a polynomial at enough points determine it.

use vstd::prelude::*;

use crate::modular::{
    cong, lemma_cong_ops, lemma_not_cong_difference, lemma_order_bounds, lemma_residue, order,
};
use crate::number_theory::is_inverse;
use crate::poly::{
    all_distinct, basis_product, eval, is_basis_value, lemma_eval_scaled, lemma_eval_sum,
    lemma_eval_times_linear, lemma_root_bound, poly_scaled, poly_sum, times_linear,
};
use crate::primality::{inverse_of, lemma_zero_product};

verus! {

/// The sum of the products of coefficients and values.
pub open spec fn combination(coeffs: Seq<int>, ys: Seq<int>) -> int
    decreases coeffs.len(),
{
    if coeffs.len() == 0 {
        0
    } else {
        combination(coeffs.drop_last(), ys.drop_last()) + coeffs.last() * ys.last()
    }
}

/// The values of a polynomial at a sequence of points.
pub open spec fn evals(c: Seq<int>, xs: Seq<int>) -> Seq<int> {
    Seq::new(xs.len(), |i: int| eval(c, xs[i]))
}

// ---------------------------------------------------------------------------------------------
// Basis polynomials
// ---------------------------------------------------------------------------------------------

/// The polynomial whose values are those of [`basis_product`].
spec fn basis_poly(xs: Seq<int>, xj: int) -> Seq<int>
    decreases xs.len(),
{
    if xs.len() == 0 {
        seq![1int]
    } else {
        let rest = basis_poly(xs.drop_last(), xj);
        if xs.last() == xj {
            rest
        } else {
            times_linear(rest, xs.last())
        }
    }
}

proof fn lemma_basis_poly(xs: Seq<int>, xj: int, x: int)
    ensures
        eval(basis_poly(xs, xj), x) == basis_product(xs, xj, x),
        basis_poly(xs, xj).len() <= xs.len() + 1,
        xs.contains(xj) ==> basis_poly(xs, xj).len() <= xs.len(),
    decreases xs.len(),
{
    if xs.len() == 0 {
        let one = seq![1int];
        assert(eval(one.drop_first(), x) == 0);
        assert(x * 0 == 0) by (nonlinear_arith);
    } else {
        let rest = xs.drop_last();
        lemma_basis_poly(rest, xj, x);
        lemma_eval_times_linear(basis_poly(rest, xj), xs.last(), x);
        if xs.contains(xj) && xs.last() != xj {
            let i = xs.index_of(xj);
            assert(rest[i] == xj);
        }
    }
}

/// The basis polynomial of `xj` vanishes at the other points.
proof fn lemma_basis_product_zero(xs: Seq<int>, xj: int, i: int)
    requires
        0 <= i < xs.len(),
        xs[i] != xj,
    ensures
        basis_product(xs, xj, xs[i]) == 0,
    decreases xs.len(),
{
    let rest = xs.drop_last();
    let p = basis_product(rest, xj, xs[i]);
    if i == xs.len() - 1 {
        assert(0 * p == 0);
    } else {
        assert(rest[i] == xs[i]);
        lemma_basis_product_zero(rest, xj, i);
        assert((xs[i] - xs.last()) * 0 == 0) by (nonlinear_arith);
    }
}

/// The basis polynomial of `xj` does not vanish at `xj`.
pub proof fn lemma_basis_product_unit(xs: Seq<int>, xj: int)
    requires
        forall|i: int| 0 <= i < xs.len() && #[trigger] xs[i] != xj ==> !cong(xj, xs[i]),
    ensures
        !cong(basis_product(xs, xj, xj), 0),
    decreases xs.len(),
{
    if xs.len() == 0 {
        lemma_order_bounds();
        lemma_residue(1);
        lemma_residue(0);
    } else {
        let rest = xs.drop_last();
        assert forall|i: int| 0 <= i < rest.len() && #[trigger] rest[i] != xj implies !cong(
            xj,
            rest[i],
        ) by {
            assert(xs[i] == rest[i]);
        }
        lemma_basis_product_unit(rest, xj);
        if xs.last() != xj {
            assert(!cong(xj, xs[xs.len() - 1]));
            lemma_not_cong_difference(xj, xs.last());
            if cong(basis_product(xs, xj, xj), 0) {
                lemma_zero_product(xj - xs.last(), basis_product(rest, xj, xj));
            }
        }
    }
}

// ---------------------------------------------------------------------------------------------
// The interpolating polynomial
// ---------------------------------------------------------------------------------------------

/// The sum of the first `n` basis polynomials, each with its weight.
spec fn weighted_poly(xs: Seq<int>, ks: Seq<int>, n: nat) -> Seq<int>
    decreases n,
{
    if n == 0 {
        Seq::empty()
    } else {
        poly_sum(
            weighted_poly(xs, ks, (n - 1) as nat),
            poly_scaled(basis_poly(xs, xs[n - 1]), ks[n - 1]),
        )
    }
}

/// The value at `x` of [`weighted_poly`].
spec fn weighted_value(xs: Seq<int>, ks: Seq<int>, n: nat, x: int) -> int
    decreases n,
{
    if n == 0 {
        0
    } else {
        weighted_value(xs, ks, (n - 1) as nat, x) + ks[n - 1] * basis_product(xs, xs[n - 1], x)
    }
}

proof fn lemma_weighted_poly(xs: Seq<int>, ks: Seq<int>, n: nat, x: int)
    requires
        n <= xs.len(),
    ensures
        eval(weighted_poly(xs, ks, n), x) == weighted_value(xs, ks, n, x),
        weighted_poly(xs, ks, n).len() <= xs.len(),
    decreases n,
{
    if n > 0 {
        lemma_weighted_poly(xs, ks, (n - 1) as nat, x);
        let basis = basis_poly(xs, xs[n - 1]);
        lemma_basis_poly(xs, xs[n - 1], x);
        assert(xs.contains(xs[n - 1]));
        lemma_eval_scaled(basis, ks[n - 1], x);
        lemma_eval_sum(
            weighted_poly(xs, ks, (n - 1) as nat),
            poly_scaled(basis, ks[n - 1]),
            x,
        );
    }
}

/// At one of the points only its own basis polynomial counts.
proof fn lemma_weighted_value_at(xs: Seq<int>, ks: Seq<int>, n: nat, i: int)
    requires
        n <= xs.len(),
        0 <= i < xs.len(),
        all_distinct(xs),
    ensures
        weighted_value(xs, ks, n, xs[i]) == if i < n {
            ks[i] * basis_product(xs, xs[i], xs[i])
        } else {
            0
        },
    decreases n,
{
    if n > 0 {
        lemma_weighted_value_at(xs, ks, (n - 1) as nat, i);
        if i != n - 1 {
            assert(xs[i] != xs[n - 1]) by {
                if i < n - 1 {
                    assert(!cong(xs[i], xs[n - 1]));
                } else {
                    assert(!cong(xs[n - 1], xs[i]));
                }
            }
            lemma_basis_product_zero(xs, xs[n - 1], i);
            assert(ks[n - 1] * 0 == 0) by (nonlinear_arith);
        }
    }
}

/// With weights `y / D` the weighted sum is congruent to the combination of the values.
proof fn lemma_combination(
    xs: Seq<int>,
    ks: Seq<int>,
    ws: Seq<int>,
    ls: Seq<int>,
    ys: Seq<int>,
    n: nat,
    x: int,
)
    requires
        n <= xs.len(),
        xs.len() == ks.len() == ws.len() == ls.len() == ys.len(),
        forall|j: int|
            0 <= j < xs.len() ==> {
                &&& is_basis_value(#[trigger] ls[j], xs, j, x)
                &&& cong(basis_product(xs, xs[j], xs[j]) * ws[j], 1)
                &&& ks[j] == ys[j] * ws[j]
            },
    ensures
        cong(weighted_value(xs, ks, n, x), combination(ls.take(n as int), ys.take(n as int))),
    decreases n,
{
    if n > 0 {
        let m = (n - 1) as nat;
        lemma_combination(xs, ks, ws, ls, ys, m, x);
        assert(ls.take(n as int).drop_last() =~= ls.take(m as int));
        assert(ys.take(n as int).drop_last() =~= ys.take(m as int));
        let j = n - 1;
        let (d, b, l, y, w) = (
            basis_product(xs, xs[j], xs[j]),
            basis_product(xs, xs[j], x),
            ls[j],
            ys[j],
            ws[j],
        );
        assert(is_basis_value(ls[j], xs, j, x));
        // ks[j] * b is congruent to y * w * (l * d), and d * w to one
        lemma_cong_ops(y * w, y * w, b, l * d);
        lemma_cong_ops(l * y, l * y, d * w, 1);
        assert((y * w) * (l * d) == (l * y) * (d * w)) by (nonlinear_arith);
        lemma_cong_ops(
            weighted_value(xs, ks, m, x),
            combination(ls.take(m as int), ys.take(m as int)),
            ks[j] * b,
            l * y,
        );
    }
}

/// The combination, by Lagrange coefficients at `x`, of the values of a polynomial with no more
/// coefficients than there are points is its value at `x`.
pub proof fn lemma_interpolation(h: Seq<int>, xs: Seq<int>, ls: Seq<int>, x: int)
    requires
        h.len() <= xs.len(),
        ls.len() == xs.len(),
        all_distinct(xs),
        forall|j: int| 0 <= j < xs.len() ==> is_basis_value(#[trigger] ls[j], xs, j, x),
    ensures
        cong(combination(ls, evals(h, xs)), eval(h, x)),
{
    let n = xs.len();
    let ys = evals(h, xs);
    let ws = Seq::new(
        n,
        |j: int| choose|b: int| is_inverse(basis_product(xs, xs[j], xs[j]), b, order()),
    );
    let ks = Seq::new(n, |j: int| ys[j] * ws[j]);
    lemma_order_bounds();
    lemma_residue(1);
    assert forall|j: int| 0 <= j < n implies cong(
        basis_product(xs, xs[j], xs[j]) * (#[trigger] ws[j]),
        1,
    ) by {
        assert forall|i: int| 0 <= i < n && #[trigger] xs[i] != xs[j] implies !cong(
            xs[j],
            xs[i],
        ) by {
            if i < j {
                assert(!cong(xs[i], xs[j]));
            } else {
                assert(!cong(xs[j], xs[i]));
            }
        }
        lemma_basis_product_unit(xs, xs[j]);
        let d = basis_product(xs, xs[j], xs[j]);
        let b = inverse_of(d);
        assert(is_inverse(d, b, order()));
    }
    // the difference of the two polynomials vanishes at every point
    let p = weighted_poly(xs, ks, n);
    let minus_h = poly_scaled(h, -1);
    let difference = poly_sum(p, minus_h);
    assert forall|i: int| 0 <= i < n implies cong(eval(difference, #[trigger] xs[i]), 0) by {
        lemma_weighted_poly(xs, ks, n, xs[i]);
        lemma_weighted_value_at(xs, ks, n, i);
        lemma_eval_scaled(h, -1, xs[i]);
        lemma_eval_sum(p, minus_h, xs[i]);
        let (y, w, d) = (ys[i], ws[i], basis_product(xs, xs[i], xs[i]));
        assert(cong(d * w, 1));
        lemma_cong_ops(y, y, d * w, 1);
        assert((y * w) * d == y * (d * w)) by (nonlinear_arith);
        lemma_cong_ops((y * w) * d, y, y, y);
    }
    lemma_weighted_poly(xs, ks, n, x);
    lemma_root_bound(difference, xs, x);
    lemma_eval_scaled(h, -1, x);
    lemma_eval_sum(p, minus_h, x);
    lemma_not_cong_difference(eval(p, x), eval(h, x));
    assert(ls.take(n as int) =~= ls);
    assert(ys.take(n as int) =~= ys);
    lemma_combination(xs, ks, ws, ls, ys, n, x);
}

} // verus!
