//! Integers modulo the order of the BLS12-381 groups.

use vstd::arithmetic::div_mod::{
    lemma_add_mod_noop, lemma_mod_bound, lemma_mod_twice, lemma_mul_mod_noop, lemma_small_mod,
    lemma_sub_mod_noop,
};
use vstd::prelude::*;

verus! {

/// The order of the three BLS12-381 groups, which is the modulus of the scalar field.
#[verifier::opaque]
pub open spec fn order() -> int {
    0x73eda753299d7d483339d80809a1d80553bda402fffe5bfeffffffff00000001int
}

/// The group order has 255 bits.
pub proof fn lemma_order_bounds()
    ensures
        order() > 0x1_0000_0000_0000_0000,
        order()
            < 0x8000_0000_0000_0000_0000_0000_0000_0000_0000_0000_0000_0000_0000_0000_0000_0000int,
{
    reveal(order);
}

/// The residue of `a` modulo the group order.
pub open spec fn residue(a: int) -> int {
    a % order()
}

/// `a` and `b` differ by a multiple of the group order.
pub open spec fn cong(a: int, b: int) -> bool {
    residue(a) == residue(b)
}

pub proof fn lemma_residue(a: int)
    ensures
        0 <= residue(a) < order(),
        residue(residue(a)) == residue(a),
        0 <= a < order() ==> residue(a) == a,
{
    lemma_order_bounds();
    lemma_mod_bound(a, order());
    lemma_mod_twice(a, order());
    if 0 <= a < order() {
        lemma_small_mod(a as nat, order() as nat);
    }
}

/// Sums, differences and products of congruent integers are congruent.
pub proof fn lemma_cong_ops(a: int, b: int, c: int, d: int)
    requires
        cong(a, b),
        cong(c, d),
    ensures
        cong(a + c, b + d),
        cong(a - c, b - d),
        cong(a * c, b * d),
{
    let m = order();
    lemma_order_bounds();
    lemma_residue(a);
    lemma_residue(b);
    lemma_residue(c);
    lemma_residue(d);
    lemma_add_mod_noop(a, c, m);
    lemma_add_mod_noop(b, d, m);
    lemma_sub_mod_noop(a, c, m);
    lemma_sub_mod_noop(b, d, m);
    lemma_mul_mod_noop(a, c, m);
    lemma_mul_mod_noop(b, d, m);
}

/// Two integers are congruent exactly when their difference is congruent to zero.
pub proof fn lemma_not_cong_difference(a: int, b: int)
    ensures
        cong(a, b) <==> cong(a - b, 0),
{
    if cong(a, b) {
        lemma_cong_ops(a, b, b, b);
    }
    if cong(a - b, 0) {
        lemma_cong_ops(a - b, 0, b, b);
    }
}

/// An integer is congruent to its own residue.
pub proof fn lemma_cong_residue(a: int)
    ensures
        cong(residue(a), a),
        cong(a, residue(a)),
{
    lemma_residue(a);
}

} // verus!
