//! The group order is prime: every scalar but zero has an inverse.

use vstd::arithmetic::div_mod::{lemma_div_by_self, lemma_mul_mod_noop, lemma_sub_mod_noop};
use vstd::arithmetic::power::{lemma_pow1, lemma_pow_multiplies, pow};
use vstd::arithmetic::power2::{lemma2_to64, lemma_pow2};
use vstd::prelude::*;

use crate::modular::{
    cong, lemma_cong_ops, lemma_cong_residue, lemma_order_bounds, lemma_residue, order, residue,
};
use crate::number_theory::{
    is_inverse, is_prime, is_unit, lemma_divides_mod, lemma_pocklington, lemma_product_concat,
    lemma_product_repeat, lemma_small_divisor, product,
};
use crate::powers::{
    lemma_first_power, lemma_powers_at_order, lemma_small_mod_of, lemma_square,
    lemma_square_times,
};

verus! {

// ---------------------------------------------------------------------------------------------
// Primes below the group order
// ---------------------------------------------------------------------------------------------

/// Pocklington's criterion with a single prime.
proof fn lemma_pocklington_one(m: int, a: int, q: int, inverse: int)
    requires
        m > 1,
        is_prime(q),
        q * q > m,
        pow(a, q as nat) % m == 1,
        ((a - 1) * inverse) % m == 1,
    ensures
        is_prime(m),
{
    let qs = seq![q];
    assert(qs.drop_first() =~= Seq::<int>::empty());
    assert(product(qs.drop_first()) == 1);
    assert(product(qs) == q);
    lemma_div_by_self(q);
    lemma_pow1(a);
    assert(is_inverse(a - 1, inverse, m));
    assert(is_unit(pow(a, 1) - 1, m));
    lemma_pocklington(m, a, qs);
}

proof fn lemma_prime_359()
    ensures
        is_prime(359),
{
    if !is_prime(359) {
        let p = lemma_small_divisor(359);
        assert(p <= 18) by (nonlinear_arith)
            requires
                p * p <= 359,
        ;
        lemma_divides_mod(p, 359);
        assert(359int % 2 != 0 && 359int % 3 != 0 && 359int % 4 != 0 && 359int % 5 != 0 && 359int % 6 != 0 && 359int % 7 != 0 && 359int % 8 != 0 && 359int % 9 != 0 && 359int % 10 != 0 && 359int % 11 != 0 && 359int % 12 != 0 && 359int % 13 != 0 && 359int % 14 != 0 && 359int % 15 != 0 && 359int % 16 != 0 && 359int % 17 != 0 && 359int % 18 != 0);
        assert(p == 2 || p == 3 || p == 4 || p == 5 || p == 6 || p == 7 || p == 8 || p == 9 || p == 10 || p == 11 || p == 12 || p == 13 || p == 14 || p == 15 || p == 16 || p == 17 || p == 18);
    }
}

proof fn lemma_prime_110573()
    ensures
        is_prime(110573),
{
    lemma_prime_359();
    lemma_first_power(110573, 49205);
    lemma_square(110573, 49205, 1, 49205, 25617);
    lemma_square_times(110573, 49205, 2, 25617, 69360);
    lemma_square_times(110573, 49205, 5, 69360, 68548);
    lemma_square(110573, 49205, 11, 68548, 28669);
    lemma_square(110573, 49205, 22, 28669, 22452);
    lemma_square_times(110573, 49205, 44, 22452, 73381);
    lemma_square_times(110573, 49205, 89, 73381, 14024);
    lemma_square_times(110573, 49205, 179, 14024, 1);
    lemma_pocklington_one(110573, 49205, 359, 49392);
}

proof fn lemma_prime_2653753()
    ensures
        is_prime(2653753),
{
    lemma_prime_110573();
    lemma_first_power(2653753, 854698);
    lemma_square_times(2653753, 854698, 1, 854698, 2652529);
    lemma_square(2653753, 854698, 3, 2652529, 1498176);
    lemma_square_times(2653753, 854698, 6, 1498176, 2186847);
    lemma_square(2653753, 854698, 13, 2186847, 711392);
    lemma_square_times(2653753, 854698, 26, 711392, 1185360);
    lemma_square_times(2653753, 854698, 53, 1185360, 313871);
    lemma_square_times(2653753, 854698, 107, 313871, 2507033);
    lemma_square_times(2653753, 854698, 215, 2507033, 2393443);
    lemma_square_times(2653753, 854698, 431, 2393443, 1505757);
    lemma_square_times(2653753, 854698, 863, 1505757, 693093);
    lemma_square_times(2653753, 854698, 1727, 693093, 50551);
    lemma_square(2653753, 854698, 3455, 50551, 2493215);
    lemma_square_times(2653753, 854698, 6910, 2493215, 162158);
    lemma_square_times(2653753, 854698, 13821, 162158, 373184);
    lemma_square(2653753, 854698, 27643, 373184, 2647922);
    lemma_square_times(2653753, 854698, 55286, 2647922, 1);
    lemma_pocklington_one(2653753, 854698, 110573, 166544);
}

proof fn lemma_prime_63690073()
    ensures
        is_prime(63690073),
{
    lemma_prime_2653753();
    lemma_first_power(63690073, 16777216);
    lemma_square(63690073, 16777216, 1, 16777216, 10970952);
    lemma_square_times(63690073, 16777216, 2, 10970952, 41720488);
    lemma_square(63690073, 16777216, 5, 41720488, 57476179);
    lemma_square(63690073, 16777216, 10, 57476179, 53436621);
    lemma_square(63690073, 16777216, 20, 53436621, 10725131);
    lemma_square(63690073, 16777216, 40, 10725131, 23274416);
    lemma_square_times(63690073, 16777216, 80, 23274416, 56846450);
    lemma_square_times(63690073, 16777216, 161, 56846450, 8126753);
    lemma_square_times(63690073, 16777216, 323, 8126753, 29732914);
    lemma_square_times(63690073, 16777216, 647, 29732914, 56113108);
    lemma_square_times(63690073, 16777216, 1295, 56113108, 3127971);
    lemma_square_times(63690073, 16777216, 2591, 3127971, 50455058);
    lemma_square(63690073, 16777216, 5183, 50455058, 24389712);
    lemma_square(63690073, 16777216, 10366, 24389712, 30291266);
    lemma_square(63690073, 16777216, 20732, 30291266, 14627087);
    lemma_square_times(63690073, 16777216, 41464, 14627087, 42560209);
    lemma_square_times(63690073, 16777216, 82929, 42560209, 46872873);
    lemma_square_times(63690073, 16777216, 165859, 46872873, 55728814);
    lemma_square(63690073, 16777216, 331719, 55728814, 22888620);
    lemma_square(63690073, 16777216, 663438, 22888620, 52105819);
    lemma_square_times(63690073, 16777216, 1326876, 52105819, 1);
    lemma_pocklington_one(63690073, 16777216, 2653753, 34981479);
}

proof fn lemma_prime_254760293()
    ensures
        is_prime(254760293),
{
    lemma_prime_63690073();
    lemma_first_power(254760293, 16);
    lemma_square_times(254760293, 16, 1, 16, 4096);
    lemma_square_times(254760293, 16, 3, 4096, 13675163);
    lemma_square_times(254760293, 16, 7, 13675163, 159378346);
    lemma_square(254760293, 16, 15, 159378346, 32861211);
    lemma_square(254760293, 16, 30, 32861211, 110679803);
    lemma_square_times(254760293, 16, 60, 110679803, 240651531);
    lemma_square(254760293, 16, 121, 240651531, 210237094);
    lemma_square_times(254760293, 16, 242, 210237094, 207102281);
    lemma_square_times(254760293, 16, 485, 207102281, 207749424);
    lemma_square_times(254760293, 16, 971, 207749424, 45359439);
    lemma_square_times(254760293, 16, 1943, 45359439, 197431433);
    lemma_square(254760293, 16, 3887, 197431433, 103260729);
    lemma_square_times(254760293, 16, 7774, 103260729, 146079511);
    lemma_square(254760293, 16, 15549, 146079511, 24062497);
    lemma_square_times(254760293, 16, 31098, 24062497, 204597954);
    lemma_square(254760293, 16, 62197, 204597954, 228038418);
    lemma_square_times(254760293, 16, 124394, 228038418, 101340931);
    lemma_square(254760293, 16, 248789, 101340931, 236510555);
    lemma_square_times(254760293, 16, 497578, 236510555, 213627711);
    lemma_square(254760293, 16, 995157, 213627711, 210623838);
    lemma_square_times(254760293, 16, 1990314, 210623838, 153842310);
    lemma_square_times(254760293, 16, 3980629, 153842310, 221955166);
    lemma_square(254760293, 16, 7961259, 221955166, 94575019);
    lemma_square(254760293, 16, 15922518, 94575019, 63690073);
    lemma_square_times(254760293, 16, 31845036, 63690073, 1);
    lemma_pocklington_one(254760293, 16, 63690073, 220792254);
}

proof fn lemma_prime_1607()
    ensures
        is_prime(1607),
{
    if !is_prime(1607) {
        let p = lemma_small_divisor(1607);
        assert(p <= 40) by (nonlinear_arith)
            requires
                p * p <= 1607,
        ;
        lemma_divides_mod(p, 1607);
        assert(1607int % 2 != 0 && 1607int % 3 != 0 && 1607int % 4 != 0 && 1607int % 5 != 0 && 1607int % 6 != 0 && 1607int % 7 != 0 && 1607int % 8 != 0 && 1607int % 9 != 0 && 1607int % 10 != 0 && 1607int % 11 != 0 && 1607int % 12 != 0 && 1607int % 13 != 0 && 1607int % 14 != 0 && 1607int % 15 != 0 && 1607int % 16 != 0 && 1607int % 17 != 0 && 1607int % 18 != 0 && 1607int % 19 != 0 && 1607int % 20 != 0 && 1607int % 21 != 0 && 1607int % 22 != 0 && 1607int % 23 != 0 && 1607int % 24 != 0 && 1607int % 25 != 0 && 1607int % 26 != 0 && 1607int % 27 != 0 && 1607int % 28 != 0 && 1607int % 29 != 0 && 1607int % 30 != 0 && 1607int % 31 != 0 && 1607int % 32 != 0 && 1607int % 33 != 0 && 1607int % 34 != 0 && 1607int % 35 != 0 && 1607int % 36 != 0 && 1607int % 37 != 0 && 1607int % 38 != 0 && 1607int % 39 != 0 && 1607int % 40 != 0);
        assert(p == 2 || p == 3 || p == 4 || p == 5 || p == 6 || p == 7 || p == 8 || p == 9 || p == 10 || p == 11 || p == 12 || p == 13 || p == 14 || p == 15 || p == 16 || p == 17 || p == 18 || p == 19 || p == 20 || p == 21 || p == 22 || p == 23 || p == 24 || p == 25 || p == 26 || p == 27 || p == 28 || p == 29 || p == 30 || p == 31 || p == 32 || p == 33 || p == 34 || p == 35 || p == 36 || p == 37 || p == 38 || p == 39 || p == 40);
    }
}

proof fn lemma_prime_906349()
    ensures
        is_prime(906349),
{
    lemma_prime_1607();
    lemma_first_power(906349, 210417);
    lemma_square_times(906349, 210417, 1, 210417, 640674);
    lemma_square(906349, 210417, 3, 640674, 370901);
    lemma_square(906349, 210417, 6, 370901, 87883);
    lemma_square_times(906349, 210417, 12, 87883, 507258);
    lemma_square(906349, 210417, 25, 507258, 10162);
    lemma_square(906349, 210417, 50, 10162, 848807);
    lemma_square(906349, 210417, 100, 848807, 188867);
    lemma_square_times(906349, 210417, 200, 188867, 288547);
    lemma_square_times(906349, 210417, 401, 288547, 2695);
    lemma_square_times(906349, 210417, 803, 2695, 1);
    lemma_pocklington_one(906349, 210417, 1607, 298534);
}

pub proof fn lemma_prime_2()
    ensures
        is_prime(2),
{
    if !is_prime(2) {
        let p = lemma_small_divisor(2);
        assert(p * p >= 4) by (nonlinear_arith)
            requires
                p > 1,
        ;
    }
}

pub proof fn lemma_prime_3()
    ensures
        is_prime(3),
{
    if !is_prime(3) {
        let p = lemma_small_divisor(3);
        assert(p * p >= 4) by (nonlinear_arith)
            requires
                p > 1,
        ;
    }
}

// ---------------------------------------------------------------------------------------------
// The group order
// ---------------------------------------------------------------------------------------------

/// The group order is prime.
pub proof fn lemma_order_is_prime()
    ensures
        is_prime(order()),
{
    reveal(order);
    let m = order();
    lemma_prime_2();
    lemma_prime_906349();
    lemma_prime_254760293();
    let twos = Seq::new(32, |i: int| 2int);
    let others = seq![906349int, 906349int, 254760293int, 254760293int];
    let qs = twos + others;
    let f: int = 0xac45a4010001a4020000000100000000int;
    assert(product(qs) == f) by {
        lemma_product_concat(twos, others);
        lemma_product_repeat(2, 32);
        lemma_pow2(32);
        lemma2_to64();
        let (p, q) = (906349int, 254760293int);
        assert(others.drop_first() =~= seq![p, q, q]);
        assert(others.drop_first().drop_first() =~= seq![q, q]);
        assert(others.drop_first().drop_first().drop_first() =~= seq![q]);
        assert(seq![q].drop_first() =~= Seq::<int>::empty());
        assert(product(seq![q].drop_first()) == 1);
        assert(product(seq![q]) == 254760293);
        assert(product(seq![q, q]) == 254760293 * 254760293);
        assert(product(seq![p, q, q]) == 906349 * (254760293 * 254760293));
        assert(product(others) == 906349 * (906349 * (254760293 * 254760293)));
        assert(product(twos) == 0x1_0000_0000);
        assert(product(qs) == 0x1_0000_0000 * product(others));
    }
    let c: nat = 0xac45a4010001a40200000000ffffffffnat;
    let a = pow(7, c);
    lemma_powers_at_order();
    lemma_pow_multiplies(7, c, (f / 2) as nat);
    lemma_pow_multiplies(7, c, (f / 906349) as nat);
    lemma_pow_multiplies(7, c, (f / 254760293) as nat);
    lemma_pow_multiplies(7, c, f as nat);
    lemma_square(m, 7, ((m - 1) / 2) as nat, m - 1, 1);
    assert(is_unit(pow(a, (f / 2) as nat) - 1, m)) by {
        lemma_unit_from(
            pow(a, (f / 2) as nat),
            0x73eda753299d7d483339d80809a1d80553bda402fffe5bfeffffffff00000000int,
            0x39f6d3a994cebea4199cec0404d0ec02a9ded2017fff2dff7fffffff80000000int,
        );
    }
    assert(is_unit(pow(a, (f / 906349) as nat) - 1, m)) by {
        lemma_unit_from(
            pow(a, (f / 906349) as nat),
            0x67ee5d1f3b069511cd89744d5897256537cb1d8475a21d7924a57ba2b69a4d76int,
            0x4073079c76e730aa62741bebe6d9531e37410dc18dff928c35a724b5ba8ff759int,
        );
    }
    assert(is_unit(pow(a, (f / 254760293) as nat) - 1, m)) by {
        lemma_unit_from(
            pow(a, (f / 254760293) as nat),
            0x4a7a5acf5dc0e762414782ae22b4119ca76fee9d4c748ed263a7435fa7fde54fint,
            0x368dbd074ff9836a930809af157cff63da1b0c0f6060dce04e64605cfdc0b16aint,
        );
    }
    assert forall|k: int| 0 <= k < qs.len() implies is_prime(#[trigger] qs[k]) && is_unit(
        pow(a, (product(qs) / qs[k]) as nat) - 1,
        m,
    ) by {
        if k < 32 {
            assert(qs[k] == 2);
        } else {
            assert(qs[k] == others[k - 32]);
        }
    }
    lemma_pocklington(m, a, qs);
}

/// An integer that is congruent to `r` is one more than a unit if `r` is.
proof fn lemma_unit_from(v: int, r: int, inverse: int)
    requires
        v % order() == r,
        ((r - 1) * inverse) % 0x73eda753299d7d483339d80809a1d80553bda402fffe5bfeffffffff00000001int == 1,
    ensures
        is_unit(v - 1, order()),
{
    reveal(order);
    let m = order();
    lemma_sub_mod_noop(v, 1, m);
    lemma_small_mod_of(v, r, m);
    lemma_sub_mod_noop(r, 1, m);
    lemma_mul_mod_noop(v - 1, inverse, m);
    lemma_mul_mod_noop(r - 1, inverse, m);
    assert(is_inverse(v - 1, inverse, m));
}

// ---------------------------------------------------------------------------------------------
// Consequences
// ---------------------------------------------------------------------------------------------

/// An inverse, modulo the group order, of an integer that is not congruent to zero.
pub proof fn inverse_of(a: int) -> (b: int)
    requires
        !cong(a, 0),
    ensures
        cong(a * b, 1),
{
    lemma_order_is_prime();
    lemma_residue(a);
    lemma_residue(0);
    lemma_residue(1);
    lemma_order_bounds();
    let r = residue(a);
    assert(is_unit(r, order()));
    let b = choose|b: int| is_inverse(r, b, order());
    lemma_cong_residue(a);
    lemma_cong_ops(a, r, b, b);
    b
}

/// A factor that is not congruent to zero can be cancelled.
pub proof fn lemma_cancel_factor(a: int, x: int, y: int)
    requires
        !cong(a, 0),
        cong(x * a, y * a),
    ensures
        cong(x, y),
{
    let b = inverse_of(a);
    lemma_cong_ops(x * a, y * a, b, b);
    lemma_cong_ops(x, x, a * b, 1);
    lemma_cong_ops(y, y, a * b, 1);
    assert((x * a) * b == x * (a * b)) by (nonlinear_arith);
    assert((y * a) * b == y * (a * b)) by (nonlinear_arith);
}

/// A product is congruent to zero only if one of its factors is.
pub proof fn lemma_zero_product(a: int, b: int)
    requires
        cong(a * b, 0),
    ensures
        cong(a, 0) || cong(b, 0),
{
    if !cong(a, 0) {
        assert(b * a == a * b && 0 * a == 0) by (nonlinear_arith);
        lemma_cancel_factor(a, b, 0);
    }
}

} // verus!
