//! Divisibility, inverses modulo an integer, and a criterion under which every residue but zero
//! has an inverse.

use vstd::arithmetic::div_mod::{
    lemma_div_multiples_vanish, lemma_fundamental_div_mod, lemma_mod_bound,
    lemma_mod_multiples_basic, lemma_mod_multiples_vanish, lemma_mod_twice, lemma_mul_mod_noop,
    lemma_small_mod, lemma_sub_mod_noop,
};
use vstd::arithmetic::mul::lemma_mul_is_associative;
use vstd::arithmetic::power::{
    lemma1_pow, lemma_pow_adds, lemma_pow_mod_noop, lemma_pow_multiplies, pow,
};
use vstd::prelude::*;
use vstd::set_lib::{lemma_int_range, lemma_len_subset, set_int_range};

verus! {

// ---------------------------------------------------------------------------------------------
// Divisibility
// ---------------------------------------------------------------------------------------------

/// `n` is `d` times `k`.
pub open spec fn is_multiple(n: int, d: int, k: int) -> bool {
    n == d * k
}

/// `d` divides `n`.
pub open spec fn divides(d: int, n: int) -> bool {
    exists|k: int| is_multiple(n, d, k)
}

/// Divisibility is a remainder of zero.
pub proof fn lemma_divides_mod(d: int, n: int)
    requires
        d > 0,
    ensures
        divides(d, n) <==> n % d == 0,
{
    if divides(d, n) {
        let k = choose|k: int| is_multiple(n, d, k);
        lemma_mod_multiples_basic(k, d);
        assert(k * d == d * k) by (nonlinear_arith);
    }
    if n % d == 0 {
        lemma_fundamental_div_mod(n, d);
        assert(is_multiple(n, d, n / d));
    }
}

/// What divides two integers divides their combinations.
pub proof fn lemma_divides_combination(d: int, a: int, b: int, x: int, y: int)
    requires
        divides(d, a),
        divides(d, b),
    ensures
        divides(d, a * x + b * y),
{
    let j = choose|k: int| is_multiple(a, d, k);
    let k = choose|k: int| is_multiple(b, d, k);
    assert((d * j) * x + (d * k) * y == d * (j * x + k * y)) by (nonlinear_arith);
    assert(is_multiple(a * x + b * y, d, j * x + k * y));
}

/// A divisor of a positive integer is not larger than it.
pub proof fn lemma_divides_bound(d: int, n: int)
    requires
        d > 0,
        n > 0,
        divides(d, n),
    ensures
        d <= n,
{
    let k = choose|k: int| is_multiple(n, d, k);
    assert(k > 0) by (nonlinear_arith)
        requires
            n == d * k,
            n > 0,
            d > 0,
    ;
    assert(d <= d * k) by (nonlinear_arith)
        requires
            k > 0,
            d > 0,
    ;
}

/// The greatest common divisor of `a` and `m`, as a combination of the two.
pub proof fn bezout(a: int, m: int) -> (r: (int, int, int))
    requires
        0 <= a,
        0 < m,
    ensures
        r.0 == a * r.1 + m * r.2,
        r.0 > 0,
        divides(r.0, a),
        divides(r.0, m),
    decreases a,
{
    if a == 0 {
        assert(a * 0 + m * 1 == m);
        assert(is_multiple(m, m, 1));
        assert(is_multiple(a, m, 0));
        (m, 0, 1)
    } else {
        lemma_fundamental_div_mod(m, a);
        let q = m / a;
        let (g, x, y) = bezout(m % a, a);
        assert(g == a * (y - q * x) + m * x) by (nonlinear_arith)
            requires
                g == (m % a) * x + a * y,
                m == a * q + m % a,
        ;
        lemma_divides_combination(g, a, m % a, q, 1);
        assert((m % a) * 1 == m % a);
        (g, y - q * x, x)
    }
}

// ---------------------------------------------------------------------------------------------
// Inverses
// ---------------------------------------------------------------------------------------------

/// `b` is an inverse of `a` modulo `m`.
pub open spec fn is_inverse(a: int, b: int, m: int) -> bool {
    (a * b) % m == 1
}

/// `a` has an inverse modulo `m`.
pub open spec fn is_unit(a: int, m: int) -> bool {
    exists|b: int| is_inverse(a, b, m)
}

/// Every residue but zero has an inverse modulo `m`. This holds of the primes and of them only.
pub open spec fn is_prime(m: int) -> bool {
    m > 1 && forall|a: int| 0 < a < m ==> #[trigger] is_unit(a, m)
}

/// What divides both a unit modulo `m` and `m` itself is one.
pub proof fn lemma_unit_coprime(a: int, m: int, d: int)
    requires
        m > 1,
        is_unit(a, m),
        d > 0,
        divides(d, a),
        divides(d, m),
    ensures
        d == 1,
{
    let b = choose|b: int| is_inverse(a, b, m);
    lemma_fundamental_div_mod(a * b, m);
    let k = (a * b) / m;
    lemma_divides_combination(d, a, m, b, -k);
    assert(a * b + m * (-k) == 1) by (nonlinear_arith)
        requires
            a * b == m * k + 1,
    ;
    lemma_divides_bound(d, 1);
}

/// An integer that is not a unit shares a divisor with the modulus.
pub proof fn lemma_common_divisor(a: int, m: int) -> (g: int)
    requires
        m > 1,
        0 < a < m,
        !is_unit(a, m),
    ensures
        1 < g < m,
        divides(g, m),
{
    let (g, x, y) = bezout(a, m);
    if g == 1 {
        lemma_mod_multiples_vanish(-y, 1, m);
        assert(m * (-y) + 1 == a * x) by (nonlinear_arith)
            requires
                1 == a * x + m * y,
        ;
        lemma_small_mod(1, m as nat);
        assert(is_inverse(a, x, m));
        assert(is_unit(a, m));
    }
    lemma_divides_bound(g, a);
    g
}

/// If `m` is not prime, one of its divisors is not above its square root.
pub proof fn lemma_small_divisor(m: int) -> (p: int)
    requires
        m > 1,
        !is_prime(m),
    ensures
        1 < p,
        p * p <= m,
        divides(p, m),
{
    let a = choose|a: int| 0 < a < m && !#[trigger] is_unit(a, m);
    let g = lemma_common_divisor(a, m);
    let k = choose|k: int| is_multiple(m, g, k);
    assert(k > 1) by (nonlinear_arith)
        requires
            m == g * k,
            1 < g < m,
    ;
    assert(k * g == g * k) by (nonlinear_arith);
    assert(is_multiple(m, k, g));
    if g <= k {
        assert(g * g <= g * k) by (nonlinear_arith)
            requires
                0 < g <= k,
        ;
        g
    } else {
        assert(k * k <= g * k) by (nonlinear_arith)
            requires
                0 < k <= g,
        ;
        k
    }
}

/// A prime that divides a product divides one of its factors.
pub proof fn lemma_prime_divides_product(q: int, a: int, b: int)
    requires
        is_prime(q),
        divides(q, a * b),
        !divides(q, a),
    ensures
        divides(q, b),
{
    lemma_divides_mod(q, a);
    let r = a % q;
    lemma_fundamental_div_mod(a, q);
    assert(is_unit(r, q));
    let s = choose|s: int| is_inverse(r, s, q);
    lemma_fundamental_div_mod(r * s, q);
    let (j, k) = (a / q, (r * s) / q);
    // b == b * (r * s) - q * (b * k), and b * r == a * b - q * (j * b)
    let ab = a * b;
    let t = choose|t: int| is_multiple(ab, q, t);
    assert(b == q * (t * s - j * b * s - b * k)) by (nonlinear_arith)
        requires
            a == q * j + r,
            r * s == q * k + 1,
            a * b == q * t,
    {
        assert(b * (r * s) == b * (q * k + 1));
        assert(b * (q * k + 1) == q * (b * k) + b);
        assert(b * (r * s) == (b * r) * s);
        assert(b * r == a * b - q * j * b);
        assert((q * t - q * j * b) * s == q * (t * s - j * b * s));
    }
    assert(is_multiple(b, q, t * s - j * b * s - b * k));
}

// ---------------------------------------------------------------------------------------------
// Products of primes
// ---------------------------------------------------------------------------------------------

/// The product of a sequence of integers.
pub open spec fn product(qs: Seq<int>) -> int
    decreases qs.len(),
{
    if qs.len() == 0 {
        1
    } else {
        qs[0] * product(qs.drop_first())
    }
}

/// Any divisor of a product of primes, but for one, has one of the primes as a divisor.
pub proof fn lemma_prime_factor(d: int, qs: Seq<int>) -> (i: int)
    requires
        d > 1,
        divides(d, product(qs)),
        forall|i: int| 0 <= i < qs.len() ==> is_prime(#[trigger] qs[i]),
    ensures
        0 <= i < qs.len(),
        divides(qs[i], d),
    decreases qs.len(),
{
    if qs.len() == 0 {
        lemma_divides_bound(d, 1);
        0
    } else {
        let q = qs[0];
        let rest = qs.drop_first();
        if divides(q, d) {
            0
        } else {
            let n = product(qs);
            let k = choose|k: int| is_multiple(n, d, k);
            assert(is_multiple(d * k, q, product(rest)));
            lemma_prime_divides_product(q, d, k);
            let j = choose|j: int| is_multiple(k, q, j);
            let p = product(rest);
            assert(p == d * j) by (nonlinear_arith)
                requires
                    q > 1,
                    q * p == d * k,
                    k == q * j,
            {
                assert(q * p == q * (d * j));
            }
            assert(is_multiple(p, d, j));
            assert forall|i: int| 0 <= i < rest.len() implies is_prime(#[trigger] rest[i]) by {
                assert(rest[i] == qs[i + 1]);
            }
            let i = lemma_prime_factor(d, rest);
            assert(rest[i] == qs[i + 1]);
            i + 1
        }
    }
}

/// The product of `n` equal factors is a power.
pub proof fn lemma_product_repeat(q: int, n: nat)
    ensures
        product(Seq::new(n, |i: int| q)) == pow(q, n),
    decreases n,
{
    reveal(pow);
    let qs = Seq::new(n, |i: int| q);
    if n > 0 {
        assert(qs.drop_first() =~= Seq::new((n - 1) as nat, |i: int| q));
        lemma_product_repeat(q, (n - 1) as nat);
    }
}

/// The product of a concatenation.
pub proof fn lemma_product_concat(a: Seq<int>, b: Seq<int>)
    ensures
        product(a + b) == product(a) * product(b),
    decreases a.len(),
{
    if a.len() == 0 {
        assert(a + b =~= b);
    } else {
        assert((a + b).drop_first() =~= a.drop_first() + b);
        lemma_product_concat(a.drop_first(), b);
        lemma_mul_is_associative(a[0], product(a.drop_first()), product(b));
    }
}

// ---------------------------------------------------------------------------------------------
// Powers
// ---------------------------------------------------------------------------------------------

/// The exponents `n` with `a` to the power of `n` congruent to one are closed under multiples.
pub proof fn lemma_power_one_multiple(a: int, g: nat, k: nat, p: int)
    requires
        p > 1,
        pow(a, g) % p == 1,
    ensures
        pow(a, g * k) % p == 1,
{
    lemma_pow_multiplies(a, g, k);
    lemma_pow_mod_noop(pow(a, g), k, p);
    lemma1_pow(k);
    lemma_small_mod(1, p as nat);
}

/// If two exponents give one, so does a common divisor of them.
pub proof fn lemma_power_one_gcd(a: int, x: nat, y: nat, p: int) -> (g: nat)
    requires
        p > 1,
        y > 0,
        pow(a, x) % p == 1,
        pow(a, y) % p == 1,
    ensures
        g > 0,
        divides(g as int, x as int),
        divides(g as int, y as int),
        pow(a, g) % p == 1,
    decreases y,
{
    lemma_fundamental_div_mod(x as int, y as int);
    let (q, r) = ((x / y) as nat, (x % y) as nat);
    if r == 0 {
        assert(is_multiple(x as int, y as int, q as int));
        assert(is_multiple(y as int, y as int, 1));
        y
    } else {
        assert(y * q >= 0) by (nonlinear_arith);
        lemma_pow_adds(a, (y * q) as nat, r);
        lemma_power_one_multiple(a, y, q, p);
        lemma_mul_mod_noop(pow(a, (y * q) as nat), pow(a, r), p);
        assert(1 * (pow(a, r) % p) == pow(a, r) % p);
        lemma_mod_twice(pow(a, r), p);
        assert(pow(a, r) % p == 1);
        let g = lemma_power_one_gcd(a, y, r, p);
        lemma_divides_combination(g as int, y as int, r as int, q as int, 1);
        g
    }
}

/// Powers below the order of `a` are distinct modulo `p`: here the order is `f`, a product of
/// primes, no proper part of which gives one.
pub proof fn lemma_powers_distinct(a: int, qs: Seq<int>, p: int, i: nat, j: nat)
    requires
        p > 1,
        forall|k: int| 0 <= k < qs.len() ==> is_prime(#[trigger] qs[k]),
        product(qs) > 0,
        pow(a, product(qs) as nat) % p == 1,
        forall|k: int|
            0 <= k < qs.len() ==> pow(a, (product(qs) / #[trigger] qs[k]) as nat) % p != 1,
        i < j < product(qs),
    ensures
        pow(a, i) % p != pow(a, j) % p,
{
    let f = product(qs) as nat;
    if pow(a, i) % p == pow(a, j) % p {
        // multiplying by the power with exponent f - i leaves one and a power below f
        let (k, rest) = ((j - i) as nat, (f - i) as nat);
        lemma_pow_adds(a, i, rest);
        lemma_pow_adds(a, j, rest);
        lemma_pow_adds(a, k, f);
        lemma_mul_mod_noop(pow(a, i), pow(a, rest), p);
        lemma_mul_mod_noop(pow(a, j), pow(a, rest), p);
        lemma_mul_mod_noop(pow(a, k), pow(a, f), p);
        assert((pow(a, k) % p) * 1 == pow(a, k) % p);
        lemma_mod_twice(pow(a, k), p);
        assert(pow(a, k) % p == 1);
        let g = lemma_power_one_gcd(a, k, f, p);
        lemma_divides_bound(g as int, k as int);
        let d = choose|d: int| is_multiple(f as int, g as int, d);
        assert(d > 1) by (nonlinear_arith)
            requires
                f == g * d,
                0 < g < f,
        ;
        assert(d * g == g * d) by (nonlinear_arith);
        assert(is_multiple(f as int, d, g as int));
        let n = lemma_prime_factor(d, qs);
        let q = qs[n];
        let e = choose|e: int| is_multiple(d, q, e);
        assert(e > 0) by (nonlinear_arith)
            requires
                d == q * e,
                d > 1,
                q > 1,
        ;
        assert(f == q * (g * e)) by (nonlinear_arith)
            requires
                f == g * d,
                d == q * e,
        ;
        assert(g * e >= 0) by (nonlinear_arith)
            requires
                g > 0,
                e > 0,
        ;
        lemma_div_multiples_vanish(g * e, q);
        lemma_power_one_multiple(a, g, e as nat, p);
    }
}

/// A sequence without repetitions of residues modulo `p` is not longer than `p`.
pub proof fn lemma_pigeonhole(s: Seq<int>, p: int)
    requires
        p > 0,
        s.no_duplicates(),
        forall|i: int| 0 <= i < s.len() ==> 0 <= #[trigger] s[i] < p,
    ensures
        s.len() <= p,
{
    s.unique_seq_to_set();
    lemma_int_range(0, p);
    let range = set_int_range(0, p);
    assert forall|x: int| s.to_set().contains(x) implies range.contains(x) by {
        assert(s.contains(x));
    }
    assert(s.to_set().subset_of(range));
    lemma_len_subset(s.to_set(), range);
}

/// Pocklington's criterion: if `a` has order `f` modulo every divisor of `m`, where `f` is a
/// product of known primes above the square root of `m`, then `m` is prime.
pub proof fn lemma_pocklington(m: int, a: int, qs: Seq<int>)
    requires
        m > 1,
        forall|k: int| 0 <= k < qs.len() ==> is_prime(#[trigger] qs[k]),
        product(qs) > 0,
        product(qs) * product(qs) > m,
        pow(a, product(qs) as nat) % m == 1,
        forall|k: int|
            0 <= k < qs.len() ==> is_unit(
                pow(a, (product(qs) / #[trigger] qs[k]) as nat) - 1,
                m,
            ),
    ensures
        is_prime(m),
{
    let f = product(qs) as nat;
    if !is_prime(m) {
        let p = lemma_small_divisor(m);
        let c = choose|c: int| is_multiple(m, p, c);
        lemma_mod_of_divisor(pow(a, f), m, p, c);
        lemma_small_mod(1, p as nat);
        assert forall|k: int| 0 <= k < qs.len() implies pow(
            a,
            (product(qs) / #[trigger] qs[k]) as nat,
        ) % p != 1 by {
            let v = pow(a, (product(qs) / qs[k]) as nat);
            if v % p == 1 {
                lemma_sub_mod_noop(v, 1, p);
                lemma_small_mod(0, p as nat);
                lemma_divides_mod(p, v - 1);
                lemma_unit_coprime(v - 1, m, p);
            }
        }
        let powers = Seq::new(f, |i: int| pow(a, i as nat) % p);
        assert forall|i: int, j: int| 0 <= i < j < powers.len() implies powers[i] != powers[j] by {
            lemma_powers_distinct(a, qs, p, i as nat, j as nat);
        }
        assert(powers.no_duplicates());
        assert forall|i: int| 0 <= i < powers.len() implies 0 <= #[trigger] powers[i] < p by {
            lemma_mod_bound(pow(a, i as nat), p);
        }
        lemma_pigeonhole(powers, p);
        assert(f * f <= p * p) by (nonlinear_arith)
            requires
                0 <= f <= p,
        ;
    }
}

/// A residue modulo `m` determines the residue modulo a divisor of `m`.
pub proof fn lemma_mod_of_divisor(x: int, m: int, p: int, c: int)
    requires
        p > 0,
        m > 0,
        m == p * c,
    ensures
        x % p == (x % m) % p,
{
    lemma_fundamental_div_mod(x, m);
    let k = x / m;
    assert(m * k == p * (c * k)) by (nonlinear_arith)
        requires
            m == p * c,
    ;
    lemma_mod_multiples_vanish(c * k, x % m, p);
}

} // verus!
