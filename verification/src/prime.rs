//! Prime numbers, and how to tell that a number is one.
use vstd::arithmetic::div_mod::{
    lemma_fundamental_div_mod, lemma_fundamental_div_mod_converse, lemma_mod_bound,
    lemma_mod_multiples_basic, lemma_mod_multiples_vanish, lemma_mul_mod_noop,
    lemma_small_mod,
};
use vstd::arithmetic::mul::lemma_mul_is_commutative;
use vstd::arithmetic::power::{
    lemma1_pow, lemma_pow_adds, lemma_pow_mod_noop, lemma_pow_multiplies, pow,
};
use vstd::prelude::*;
use vstd::set_lib::{lemma_int_range, lemma_len_subset, lemma_map_size, set_int_range};

verus! {

/// Whether a number above one has no divisor but one and itself.
pub open spec fn is_prime(n: int) -> bool {
    &&& n > 1
    &&& forall|d: int| 1 < d < n ==> #[trigger] (n % d) != 0
}

/// Numbers below a prime have inverses.
pub proof fn lemma_inverse(p: int, a: int) -> (u: int)
    requires
        is_prime(p),
        0 < a < p,
    ensures
        (a * u) % p == 1,
    decreases a,
{
    if a == 1 {
        lemma_small_mod(1, p as nat);
        1
    } else {
        let q = p / a;
        let b = p % a;
        lemma_fundamental_div_mod(p, a);
        lemma_mod_bound(p, a);
        let v = lemma_inverse(p, b);
        let u = -q * v;
        // b == p - a * q, so a * (-q * v) == b * v - p * v.
        assert(a * u == b * v + p * (-v)) by (nonlinear_arith)
            requires
                p == a * q + b,
                u == -q * v,
        ;
        lemma_mod_multiples_vanish(-v, b * v, p);
        u
    }
}

/// A prime that divides a product divides one of the factors.
pub proof fn lemma_prime_divides_product(p: int, a: int, b: int)
    requires
        is_prime(p),
        (a * b) % p == 0,
    ensures
        a % p == 0 || b % p == 0,
{
    lemma_mod_bound(a, p);
    if a % p != 0 {
        let u = lemma_inverse(p, a % p);
        // b == (a * u) * b == (a * b) * u == 0.
        lemma_mul_mod_noop(a % p, u, p);
        lemma_mul_mod_noop(a, u, p);
        lemma_small_mod((a % p) as nat, p as nat);
        assert((a * u) % p == 1);
        lemma_mul_mod_noop(a * u, b, p);
        lemma_mul_mod_noop(a * b, u, p);
        assert((a * u) * b == (a * b) * u) by (nonlinear_arith);
        lemma_mod_bound(b, p);
        lemma_small_mod((b % p) as nat, p as nat);
        assert(1 * (b % p) == b % p);
        assert(0 * (u % p) == 0);
    }
}

/// A power of something that leaves one leaves one.
proof fn lemma_power_of_one(a: int, e: nat, m: int)
    requires
        m > 1,
        a % m == 1,
    ensures
        pow(a, e) % m == 1,
{
    lemma_pow_mod_noop(a, e, m);
    lemma1_pow(e);
    lemma_small_mod(1, m as nat);
}

/// A divisor of a modulus sees what the modulus sees.
proof fn lemma_divisor_sees(a: int, n: int, r: int)
    requires
        n > 1,
        r > 1,
        n % r == 0,
        a % n == 1,
    ensures
        a % r == 1,
{
    lemma_fundamental_div_mod(a, n);
    lemma_fundamental_div_mod(n, r);
    assert(a == r * ((n / r) * (a / n)) + 1) by (nonlinear_arith)
        requires
            a == n * (a / n) + 1,
            n == r * (n / r),
    ;
    lemma_fundamental_div_mod_converse(a, r, (n / r) * (a / n), 1);
}

/// Where `b` to the power of `q * c` is one, and to the power of `e` too, for
/// an `e` that the prime `q` does not divide, `b` to the power of `c` is one.
proof fn lemma_order_step(b: int, q: int, c: int, e: int, r: int)
    requires
        r > 1,
        is_prime(q),
        c > 0,
        e > 0,
        e % q != 0,
        pow(b, (q * c) as nat) % r == 1,
        pow(b, e as nat) % r == 1,
    ensures
        pow(b, c as nat) % r == 1,
{
    lemma_mod_bound(e, q);
    let u0 = lemma_inverse(q, e % q);
    let u = u0 % q;
    lemma_mod_bound(u0, q);
    // e * u == 1 + q * v.
    lemma_mul_mod_noop(e, u0, q);
    lemma_mul_mod_noop(e % q, u0, q);
    lemma_small_mod((e % q) as nat, q as nat);
    lemma_mul_mod_noop(e, u, q);
    lemma_small_mod(u as nat, q as nat);
    assert((e * u) % q == 1);
    let v = (e * u) / q;
    lemma_fundamental_div_mod(e * u, q);
    assert(e * u >= 0) by (nonlinear_arith)
        requires
            e > 0,
            u >= 0,
    ;
    assert(v >= 0) by (nonlinear_arith)
        requires
            e * u == q * v + 1,
            e * u >= 0,
            q > 1,
    ;
    assert(q * c > 0 && (q * c) * v >= 0 && u * c >= 0) by (nonlinear_arith)
        requires
            q > 1,
            c > 0,
            v >= 0,
            u >= 0,
    ;
    // b ^ (e * u * c) is one, and so is b ^ (q * c * v).
    lemma_pow_multiplies(b, e as nat, (u * c) as nat);
    lemma_power_of_one(pow(b, e as nat), (u * c) as nat, r);
    lemma_pow_multiplies(b, (q * c) as nat, v as nat);
    lemma_power_of_one(pow(b, (q * c) as nat), v as nat, r);
    assert(e * (u * c) == c + (q * c) * v) by (nonlinear_arith)
        requires
            e * u == q * v + 1,
    ;
    lemma_pow_adds(b, c as nat, ((q * c) * v) as nat);
    let x = pow(b, c as nat);
    let y = pow(b, ((q * c) * v) as nat);
    assert((x * y) % r == 1);
    lemma_mul_mod_noop(x, y, r);
    lemma_mod_bound(x, r);
    lemma_small_mod((x % r) as nat, r as nat);
    assert((x % r) * 1 == x % r);
}

/// A residue and the number it comes from look alike to a divisor.
proof fn lemma_divisor_of_residue(a: int, n: int, r: int)
    requires
        n > 1,
        r > 1,
        n % r == 0,
    ensures
        (a % n) % r == a % r,
{
    lemma_fundamental_div_mod(a, n);
    lemma_fundamental_div_mod(n, r);
    let k = (n / r) * (a / n);
    assert(a == r * k + a % n) by (nonlinear_arith)
        requires
            a == n * (a / n) + a % n,
            n == r * (n / r),
            k == (n / r) * (a / n),
    ;
    lemma_mod_multiples_vanish(k, a % n, r);
}

/// Where `v - 1` has an inverse modulo `n`, no divisor of `n` sees `v` as one.
proof fn lemma_not_one(v: int, s: int, n: int, r: int)
    requires
        n > 1,
        r > 1,
        n % r == 0,
        (s * (v - 1)) % n == 1,
    ensures
        v % r != 1,
{
    lemma_divisor_sees(s * (v - 1), n, r);
    if v % r == 1 {
        lemma_fundamental_div_mod(v, r);
        let k = v / r;
        assert(s * (v - 1) == (s * k) * r) by (nonlinear_arith)
            requires
                v == r * k + 1,
        ;
        lemma_mod_multiples_basic(s * k, r);
    }
}

/// What tells that `n` is prime: a number `b` that has order `qa * qb` modulo
/// every divisor of `n`, where that order is above the root of `n`.
pub open spec fn is_certificate(
    n: int,
    qa: int,
    qb: int,
    b: int,
    va: int,
    vb: int,
    sa: int,
    sb: int,
) -> bool {
    &&& n > 1
    &&& is_prime(qa)
    &&& qb == 1 || is_prime(qb)
    &&& qa != qb
    &&& (qa * qb) * (qa * qb) > n
    &&& pow(b, (qa * qb) as nat) % n == 1
    &&& pow(b, qb as nat) % n == vb
    &&& (sb * (vb - 1)) % n == 1
    &&& qb > 1 ==> pow(b, qa as nat) % n == va
    &&& qb > 1 ==> (sa * (va - 1)) % n == 1
}

/// Modulo a divisor, no power of `b` below its order is one.
proof fn lemma_order(
    n: int,
    qa: int,
    qb: int,
    b: int,
    va: int,
    vb: int,
    sa: int,
    sb: int,
    r: int,
    e: int,
)
    requires
        is_certificate(n, qa, qb, b, va, vb, sa, sb),
        r > 1,
        n % r == 0,
        0 < e < qa * qb,
    ensures
        pow(b, e as nat) % r != 1,
{
    if pow(b, e as nat) % r == 1 {
        lemma_divisor_sees(pow(b, (qa * qb) as nat), n, r);
        if e % qa != 0 {
            lemma_order_step(b, qa, qb, e, r);
            lemma_divisor_of_residue(pow(b, qb as nat), n, r);
            lemma_not_one(vb, sb, n, r);
        } else if qb > 1 && e % qb != 0 {
            lemma_mul_is_commutative(qa, qb);
            lemma_order_step(b, qb, qa, e, r);
            lemma_divisor_of_residue(pow(b, qa as nat), n, r);
            lemma_not_one(va, sa, n, r);
        } else {
            // Both primes divide e, which is below their product.
            let k = e / qa;
            lemma_fundamental_div_mod(e, qa);
            assert(0 < k < qb) by (nonlinear_arith)
                requires
                    e == qa * k,
                    0 < e < qa * qb,
                    qa > 1,
                    qb > 0,
            ;
            lemma_prime_divides_product(qb, qa, k);
            lemma_small_mod(k as nat, qb as nat);
            assert(qa % qb == 0);
            if qb < qa {
                assert(qa % qb != 0);
            } else {
                lemma_small_mod(qa as nat, qb as nat);
            }
        }
    }
}

/// Modulo a divisor, the powers of `b` below its order are different.
proof fn lemma_different_powers(
    n: int,
    qa: int,
    qb: int,
    b: int,
    va: int,
    vb: int,
    sa: int,
    sb: int,
    r: int,
    i: int,
    j: int,
)
    requires
        is_certificate(n, qa, qb, b, va, vb, sa, sb),
        r > 1,
        n % r == 0,
        0 <= i < j < qa * qb,
    ensures
        pow(b, i as nat) % r != pow(b, j as nat) % r,
{
    let f = qa * qb;
    let x = pow(b, i as nat);
    let y = pow(b, j as nat);
    let back = pow(b, (f - i) as nat);
    if x % r == y % r {
        lemma_divisor_sees(pow(b, f as nat), n, r);
        lemma_pow_adds(b, i as nat, (f - i) as nat);
        lemma_pow_adds(b, j as nat, (f - i) as nat);
        lemma_pow_adds(b, f as nat, (j - i) as nat);
        let z = pow(b, (j - i) as nat);
        assert(x * back == pow(b, f as nat));
        assert(y * back == pow(b, f as nat) * z);
        lemma_mul_mod_noop(x, back, r);
        lemma_mul_mod_noop(y, back, r);
        lemma_mul_mod_noop(pow(b, f as nat), z, r);
        lemma_mod_bound(z, r);
        lemma_small_mod((z % r) as nat, r as nat);
        assert(1 * (z % r) == z % r);
        lemma_order(n, qa, qb, b, va, vb, sa, sb, r, j - i);
    }
}

/// The order of `b` is at most the size of a divisor.
proof fn lemma_order_bound(
    n: int,
    qa: int,
    qb: int,
    b: int,
    va: int,
    vb: int,
    sa: int,
    sb: int,
    r: int,
)
    requires
        is_certificate(n, qa, qb, b, va, vb, sa, sb),
        r > 1,
        n % r == 0,
        qa * qb > 0,
    ensures
        qa * qb <= r,
{
    let f = |i: int| pow(b, i as nat) % r;
    let exponents = set_int_range(0, qa * qb);
    let residues = exponents.map(f);
    lemma_int_range(0, qa * qb);
    lemma_int_range(0, r);
    assert forall|i: int, j: int|
        exponents.contains(i) && exponents.contains(j) && #[trigger] f(i) == #[trigger] f(
            j,
        ) implies i == j by {
        if i < j {
            lemma_different_powers(n, qa, qb, b, va, vb, sa, sb, r, i, j);
        } else if j < i {
            lemma_different_powers(n, qa, qb, b, va, vb, sa, sb, r, j, i);
        }
    }
    lemma_map_size(exponents, residues, f);
    assert forall|x: int| residues.contains(x) implies set_int_range(0, r).contains(x) by {
        let i = choose|i: int| exponents.contains(i) && f(i) == x;
        lemma_mod_bound(pow(b, i as nat), r);
    }
    lemma_len_subset(residues, set_int_range(0, r));
}

/// A number with a certificate is prime.
pub proof fn lemma_certified(
    n: int,
    qa: int,
    qb: int,
    b: int,
    va: int,
    vb: int,
    sa: int,
    sb: int,
)
    requires
        is_certificate(n, qa, qb, b, va, vb, sa, sb),
    ensures
        is_prime(n),
{
    assert forall|d: int| 1 < d < n implies #[trigger] (n % d) != 0 by {
        if n % d == 0 {
            let e = n / d;
            lemma_fundamental_div_mod(n, d);
            assert(e > 1) by (nonlinear_arith)
                requires
                    n == d * e,
                    1 < d < n,
            ;
            lemma_mul_is_commutative(d, e);
            lemma_mod_multiples_basic(d, e);
            let r = if d <= e {
                d
            } else {
                e
            };
            assert(r * r <= n) by (nonlinear_arith)
                requires
                    n == d * e,
                    1 < d,
                    1 < e,
                    r <= d,
                    r <= e,
                    r > 1,
            ;
            assert(qa * qb > 0) by (nonlinear_arith)
                requires
                    qa > 1,
                    qb >= 1,
            ;
            lemma_order_bound(n, qa, qb, b, va, vb, sa, sb, r);
            assert((qa * qb) * (qa * qb) <= r * r) by (nonlinear_arith)
                requires
                    0 < qa * qb <= r,
            ;
        }
    }
}

} // verus!
