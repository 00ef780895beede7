//! Equality in the field, between integers.
use crate::field::modulus;
use crate::modulus_prime::lemma_modulus_is_prime;
use crate::prime::lemma_prime_divides_product;
use vstd::arithmetic::div_mod::{lemma_fundamental_div_mod, lemma_mod_multiples_basic};
use vstd::arithmetic::mul::lemma_mul_is_commutative;
use vstd::prelude::*;

verus! {

/// Whether two integers stand for one field element.
pub open spec fn congruent(a: int, b: int) -> bool {
    (a - b) % modulus() == 0
}

/// Whether an integer is the canonical one for its field element.
pub open spec fn in_field(a: int) -> bool {
    0 <= a < modulus()
}

/// A multiple of the modulus vanishes.
pub proof fn lemma_multiple_vanishes(k: int)
    ensures
        (modulus() * k) % modulus() == 0,
{
    lemma_mul_is_commutative(modulus(), k);
    lemma_mod_multiples_basic(k, modulus());
}

/// What vanishes is a multiple of the modulus.
pub proof fn lemma_vanishing_multiple(a: int) -> (k: int)
    requires
        a % modulus() == 0,
    ensures
        a == modulus() * k,
{
    lemma_fundamental_div_mod(a, modulus());
    a / modulus()
}

/// Canonical integers that stand for one field element are equal.
pub proof fn lemma_congruent_in_field(a: int, b: int)
    requires
        in_field(a),
        in_field(b),
        congruent(a, b),
    ensures
        a == b,
{
    lemma_small_value_vanishes(a - b);
}

/// An integer that vanishes in the field and is small is zero.
pub proof fn lemma_small_value_vanishes(a: int)
    requires
        a % modulus() == 0,
        -modulus() < a < modulus(),
    ensures
        a == 0,
{
    let k = lemma_vanishing_multiple(a);
    let m = modulus();
    assert(k == 0) by (nonlinear_arith)
        requires
            a == m * k,
            -m < a < m,
            m > 0,
    ;
}

/// Equality in the field is an equivalence that sums respect.
pub proof fn lemma_congruent_sum(a: int, b: int, c: int, d: int)
    requires
        congruent(a, b),
        congruent(c, d),
    ensures
        congruent(a + c, b + d),
        congruent(a - c, b - d),
        congruent(b, a),
{
    let j = lemma_vanishing_multiple(a - b);
    let k = lemma_vanishing_multiple(c - d);
    let m = modulus();
    assert((a + c) - (b + d) == m * (j + k)) by (nonlinear_arith)
        requires
            a - b == m * j,
            c - d == m * k,
    ;
    assert((a - c) - (b - d) == m * (j - k)) by (nonlinear_arith)
        requires
            a - b == m * j,
            c - d == m * k,
    ;
    assert(b - a == m * (-j)) by (nonlinear_arith)
        requires
            a - b == m * j,
    ;
    lemma_multiple_vanishes(j + k);
    lemma_multiple_vanishes(j - k);
    lemma_multiple_vanishes(-j);
}

/// Equality in the field is respected by products.
pub proof fn lemma_congruent_product(a: int, b: int, c: int)
    requires
        congruent(a, b),
    ensures
        congruent(a * c, b * c),
{
    let j = lemma_vanishing_multiple(a - b);
    let m = modulus();
    assert(a * c - b * c == m * (j * c)) by (nonlinear_arith)
        requires
            a - b == m * j,
    ;
    lemma_multiple_vanishes(j * c);
}

/// A field element whose product with its complement vanishes is a bit.
pub proof fn lemma_boolean(a: int)
    requires
        in_field(a),
        (a * (1 - a)) % modulus() == 0,
    ensures
        a == 0 || a == 1,
{
    lemma_modulus_is_prime();
    lemma_prime_divides_product(modulus(), a, 1 - a);
    if a % modulus() == 0 {
        lemma_small_value_vanishes(a);
    } else {
        lemma_small_value_vanishes(1 - a);
    }
}

} // verus!
