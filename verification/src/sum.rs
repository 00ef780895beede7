//! Finite sums, and the numbers and combinations that they denote.
use crate::copy_circuit::id_value;
use crate::copy_event::NumberOrHash;
use crate::field::{le_value, modulus};
use crate::less_than::{byte_of, bytes_value};
use crate::rlc::{accumulate, rlc};
use vstd::arithmetic::div_mod::lemma_div_denominator;
use vstd::arithmetic::power::{lemma_pow0, lemma_pow1, lemma_pow_adds, lemma_pow_positive, pow};
use vstd::prelude::*;

verus! {

/// The sum of `f(0)`, `f(1)` and so on, `n` terms in all.
pub open spec fn sum(f: spec_fn(int) -> int, n: int) -> int
    decreases n,
{
    if n <= 0 {
        0
    } else {
        sum(f, n - 1) + f(n - 1)
    }
}

/// Sums of equal terms are equal.
pub proof fn lemma_sum_same(f: spec_fn(int) -> int, g: spec_fn(int) -> int, n: int)
    requires
        forall|i: int| 0 <= i < n ==> #[trigger] f(i) == g(i),
    ensures
        sum(f, n) == sum(g, n),
    decreases n,
{
    if n > 0 {
        lemma_sum_same(f, g, n - 1);
        assert(f(n - 1) == g(n - 1));
    }
}

/// A factor moves into a sum.
pub proof fn lemma_sum_scaled(f: spec_fn(int) -> int, g: spec_fn(int) -> int, c: int, n: int)
    requires
        forall|i: int| 0 <= i < n ==> #[trigger] g(i) == c * f(i),
    ensures
        sum(g, n) == c * sum(f, n),
    decreases n,
{
    if n > 0 {
        lemma_sum_scaled(f, g, c, n - 1);
        assert(g(n - 1) == c * f(n - 1));
        assert(c * (sum(f, n - 1) + f(n - 1)) == c * sum(f, n - 1) + c * f(n - 1))
            by (nonlinear_arith);
    } else {
        assert(c * 0 == 0) by (nonlinear_arith);
    }
}

/// The first term of a sum, and the others.
pub proof fn lemma_sum_first(f: spec_fn(int) -> int, g: spec_fn(int) -> int, n: int)
    requires
        n > 0,
        forall|i: int| 0 <= i < n - 1 ==> #[trigger] g(i) == f(i + 1),
    ensures
        sum(f, n) == f(0) + sum(g, n - 1),
    decreases n,
{
    if n > 1 {
        lemma_sum_first(f, g, n - 1);
        assert(g(n - 2) == f(n - 1));
    } else {
        assert(sum(f, 0) == 0);
        assert(sum(g, 0) == 0);
    }
}

/// One more factor of a power.
pub proof fn lemma_pow_next(b: int, e: int)
    requires
        e >= 0,
    ensures
        pow(b, (e + 1) as nat) == b * pow(b, e as nat),
        pow(b, (e + 1) as nat) == pow(b, e as nat) * b,
{
    lemma_pow_adds(b, 1, e as nat);
    lemma_pow1(b);
    assert(b * pow(b, e as nat) == pow(b, e as nat) * b) by (nonlinear_arith);
}

/// A combination of bytes is the sum of the bytes, each times the power of the
/// challenge for its place.
pub proof fn law_combination_is_sum_of_powers(bytes: Seq<u8>, randomness: int)
    ensures
        rlc(bytes, randomness) == sum(
            |i: int| bytes[i] * pow(randomness, i as nat),
            bytes.len() as int,
        ),
    decreases bytes.len(),
{
    let n = bytes.len() as int;
    let f = |i: int| bytes[i] * pow(randomness, i as nat);
    if n > 0 {
        let rest = bytes.skip(1);
        law_combination_is_sum_of_powers(rest, randomness);
        let h = |i: int| rest[i] * pow(randomness, i as nat);
        let g = |i: int| f(i + 1);
        assert forall|i: int| 0 <= i < n - 1 implies #[trigger] g(i) == randomness * h(i) by {
            lemma_pow_next(randomness, i);
            let b = bytes[i + 1] as int;
            let p = pow(randomness, i as nat);
            assert(b * (randomness * p) == randomness * (b * p)) by (nonlinear_arith);
        }
        lemma_sum_scaled(h, g, randomness, n - 1);
        lemma_sum_first(f, g, n);
        lemma_pow0(randomness);
        assert(sum(h, n - 1) == rlc(rest, randomness));
    }
}

/// Bytes that are accumulated add up to the sum of the bytes, each times the
/// power of the challenge for its distance from the last one.
pub proof fn law_accumulation_is_sum_of_powers(bytes: Seq<u8>, randomness: int)
    ensures
        accumulate(bytes, randomness) == sum(
            |i: int| bytes[i] * pow(randomness, (bytes.len() - 1 - i) as nat),
            bytes.len() as int,
        ),
    decreases bytes.len(),
{
    let n = bytes.len() as int;
    let f = |i: int| bytes[i] * pow(randomness, (bytes.len() - 1 - i) as nat);
    if n > 0 {
        let rest = bytes.drop_last();
        law_accumulation_is_sum_of_powers(rest, randomness);
        let h = |i: int| rest[i] * pow(randomness, (rest.len() - 1 - i) as nat);
        assert forall|i: int| 0 <= i < n - 1 implies #[trigger] f(i) == randomness * h(i) by {
            lemma_pow_next(randomness, n - 2 - i);
            let b = bytes[i] as int;
            let p = pow(randomness, (n - 2 - i) as nat);
            assert(b * (randomness * p) == randomness * (b * p)) by (nonlinear_arith);
        }
        lemma_sum_scaled(h, f, randomness, n - 1);
        lemma_pow0(randomness);
        let before = accumulate(rest, randomness);
        assert(sum(h, n - 1) == before);
        assert(randomness * before == before * randomness) by (nonlinear_arith);
        assert(f(n - 1) == bytes[n - 1]);
    }
}

/// The number that stands for an identity: a number stands for itself, and a
/// hash for the sum of its 32 bytes, the last one first, each times the power
/// of the challenge for its place, in the field.
pub proof fn law_identity_value(v: NumberOrHash, randomness: int)
    ensures
        match v {
            NumberOrHash::Number(n) => id_value(v, randomness) == n,
            NumberOrHash::Hash(h) => id_value(v, randomness) == sum(
                |i: int| h@[31 - i] * pow(randomness, i as nat),
                32,
            ) % modulus(),
        },
{
    match v {
        NumberOrHash::Number(_) => {},
        NumberOrHash::Hash(h) => {
            let bytes = h@.reverse();
            law_combination_is_sum_of_powers(bytes, randomness);
            let f = |i: int| bytes[i] * pow(randomness, i as nat);
            let g = |i: int| h@[31 - i] * pow(randomness, i as nat);
            assert forall|i: int| 0 <= i < 32 implies #[trigger] f(i) == g(i) by {}
            lemma_sum_same(f, g, 32);
        },
    }
}

/// Bytes in little-endian order denote the sum of the bytes, each times the
/// power of 256 for its place.
pub proof fn law_little_endian_value(bytes: Seq<u8>)
    ensures
        le_value(bytes) == sum(|i: int| bytes[i] * pow(256, i as nat), bytes.len() as int),
    decreases bytes.len(),
{
    let n = bytes.len() as int;
    let f = |i: int| bytes[i] * pow(256, i as nat);
    if n > 0 {
        let rest = bytes.skip(1);
        law_little_endian_value(rest);
        let h = |i: int| rest[i] * pow(256, i as nat);
        let g = |i: int| f(i + 1);
        assert forall|i: int| 0 <= i < n - 1 implies #[trigger] g(i) == 256 * h(i) by {
            lemma_pow_next(256, i);
            let b = bytes[i + 1] as int;
            let p = pow(256, i as nat);
            assert(b * (256 * p) == 256 * (b * p)) by (nonlinear_arith);
        }
        lemma_sum_scaled(h, g, 256, n - 1);
        lemma_sum_first(f, g, n);
        lemma_pow0(256);
    }
}

/// The cells behind a comparison denote the sum of the cells, each times the
/// power of 256 for its place.
pub proof fn law_bytes_value(bytes: Seq<int>)
    ensures
        bytes_value(bytes) == sum(|i: int| bytes[i] * pow(256, i as nat), bytes.len() as int),
    decreases bytes.len(),
{
    let n = bytes.len() as int;
    let f = |i: int| bytes[i] * pow(256, i as nat);
    if n > 0 {
        let rest = bytes.skip(1);
        law_bytes_value(rest);
        let h = |i: int| rest[i] * pow(256, i as nat);
        let g = |i: int| f(i + 1);
        assert forall|i: int| 0 <= i < n - 1 implies #[trigger] g(i) == 256 * h(i) by {
            lemma_pow_next(256, i);
            let b = bytes[i + 1];
            let p = pow(256, i as nat);
            assert(b * (256 * p) == 256 * (b * p)) by (nonlinear_arith);
        }
        lemma_sum_scaled(h, g, 256, n - 1);
        lemma_sum_first(f, g, n);
        lemma_pow0(256);
        assert(bytes[0] * 1 == bytes[0]);
    }
}

/// Byte `i` of a number is what is left of it at that power of 256.
pub proof fn law_byte_of_number(n: int, i: int)
    requires
        n >= 0,
        i >= 0,
    ensures
        byte_of(n, i) == (n / pow(256, i as nat)) % 256,
    decreases i,
{
    if i == 0 {
        lemma_pow0(256);
    } else {
        law_byte_of_number(n / 256, i - 1);
        lemma_pow_next(256, i - 1);
        lemma_pow_positive(256, (i - 1) as nat);
        lemma_div_denominator(n, 256, pow(256, (i - 1) as nat));
    }
}

} // verus!
