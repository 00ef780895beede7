//! Random linear combinations of bytes.
use crate::field::{modulus, Felt};
use crate::sum::{law_combination_is_sum_of_powers, sum};
use vstd::arithmetic::div_mod::{lemma_add_mod_noop, lemma_mod_twice, lemma_mul_mod_noop};
use vstd::arithmetic::power::pow;
use vstd::prelude::*;

verus! {

/// The polynomial whose coefficients are `bytes`, the constant one first, at
/// `randomness`.
pub open spec fn rlc(bytes: Seq<u8>, randomness: int) -> int
    decreases bytes.len(),
{
    if bytes.len() == 0 {
        0
    } else {
        bytes[0] + randomness * rlc(bytes.skip(1), randomness)
    }
}

/// The same with the constant coefficient last, as it grows byte by byte.
pub open spec fn accumulate(bytes: Seq<u8>, randomness: int) -> int
    decreases bytes.len(),
{
    if bytes.len() == 0 {
        0
    } else {
        accumulate(bytes.drop_last(), randomness) * randomness + bytes.last()
    }
}

/// Accumulating bytes is combining them in reverse.
pub proof fn law_accumulate_is_reversed_rlc(bytes: Seq<u8>, randomness: int)
    ensures
        accumulate(bytes, randomness) == rlc(bytes.reverse(), randomness),
    decreases bytes.len(),
{
    if bytes.len() > 0 {
        law_accumulate_is_reversed_rlc(bytes.drop_last(), randomness);
        assert(bytes.reverse().skip(1) =~= bytes.drop_last().reverse());
        let rest = rlc(bytes.drop_last().reverse(), randomness);
        assert(rest * randomness == randomness * rest) by (nonlinear_arith);
    }
}

/// One step of Horner's rule, with a reduced accumulator.
pub proof fn lemma_horner_step(acc: int, randomness: int, byte: int)
    ensures
        (((acc % modulus()) * randomness) % modulus() + byte) % modulus() == (acc * randomness
            + byte) % modulus(),
{
    let m = modulus();
    lemma_mul_mod_noop(acc, randomness, m);
    lemma_mul_mod_noop(acc % m, randomness, m);
    lemma_mod_twice(acc, m);
    lemma_add_mod_noop(acc * randomness, byte, m);
    lemma_mod_twice(acc * randomness, m);
    lemma_add_mod_noop((acc * randomness) % m, byte, m);
}

/// One step of Horner's rule.
pub fn horner_step(acc: Felt, randomness: Felt, byte: u8) -> (r: Felt)
    ensures
        forall|full: int|
            acc@ == full % modulus() ==> r@ == #[trigger] (full * randomness@ + byte) % modulus(),
{
    let r = acc.mul(randomness).add(Felt::from_u64(byte as u64));
    assert forall|full: int| acc@ == full % modulus() implies r@ == #[trigger] (full * randomness@
        + byte) % modulus() by {
        lemma_horner_step(full, randomness@, byte as int);
    }
    r
}

/// The combination of `bytes` at `randomness`, the constant coefficient first.
pub fn random_linear_combine(bytes: &[u8], randomness: Felt) -> (r: Felt)
    ensures
        r@ == rlc(bytes@, randomness@) % modulus(),
        r@ == sum(|i: int| bytes@[i] * pow(randomness@, i as nat), bytes@.len() as int)
            % modulus(),
{
    proof {
        law_combination_is_sum_of_powers(bytes@, randomness@);
    }
    let mut acc = Felt::from_u64(0);
    let mut i: usize = bytes.len();
    assert(bytes@.skip(i as int) =~= Seq::<u8>::empty());
    while i > 0
        invariant
            0 <= i <= bytes@.len(),
            acc@ == rlc(bytes@.skip(i as int), randomness@) % modulus(),
        decreases i,
    {
        let ghost full = rlc(bytes@.skip(i as int), randomness@);
        i = i - 1;
        acc = horner_step(acc, randomness, bytes[i]);
        proof {
            assert(bytes@.skip(i as int).skip(1) =~= bytes@.skip(i + 1));
            assert(full * randomness@ == randomness@ * full) by (nonlinear_arith);
            assert((full * randomness@ + bytes@[i as int]) % modulus() == acc@);
        }
    }
    assert(bytes@.skip(0) =~= bytes@);
    acc
}

} // verus!
