//! The modulus of the field is prime: a chain of certificates from small primes
//! up to it.
use crate::field::modulus;
use crate::prime::{is_prime, lemma_certified};
use vstd::arithmetic::div_mod::{
    lemma_fundamental_div_mod, lemma_mod_multiples_basic, lemma_mod_twice, lemma_mul_mod_noop,
    lemma_small_mod,
};
use vstd::arithmetic::mul::lemma_mul_is_commutative;
use vstd::arithmetic::power::{
    lemma_pow0, lemma_pow1, lemma_pow_adds, lemma_pow_mod_noop, lemma_pow_multiplies, pow,
};
use vstd::prelude::*;

verus! {

/// A product, reduced.
#[verifier::opaque]
spec fn times(v: int, b: int, n: int) -> int {
    (v * b) % n
}

/// A number to the power of sixteen, times another, reduced.
#[verifier::opaque]
spec fn next(v: int, m: int, n: int) -> int {
    let a = v * v;
    let c = a * a;
    let e = c * c;
    (e * e * m) % n
}

/// A power with an exponent of one hexadecimal digit, reduced.
spec fn small_power(b: int, d: int, n: int) -> int
    decreases d,
{
    if d <= 0 {
        1
    } else {
        times(small_power(b, d - 1, n), b, n)
    }
}

/// A power, reduced: one hexadecimal digit of the exponent after the other.
spec fn power(b: int, e: int, n: int) -> int
    decreases e,
{
    if e < 16 {
        small_power(b, e, n)
    } else {
        next(power(b, e / 16, n), small_power(b, e % 16, n), n)
    }
}

/// One more digit of the exponent.
proof fn lemma_digit(b: int, e: int, d: int, n: int)
    requires
        e > 0,
        0 <= d < 16,
    ensures
        power(b, 16 * e + d, n) == next(power(b, e, n), small_power(b, d, n), n),
{
}

/// The power that is computed is the power.
proof fn lemma_power(b: int, e: int, n: int)
    requires
        n > 1,
        e >= 0,
    ensures
        power(b, e, n) == pow(b, e as nat) % n,
    decreases e,
{
    if e < 16 {
        lemma_small_power(b, e, n);
    } else {
        let h = e / 16;
        let d = e % 16;
        let v = power(b, h, n);
        let m = small_power(b, d, n);
        let x = pow(b, h as nat);
        let y = pow(b, d as nat);
        lemma_power(b, h, n);
        lemma_small_power(b, d, n);
        lemma_pow_multiplies(b, h as nat, 16);
        lemma_pow_adds(b, (16 * h) as nat, d as nat);
        reveal(next);
        assert(pow(b, e as nat) == pow(x, 16) * y);
        lemma_pow_mod_noop(x, 16, n);
        lemma_sixteenth(v);
        lemma_mul_mod_noop(pow(x, 16), y, n);
        lemma_mul_mod_noop(pow(v, 16), m, n);
        lemma_mod_twice(y, n);
    }
}

/// The small power that is computed is the power.
proof fn lemma_small_power(b: int, d: int, n: int)
    requires
        n > 1,
        d >= 0,
    ensures
        small_power(b, d, n) == pow(b, d as nat) % n,
    decreases d,
{
    if d == 0 {
        lemma_pow0(b);
        lemma_small_mod(1, n as nat);
    } else {
        let x = pow(b, (d - 1) as nat);
        lemma_small_power(b, d - 1, n);
        reveal(times);
        lemma_pow_adds(b, (d - 1) as nat, 1);
        lemma_pow1(b);
        lemma_mul_mod_noop(x, b, n);
        lemma_mul_mod_noop(x % n, b, n);
        lemma_mod_twice(x, n);
    }
}

/// Four squarings are a power of sixteen.
proof fn lemma_sixteenth(v: int)
    ensures
        ({
            let a = v * v;
            let c = a * a;
            let e = c * c;
            pow(v, 16) == e * e
        }),
{
    lemma_pow1(v);
    lemma_pow_adds(v, 1, 1);
    lemma_pow_adds(v, 2, 2);
    lemma_pow_adds(v, 4, 4);
    lemma_pow_adds(v, 8, 8);
}

/// A power of a power, computed in two rounds.
proof fn lemma_power_twice(b: int, qa: int, qb: int, n: int)
    requires
        n > 1,
        qa >= 0,
        qb >= 0,
    ensures
        pow(b, (qa * qb) as nat) % n == power(power(b, qa, n), qb, n),
{
    lemma_power(b, qa, n);
    lemma_power(power(b, qa, n), qb, n);
    lemma_pow_multiplies(b, qa as nat, qb as nat);
    lemma_pow_mod_noop(pow(b, qa as nat), qb as nat, n);
}

/// Whether none of the numbers from two to `k` divides `n`.
spec fn undivided(n: int, k: int) -> bool
    decreases k,
{
    k <= 1 || (n % k != 0 && undivided(n, k - 1))
}

proof fn lemma_undivided(n: int, k: int, d: int)
    requires
        undivided(n, k),
        1 < d <= k,
    ensures
        n % d != 0,
    decreases k,
{
    if d < k {
        lemma_undivided(n, k - 1, d);
    }
}

/// A number that nothing up to its root divides is prime.
proof fn lemma_tried(n: int, k: int)
    requires
        n > 1,
        undivided(n, k),
        (k + 1) * (k + 1) > n,
        k >= 1,
    ensures
        is_prime(n),
{
    assert forall|d: int| 1 < d < n implies #[trigger] (n % d) != 0 by {
        if n % d == 0 {
            let e = n / d;
            lemma_fundamental_div_mod(n, d);
            assert(e > 1) by (nonlinear_arith)
                requires
                    n == d * e,
                    1 < d < n,
            ;
            lemma_mul_is_commutative(d, e);
            lemma_mod_multiples_basic(d, e);
            if d <= k {
                lemma_undivided(n, k, d);
            } else if e <= k {
                lemma_undivided(n, k, e);
            } else {
                assert(d * e >= (k + 1) * (k + 1)) by (nonlinear_arith)
                    requires
                        d >= k + 1,
                        e >= k + 1,
                        k >= 1,
                ;
            }
        }
    }
}

/// Nothing up to its root divides 25741.
proof fn lemma_prime_25741()
    ensures
        is_prime(25741),
{
    assert(undivided(25741, 21)) by (nonlinear_arith) {
        reveal_with_fuel(undivided, 22);
    }
    assert(undivided(25741, 41)) by (nonlinear_arith)
        requires
            undivided(25741, 21),
    {
        reveal_with_fuel(undivided, 22);
    }
    assert(undivided(25741, 61)) by (nonlinear_arith)
        requires
            undivided(25741, 41),
    {
        reveal_with_fuel(undivided, 22);
    }
    assert(undivided(25741, 81)) by (nonlinear_arith)
        requires
            undivided(25741, 61),
    {
        reveal_with_fuel(undivided, 22);
    }
    assert(undivided(25741, 101)) by (nonlinear_arith)
        requires
            undivided(25741, 81),
    {
        reveal_with_fuel(undivided, 22);
    }
    assert(undivided(25741, 121)) by (nonlinear_arith)
        requires
            undivided(25741, 101),
    {
        reveal_with_fuel(undivided, 22);
    }
    assert(undivided(25741, 141)) by (nonlinear_arith)
        requires
            undivided(25741, 121),
    {
        reveal_with_fuel(undivided, 22);
    }
    assert(undivided(25741, 160)) by (nonlinear_arith)
        requires
            undivided(25741, 141),
    {
        reveal_with_fuel(undivided, 21);
    }
    lemma_tried(25741, 160);
}

/// A power modulo 772231, one hexadecimal digit of the
/// exponent 25741 after the other.
proof fn lemma_power_1()
    ensures
        power(340734int, 25741int, 772231int) == 1int,
{
    assert(times(1int, 340734int, 772231int) == 340734int) by (nonlinear_arith) {
        reveal(times);
    }
    assert(times(340734int, 340734int, 772231int) == 133523int) by (nonlinear_arith) {
        reveal(times);
    }
    assert(times(133523int, 340734int, 772231int) == 608748int) by (nonlinear_arith) {
        reveal(times);
    }
    assert(times(608748int, 340734int, 772231int) == 666663int) by (nonlinear_arith) {
        reveal(times);
    }
    assert(times(666663int, 340734int, 772231int) == 685299int) by (nonlinear_arith) {
        reveal(times);
    }
    assert(times(685299int, 340734int, 772231int) == 548610int) by (nonlinear_arith) {
        reveal(times);
    }
    assert(times(548610int, 340734int, 772231int) == 754956int) by (nonlinear_arith) {
        reveal(times);
    }
    assert(times(754956int, 340734int, 772231int) == 537063int) by (nonlinear_arith) {
        reveal(times);
    }
    assert(times(537063int, 340734int, 772231int) == 44172int) by (nonlinear_arith) {
        reveal(times);
    }
    assert(times(44172int, 340734int, 772231int) == 120058int) by (nonlinear_arith) {
        reveal(times);
    }
    assert(times(120058int, 340734int, 772231int) == 449809int) by (nonlinear_arith) {
        reveal(times);
    }
    assert(times(449809int, 340734int, 772231int) == 533236int) by (nonlinear_arith) {
        reveal(times);
    }
    assert(times(533236int, 340734int, 772231int) == 353313int) by (nonlinear_arith) {
        reveal(times);
    }
    assert(next(548610int, 666663int, 772231int) == 311379int) by (nonlinear_arith) {
        reveal(next);
    }
    assert(next(311379int, 537063int, 772231int) == 605601int) by (nonlinear_arith) {
        reveal(next);
    }
    assert(next(605601int, 353313int, 772231int) == 1int) by (nonlinear_arith) {
        reveal(next);
    }
    reveal_with_fuel(small_power, 14);
    lemma_digit(340734int, 0x6int, 4, 772231int);
    lemma_digit(340734int, 0x64int, 8, 772231int);
    lemma_digit(340734int, 0x648int, 13, 772231int);
}

/// A certificate for 772231.
proof fn lemma_prime_772231()
    ensures
        is_prime(772231int),
{
    let n = 772231int;
    let qa = 25741int;
    let b = 340734int;
    let sb = 734600int;
    lemma_prime_25741();
    lemma_power_1();
    lemma_power(b, qa, n);
    assert((734600int * (340734int - 1)) % 772231int == 1) by (nonlinear_arith);
    assert(25741int * 25741int > 772231int) by (nonlinear_arith);
    lemma_pow1(b);
    lemma_small_mod(b as nat, n as nat);
    lemma_certified(n, qa, 1, b, 0, b, 0, sb);
}

/// Nothing up to its root divides 509.
proof fn lemma_prime_509()
    ensures
        is_prime(509),
{
    assert(undivided(509, 21)) by (nonlinear_arith) {
        reveal_with_fuel(undivided, 22);
    }
    assert(undivided(509, 22)) by (nonlinear_arith)
        requires
            undivided(509, 21),
    {
        reveal_with_fuel(undivided, 3);
    }
    lemma_tried(509, 22);
}

/// A power modulo 325086459374267, one hexadecimal digit of the
/// exponent 772231 after the other.
proof fn lemma_power_2()
    ensures
        power(0xb02901cf875int, 772231int, 0x127aa16eeaabbint) == 0x75c1192b07c9int,
{
    assert(times(1int, 0xb02901cf875int, 0x127aa16eeaabbint) == 0xb02901cf875int) by (nonlinear_arith) {
        reveal(times);
    }
    assert(times(0xb02901cf875int, 0xb02901cf875int, 0x127aa16eeaabbint) == 0xf2fb607bfc8cint) by (nonlinear_arith) {
        reveal(times);
    }
    assert(times(0xf2fb607bfc8cint, 0xb02901cf875int, 0x127aa16eeaabbint) == 0x63360e80fe99int) by (nonlinear_arith) {
        reveal(times);
    }
    assert(times(0x63360e80fe99int, 0xb02901cf875int, 0x127aa16eeaabbint) == 0xda23b2cb024aint) by (nonlinear_arith) {
        reveal(times);
    }
    assert(times(0xda23b2cb024aint, 0xb02901cf875int, 0x127aa16eeaabbint) == 0x7c0e25af8b84int) by (nonlinear_arith) {
        reveal(times);
    }
    assert(times(0x7c0e25af8b84int, 0xb02901cf875int, 0x127aa16eeaabbint) == 0x358d4f56f4fint) by (nonlinear_arith) {
        reveal(times);
    }
    assert(times(0x358d4f56f4fint, 0xb02901cf875int, 0x127aa16eeaabbint) == 0xc249d1281017int) by (nonlinear_arith) {
        reveal(times);
    }
    assert(times(0xc249d1281017int, 0xb02901cf875int, 0x127aa16eeaabbint) == 0x7d5e26b10ca7int) by (nonlinear_arith) {
        reveal(times);
    }
    assert(times(0x7d5e26b10ca7int, 0xb02901cf875int, 0x127aa16eeaabbint) == 0x1b4e010428afint) by (nonlinear_arith) {
        reveal(times);
    }
    assert(times(0x1b4e010428afint, 0xb02901cf875int, 0x127aa16eeaabbint) == 0xc2a23f911e67int) by (nonlinear_arith) {
        reveal(times);
    }
    assert(times(0xc2a23f911e67int, 0xb02901cf875int, 0x127aa16eeaabbint) == 0x3d8a40ef5bb0int) by (nonlinear_arith) {
        reveal(times);
    }
    assert(times(0x3d8a40ef5bb0int, 0xb02901cf875int, 0x127aa16eeaabbint) == 0x232db0cb9432int) by (nonlinear_arith) {
        reveal(times);
    }
    assert(next(0x3d8a40ef5bb0int, 0x232db0cb9432int, 0x127aa16eeaabbint) == 0xb088cf68d608int) by (nonlinear_arith) {
        reveal(next);
    }
    assert(next(0xb088cf68d608int, 0x7d5e26b10ca7int, 0x127aa16eeaabbint) == 0xba8e1575fb79int) by (nonlinear_arith) {
        reveal(next);
    }
    assert(next(0xba8e1575fb79int, 0x7d5e26b10ca7int, 0x127aa16eeaabbint) == 0x526d12b76b46int) by (nonlinear_arith) {
        reveal(next);
    }
    assert(next(0x526d12b76b46int, 0xc249d1281017int, 0x127aa16eeaabbint) == 0x75c1192b07c9int) by (nonlinear_arith) {
        reveal(next);
    }
    reveal_with_fuel(small_power, 13);
    lemma_digit(0xb02901cf875int, 0xbint, 12, 0x127aa16eeaabbint);
    lemma_digit(0xb02901cf875int, 0xbcint, 8, 0x127aa16eeaabbint);
    lemma_digit(0xb02901cf875int, 0xbc8int, 8, 0x127aa16eeaabbint);
    lemma_digit(0xb02901cf875int, 0xbc88int, 7, 0x127aa16eeaabbint);
}

/// A power modulo 325086459374267, one hexadecimal digit of the
/// exponent 509 after the other.
proof fn lemma_power_3()
    ensures
        power(0xb02901cf875int, 509int, 0x127aa16eeaabbint) == 0x8e0b83230477int,
{
    assert(times(1int, 0xb02901cf875int, 0x127aa16eeaabbint) == 0xb02901cf875int) by (nonlinear_arith) {
        reveal(times);
    }
    assert(times(0xb02901cf875int, 0xb02901cf875int, 0x127aa16eeaabbint) == 0xf2fb607bfc8cint) by (nonlinear_arith) {
        reveal(times);
    }
    assert(times(0xf2fb607bfc8cint, 0xb02901cf875int, 0x127aa16eeaabbint) == 0x63360e80fe99int) by (nonlinear_arith) {
        reveal(times);
    }
    assert(times(0x63360e80fe99int, 0xb02901cf875int, 0x127aa16eeaabbint) == 0xda23b2cb024aint) by (nonlinear_arith) {
        reveal(times);
    }
    assert(times(0xda23b2cb024aint, 0xb02901cf875int, 0x127aa16eeaabbint) == 0x7c0e25af8b84int) by (nonlinear_arith) {
        reveal(times);
    }
    assert(times(0x7c0e25af8b84int, 0xb02901cf875int, 0x127aa16eeaabbint) == 0x358d4f56f4fint) by (nonlinear_arith) {
        reveal(times);
    }
    assert(times(0x358d4f56f4fint, 0xb02901cf875int, 0x127aa16eeaabbint) == 0xc249d1281017int) by (nonlinear_arith) {
        reveal(times);
    }
    assert(times(0xc249d1281017int, 0xb02901cf875int, 0x127aa16eeaabbint) == 0x7d5e26b10ca7int) by (nonlinear_arith) {
        reveal(times);
    }
    assert(times(0x7d5e26b10ca7int, 0xb02901cf875int, 0x127aa16eeaabbint) == 0x1b4e010428afint) by (nonlinear_arith) {
        reveal(times);
    }
    assert(times(0x1b4e010428afint, 0xb02901cf875int, 0x127aa16eeaabbint) == 0xc2a23f911e67int) by (nonlinear_arith) {
        reveal(times);
    }
    assert(times(0xc2a23f911e67int, 0xb02901cf875int, 0x127aa16eeaabbint) == 0x3d8a40ef5bb0int) by (nonlinear_arith) {
        reveal(times);
    }
    assert(times(0x3d8a40ef5bb0int, 0xb02901cf875int, 0x127aa16eeaabbint) == 0x232db0cb9432int) by (nonlinear_arith) {
        reveal(times);
    }
    assert(times(0x232db0cb9432int, 0xb02901cf875int, 0x127aa16eeaabbint) == 0x274102c22e3dint) by (nonlinear_arith) {
        reveal(times);
    }
    assert(times(0x274102c22e3dint, 0xb02901cf875int, 0x127aa16eeaabbint) == 0xd3812f063039int) by (nonlinear_arith) {
        reveal(times);
    }
    assert(times(0xd3812f063039int, 0xb02901cf875int, 0x127aa16eeaabbint) == 0xe57679c1f67dint) by (nonlinear_arith) {
        reveal(times);
    }
    assert(next(0xb02901cf875int, 0xe57679c1f67dint, 0x127aa16eeaabbint) == 0x817d477eab1bint) by (nonlinear_arith) {
        reveal(next);
    }
    assert(next(0x817d477eab1bint, 0x274102c22e3dint, 0x127aa16eeaabbint) == 0x8e0b83230477int) by (nonlinear_arith) {
        reveal(next);
    }
    reveal_with_fuel(small_power, 16);
    lemma_digit(0xb02901cf875int, 0x1int, 15, 0x127aa16eeaabbint);
    lemma_digit(0xb02901cf875int, 0x1fint, 13, 0x127aa16eeaabbint);
}

/// A power modulo 325086459374267, one hexadecimal digit of the
/// exponent 509 after the other.
proof fn lemma_power_4()
    ensures
        power(0x75c1192b07c9int, 509int, 0x127aa16eeaabbint) == 1int,
{
    assert(times(1int, 0x75c1192b07c9int, 0x127aa16eeaabbint) == 0x75c1192b07c9int) by (nonlinear_arith) {
        reveal(times);
    }
    assert(times(0x75c1192b07c9int, 0x75c1192b07c9int, 0x127aa16eeaabbint) == 0x687462961243int) by (nonlinear_arith) {
        reveal(times);
    }
    assert(times(0x687462961243int, 0x75c1192b07c9int, 0x127aa16eeaabbint) == 0x13c687d3c616int) by (nonlinear_arith) {
        reveal(times);
    }
    assert(times(0x13c687d3c616int, 0x75c1192b07c9int, 0x127aa16eeaabbint) == 0x8e563582a23fint) by (nonlinear_arith) {
        reveal(times);
    }
    assert(times(0x8e563582a23fint, 0x75c1192b07c9int, 0x127aa16eeaabbint) == 0x8259ac93cac8int) by (nonlinear_arith) {
        reveal(times);
    }
    assert(times(0x8259ac93cac8int, 0x75c1192b07c9int, 0x127aa16eeaabbint) == 0x76938ab9f023int) by (nonlinear_arith) {
        reveal(times);
    }
    assert(times(0x76938ab9f023int, 0x75c1192b07c9int, 0x127aa16eeaabbint) == 0x5701958fb1edint) by (nonlinear_arith) {
        reveal(times);
    }
    assert(times(0x5701958fb1edint, 0x75c1192b07c9int, 0x127aa16eeaabbint) == 0xf24d8763e880int) by (nonlinear_arith) {
        reveal(times);
    }
    assert(times(0xf24d8763e880int, 0x75c1192b07c9int, 0x127aa16eeaabbint) == 0x83ca34729318int) by (nonlinear_arith) {
        reveal(times);
    }
    assert(times(0x83ca34729318int, 0x75c1192b07c9int, 0x127aa16eeaabbint) == 0x31a280bd2683int) by (nonlinear_arith) {
        reveal(times);
    }
    assert(times(0x31a280bd2683int, 0x75c1192b07c9int, 0x127aa16eeaabbint) == 0x360a2b2ab44int) by (nonlinear_arith) {
        reveal(times);
    }
    assert(times(0x360a2b2ab44int, 0x75c1192b07c9int, 0x127aa16eeaabbint) == 0x48749a371993int) by (nonlinear_arith) {
        reveal(times);
    }
    assert(times(0x48749a371993int, 0x75c1192b07c9int, 0x127aa16eeaabbint) == 0xf3c7c4536b19int) by (nonlinear_arith) {
        reveal(times);
    }
    assert(times(0xf3c7c4536b19int, 0x75c1192b07c9int, 0x127aa16eeaabbint) == 0x693bbac3ca06int) by (nonlinear_arith) {
        reveal(times);
    }
    assert(times(0x693bbac3ca06int, 0x75c1192b07c9int, 0x127aa16eeaabbint) == 0x2cf93d7e98dint) by (nonlinear_arith) {
        reveal(times);
    }
    assert(next(0x75c1192b07c9int, 0x2cf93d7e98dint, 0x127aa16eeaabbint) == 0xb068779caa8fint) by (nonlinear_arith) {
        reveal(next);
    }
    assert(next(0xb068779caa8fint, 0xf3c7c4536b19int, 0x127aa16eeaabbint) == 1int) by (nonlinear_arith) {
        reveal(next);
    }
    reveal_with_fuel(small_power, 16);
    lemma_digit(0x75c1192b07c9int, 0x1int, 15, 0x127aa16eeaabbint);
    lemma_digit(0x75c1192b07c9int, 0x1fint, 13, 0x127aa16eeaabbint);
}

/// A certificate for 325086459374267.
proof fn lemma_prime_127aa16eeaabb()
    ensures
        is_prime(0x127aa16eeaabbint),
{
    let n = 0x127aa16eeaabbint;
    let qa = 772231int;
    let b = 0xb02901cf875int;
    let sb = 0xbe1a5e86ce16int;
    let qb = 509int;
    let va = 0x75c1192b07c9int;
    let vb = 0x8e0b83230477int;
    let sa = 0x690cc1734b03int;
    lemma_prime_772231();
    lemma_prime_509();
    lemma_power_2();
    lemma_power_3();
    lemma_power_4();
    lemma_power(b, qa, n);
    lemma_power(b, qb, n);
    lemma_power_twice(b, qa, qb, n);
    assert((0x690cc1734b03int * (0x75c1192b07c9int - 1)) % 0x127aa16eeaabbint == 1) by (nonlinear_arith);
    assert((0xbe1a5e86ce16int * (0x8e0b83230477int - 1)) % 0x127aa16eeaabbint == 1) by (nonlinear_arith);
    assert((772231int * 509int) * (772231int * 509int) > 0x127aa16eeaabbint) by (nonlinear_arith);
    lemma_certified(n, qa, qb, b, va, vb, sa, sb);
}

/// Nothing up to its root divides 977.
proof fn lemma_prime_977()
    ensures
        is_prime(977),
{
    assert(undivided(977, 21)) by (nonlinear_arith) {
        reveal_with_fuel(undivided, 22);
    }
    assert(undivided(977, 31)) by (nonlinear_arith)
        requires
            undivided(977, 21),
    {
        reveal_with_fuel(undivided, 12);
    }
    lemma_tried(977, 31);
}

/// Nothing up to its root divides 19.
proof fn lemma_prime_19()
    ensures
        is_prime(19),
{
    assert(undivided(19, 4)) by (nonlinear_arith) {
        reveal_with_fuel(undivided, 5);
    }
    lemma_tried(19, 4);
}

/// A power modulo 6942563, one hexadecimal digit of the
/// exponent 977 after the other.
proof fn lemma_power_5()
    ensures
        power(1075611int, 977int, 6942563int) == 1534969int,
{
    assert(times(1int, 1075611int, 6942563int) == 1075611int) by (nonlinear_arith) {
        reveal(times);
    }
    assert(times(1075611int, 1075611int, 6942563int) == 2554749int) by (nonlinear_arith) {
        reveal(times);
    }
    assert(times(2554749int, 1075611int, 6942563int) == 1093298int) by (nonlinear_arith) {
        reveal(times);
    }
    assert(times(1093298int, 1075611int, 6942563int) == 4263886int) by (nonlinear_arith) {
        reveal(times);
    }
    assert(times(4263886int, 1075611int, 6942563int) == 4738857int) by (nonlinear_arith) {
        reveal(times);
    }
    assert(times(4738857int, 1075611int, 6942563int) == 6387657int) by (nonlinear_arith) {
        reveal(times);
    }
    assert(times(6387657int, 1075611int, 6942563int) == 3028670int) by (nonlinear_arith) {
        reveal(times);
    }
    assert(times(3028670int, 1075611int, 6942563int) == 4988317int) by (nonlinear_arith) {
        reveal(times);
    }
    assert(times(4988317int, 1075611int, 6942563int) == 5190330int) by (nonlinear_arith) {
        reveal(times);
    }
    assert(times(5190330int, 1075611int, 6942563int) == 4258499int) by (nonlinear_arith) {
        reveal(times);
    }
    assert(times(4258499int, 1075611int, 6942563int) == 519942int) by (nonlinear_arith) {
        reveal(times);
    }
    assert(times(519942int, 1075611int, 6942563int) == 4114660int) by (nonlinear_arith) {
        reveal(times);
    }
    assert(times(4114660int, 1075611int, 6942563int) == 725768int) by (nonlinear_arith) {
        reveal(times);
    }
    assert(next(1093298int, 725768int, 6942563int) == 5313028int) by (nonlinear_arith) {
        reveal(next);
    }
    assert(next(5313028int, 1075611int, 6942563int) == 1534969int) by (nonlinear_arith) {
        reveal(next);
    }
    reveal_with_fuel(small_power, 14);
    lemma_digit(1075611int, 0x3int, 13, 6942563int);
    lemma_digit(1075611int, 0x3dint, 1, 6942563int);
}

/// A power modulo 6942563, one hexadecimal digit of the
/// exponent 19 after the other.
proof fn lemma_power_6()
    ensures
        power(1075611int, 19int, 6942563int) == 5061822int,
{
    assert(times(1int, 1075611int, 6942563int) == 1075611int) by (nonlinear_arith) {
        reveal(times);
    }
    assert(times(1075611int, 1075611int, 6942563int) == 2554749int) by (nonlinear_arith) {
        reveal(times);
    }
    assert(times(2554749int, 1075611int, 6942563int) == 1093298int) by (nonlinear_arith) {
        reveal(times);
    }
    assert(next(1075611int, 1093298int, 6942563int) == 5061822int) by (nonlinear_arith) {
        reveal(next);
    }
    reveal_with_fuel(small_power, 4);
    lemma_digit(1075611int, 0x1int, 3, 6942563int);
}

/// A power modulo 6942563, one hexadecimal digit of the
/// exponent 19 after the other.
proof fn lemma_power_7()
    ensures
        power(1534969int, 19int, 6942563int) == 1int,
{
    assert(times(1int, 1534969int, 6942563int) == 1534969int) by (nonlinear_arith) {
        reveal(times);
    }
    assert(times(1534969int, 1534969int, 6942563int) == 4455399int) by (nonlinear_arith) {
        reveal(times);
    }
    assert(times(4455399int, 1534969int, 6942563int) == 2698347int) by (nonlinear_arith) {
        reveal(times);
    }
    assert(next(1534969int, 2698347int, 6942563int) == 1int) by (nonlinear_arith) {
        reveal(next);
    }
    reveal_with_fuel(small_power, 4);
    lemma_digit(1534969int, 0x1int, 3, 6942563int);
}

/// A certificate for 6942563.
proof fn lemma_prime_6942563()
    ensures
        is_prime(6942563int),
{
    let n = 6942563int;
    let qa = 977int;
    let b = 1075611int;
    let sb = 1778843int;
    let qb = 19int;
    let va = 1534969int;
    let vb = 5061822int;
    let sa = 2039071int;
    lemma_prime_977();
    lemma_prime_19();
    lemma_power_5();
    lemma_power_6();
    lemma_power_7();
    lemma_power(b, qa, n);
    lemma_power(b, qb, n);
    lemma_power_twice(b, qa, qb, n);
    assert((2039071int * (1534969int - 1)) % 6942563int == 1) by (nonlinear_arith);
    assert((1778843int * (5061822int - 1)) % 6942563int == 1) by (nonlinear_arith);
    assert((977int * 19int) * (977int * 19int) > 6942563int) by (nonlinear_arith);
    lemma_certified(n, qa, qb, b, va, vb, sa, sb);
}

/// A power modulo 41655379, one hexadecimal digit of the
/// exponent 6942563 after the other.
proof fn lemma_power_8()
    ensures
        power(64int, 6942563int, 0x27b9c53int) == 1int,
{
    assert(times(1int, 64int, 0x27b9c53int) == 64int) by (nonlinear_arith) {
        reveal(times);
    }
    assert(times(64int, 64int, 0x27b9c53int) == 4096int) by (nonlinear_arith) {
        reveal(times);
    }
    assert(times(4096int, 64int, 0x27b9c53int) == 262144int) by (nonlinear_arith) {
        reveal(times);
    }
    assert(times(262144int, 64int, 0x27b9c53int) == 0x1000000int) by (nonlinear_arith) {
        reveal(times);
    }
    assert(times(0x1000000int, 64int, 0x27b9c53int) == 0x1edbbe5int) by (nonlinear_arith) {
        reveal(times);
    }
    assert(times(0x1edbbe5int, 64int, 0x27b9c53int) == 0x1c60d5dint) by (nonlinear_arith) {
        reveal(times);
    }
    assert(times(0x1c60d5dint, 64int, 0x27b9c53int) == 0x1c8dca9int) by (nonlinear_arith) {
        reveal(times);
    }
    assert(times(0x1c8dca9int, 64int, 0x27b9c53int) == 70486int) by (nonlinear_arith) {
        reveal(times);
    }
    assert(times(70486int, 64int, 0x27b9c53int) == 4511104int) by (nonlinear_arith) {
        reveal(times);
    }
    assert(times(4511104int, 64int, 0x27b9c53int) == 0x24fb60eint) by (nonlinear_arith) {
        reveal(times);
    }
    assert(times(0x24fb60eint, 64int, 0x27b9c53int) == 0x1707c5fint) by (nonlinear_arith) {
        reveal(times);
    }
    assert(times(0x1707c5fint, 64int, 0x27b9c53int) == 4292545int) by (nonlinear_arith) {
        reveal(times);
    }
    assert(times(4292545int, 64int, 0x27b9c53int) == 0x17a464eint) by (nonlinear_arith) {
        reveal(times);
    }
    assert(times(0x17a464eint, 64int, 0x27b9c53int) == 3694382int) by (nonlinear_arith) {
        reveal(times);
    }
    assert(times(3694382int, 64int, 0x27b9c53int) == 0x1adbde1int) by (nonlinear_arith) {
        reveal(times);
    }
    assert(next(0x1c60d5dint, 4511104int, 0x27b9c53int) == 0x1b1549dint) by (nonlinear_arith) {
        reveal(next);
    }
    assert(next(0x1b1549dint, 3694382int, 0x27b9c53int) == 0x106cf1fint) by (nonlinear_arith) {
        reveal(next);
    }
    assert(next(0x106cf1fint, 0x1adbde1int, 0x27b9c53int) == 2004257int) by (nonlinear_arith) {
        reveal(next);
    }
    assert(next(2004257int, 0x1c60d5dint, 0x27b9c53int) == 0x247eb4dint) by (nonlinear_arith) {
        reveal(next);
    }
    assert(next(0x247eb4dint, 262144int, 0x27b9c53int) == 1int) by (nonlinear_arith) {
        reveal(next);
    }
    reveal_with_fuel(small_power, 16);
    lemma_digit(64int, 0x6int, 9, 0x27b9c53int);
    lemma_digit(64int, 0x69int, 14, 0x27b9c53int);
    lemma_digit(64int, 0x69eint, 15, 0x27b9c53int);
    lemma_digit(64int, 0x69efint, 6, 0x27b9c53int);
    lemma_digit(64int, 0x69ef6int, 3, 0x27b9c53int);
}

/// A certificate for 41655379.
proof fn lemma_prime_27b9c53()
    ensures
        is_prime(0x27b9c53int),
{
    let n = 0x27b9c53int;
    let qa = 6942563int;
    let b = 64int;
    let sb = 1322393int;
    lemma_prime_6942563();
    lemma_power_8();
    lemma_power(b, qa, n);
    assert((1322393int * (64int - 1)) % 0x27b9c53int == 1) by (nonlinear_arith);
    assert(6942563int * 6942563int > 0x27b9c53int) by (nonlinear_arith);
    lemma_pow1(b);
    lemma_small_mod(b as nat, n as nat);
    lemma_certified(n, qa, 1, b, 0, b, 0, sb);
}

/// A power modulo 22160661629, one hexadecimal digit of the
/// exponent 41655379 after the other.
proof fn lemma_power_9()
    ensures
        power(0x402309d30int, 0x27b9c53int, 0x528e0dc7dint) == 1int,
{
    assert(times(1int, 0x402309d30int, 0x528e0dc7dint) == 0x402309d30int) by (nonlinear_arith) {
        reveal(times);
    }
    assert(times(0x402309d30int, 0x402309d30int, 0x528e0dc7dint) == 0x1207af508int) by (nonlinear_arith) {
        reveal(times);
    }
    assert(times(0x1207af508int, 0x402309d30int, 0x528e0dc7dint) == 0x499d741eaint) by (nonlinear_arith) {
        reveal(times);
    }
    assert(times(0x499d741eaint, 0x402309d30int, 0x528e0dc7dint) == 0x3ba7b3871int) by (nonlinear_arith) {
        reveal(times);
    }
    assert(times(0x3ba7b3871int, 0x402309d30int, 0x528e0dc7dint) == 0x651defd8int) by (nonlinear_arith) {
        reveal(times);
    }
    assert(times(0x651defd8int, 0x402309d30int, 0x528e0dc7dint) == 0x37ed97852int) by (nonlinear_arith) {
        reveal(times);
    }
    assert(times(0x37ed97852int, 0x402309d30int, 0x528e0dc7dint) == 0x153085287int) by (nonlinear_arith) {
        reveal(times);
    }
    assert(times(0x153085287int, 0x402309d30int, 0x528e0dc7dint) == 0xd9121592int) by (nonlinear_arith) {
        reveal(times);
    }
    assert(times(0xd9121592int, 0x402309d30int, 0x528e0dc7dint) == 0x14299a7a5int) by (nonlinear_arith) {
        reveal(times);
    }
    assert(times(0x14299a7a5int, 0x402309d30int, 0x528e0dc7dint) == 0x40458d8eint) by (nonlinear_arith) {
        reveal(times);
    }
    assert(times(0x40458d8eint, 0x402309d30int, 0x528e0dc7dint) == 0x16dc9dc0dint) by (nonlinear_arith) {
        reveal(times);
    }
    assert(times(0x16dc9dc0dint, 0x402309d30int, 0x528e0dc7dint) == 0x4ecdc3212int) by (nonlinear_arith) {
        reveal(times);
    }
    assert(next(0x1207af508int, 0x153085287int, 0x528e0dc7dint) == 0xd50dd446int) by (nonlinear_arith) {
        reveal(next);
    }
    assert(next(0xd50dd446int, 0x16dc9dc0dint, 0x528e0dc7dint) == 0x1e4d0fde9int) by (nonlinear_arith) {
        reveal(next);
    }
    assert(next(0x1e4d0fde9int, 0x14299a7a5int, 0x528e0dc7dint) == 0x3913278f4int) by (nonlinear_arith) {
        reveal(next);
    }
    assert(next(0x3913278f4int, 0x4ecdc3212int, 0x528e0dc7dint) == 0x4de34a0b3int) by (nonlinear_arith) {
        reveal(next);
    }
    assert(next(0x4de34a0b3int, 0x651defd8int, 0x528e0dc7dint) == 0x4d547e338int) by (nonlinear_arith) {
        reveal(next);
    }
    assert(next(0x4d547e338int, 0x499d741eaint, 0x528e0dc7dint) == 1int) by (nonlinear_arith) {
        reveal(next);
    }
    reveal_with_fuel(small_power, 13);
    lemma_digit(0x402309d30int, 0x2int, 7, 0x528e0dc7dint);
    lemma_digit(0x402309d30int, 0x27int, 11, 0x528e0dc7dint);
    lemma_digit(0x402309d30int, 0x27bint, 9, 0x528e0dc7dint);
    lemma_digit(0x402309d30int, 0x27b9int, 12, 0x528e0dc7dint);
    lemma_digit(0x402309d30int, 0x27b9cint, 5, 0x528e0dc7dint);
    lemma_digit(0x402309d30int, 0x27b9c5int, 3, 0x528e0dc7dint);
}

/// A certificate for 22160661629.
proof fn lemma_prime_528e0dc7d()
    ensures
        is_prime(0x528e0dc7dint),
{
    let n = 0x528e0dc7dint;
    let qa = 0x27b9c53int;
    let b = 0x402309d30int;
    let sb = 0x3e52cd804int;
    lemma_prime_27b9c53();
    lemma_power_9();
    lemma_power(b, qa, n);
    assert((0x3e52cd804int * (0x402309d30int - 1)) % 0x528e0dc7dint == 1) by (nonlinear_arith);
    assert(0x27b9c53int * 0x27b9c53int > 0x528e0dc7dint) by (nonlinear_arith);
    lemma_pow1(b);
    lemma_small_mod(b as nat, n as nat);
    lemma_certified(n, qa, 1, b, 0, b, 0, sb);
}

/// A power modulo 0x674e41aa25559f3f6806ca7324f298d5465d, one hexadecimal digit of the
/// exponent 325086459374267 after the other.
proof fn lemma_power_10()
    ensures
        power(0x3306493093511ba521b11cb7c5bbbc000e7bint, 0x127aa16eeaabbint, 0x674e41aa25559f3f6806ca7324f298d5465dint) == 0x55bb924d6d8f9f031b347bf64472e58fbe3eint,
{
    assert(times(1int, 0x3306493093511ba521b11cb7c5bbbc000e7bint, 0x674e41aa25559f3f6806ca7324f298d5465dint) == 0x3306493093511ba521b11cb7c5bbbc000e7bint) by (nonlinear_arith) {
        reveal(times);
    }
    assert(times(0x3306493093511ba521b11cb7c5bbbc000e7bint, 0x3306493093511ba521b11cb7c5bbbc000e7bint, 0x674e41aa25559f3f6806ca7324f298d5465dint) == 0x370a41f357e9ee677ebf0572519314858c62int) by (nonlinear_arith) {
        reveal(times);
    }
    assert(times(0x370a41f357e9ee677ebf0572519314858c62int, 0x3306493093511ba521b11cb7c5bbbc000e7bint, 0x674e41aa25559f3f6806ca7324f298d5465dint) == 0x36b0c1aace87522e6fe6d222db9b5eeaecb9int) by (nonlinear_arith) {
        reveal(times);
    }
    assert(times(0x36b0c1aace87522e6fe6d222db9b5eeaecb9int, 0x3306493093511ba521b11cb7c5bbbc000e7bint, 0x674e41aa25559f3f6806ca7324f298d5465dint) == 0x37ffee3605a62221b5569f472a45a2e8012fint) by (nonlinear_arith) {
        reveal(times);
    }
    assert(times(0x37ffee3605a62221b5569f472a45a2e8012fint, 0x3306493093511ba521b11cb7c5bbbc000e7bint, 0x674e41aa25559f3f6806ca7324f298d5465dint) == 0x5648e486e671647f90245932df0bfa07c002int) by (nonlinear_arith) {
        reveal(times);
    }
    assert(times(0x5648e486e671647f90245932df0bfa07c002int, 0x3306493093511ba521b11cb7c5bbbc000e7bint, 0x674e41aa25559f3f6806ca7324f298d5465dint) == 0xaa20f6dc6f1afd6313ab1d01243ec2381cdint) by (nonlinear_arith) {
        reveal(times);
    }
    assert(times(0xaa20f6dc6f1afd6313ab1d01243ec2381cdint, 0x3306493093511ba521b11cb7c5bbbc000e7bint, 0x674e41aa25559f3f6806ca7324f298d5465dint) == 0x510d295d1e590fd641261966dd8a9dc0f12cint) by (nonlinear_arith) {
        reveal(times);
    }
    assert(times(0x510d295d1e590fd641261966dd8a9dc0f12cint, 0x3306493093511ba521b11cb7c5bbbc000e7bint, 0x674e41aa25559f3f6806ca7324f298d5465dint) == 0x5541bf3be94c34185ccdb5c2159e3eb875e6int) by (nonlinear_arith) {
        reveal(times);
    }
    assert(times(0x5541bf3be94c34185ccdb5c2159e3eb875e6int, 0x3306493093511ba521b11cb7c5bbbc000e7bint, 0x674e41aa25559f3f6806ca7324f298d5465dint) == 0x5eb84ae60acb1a1f1c6dca735b75b60ae8fbint) by (nonlinear_arith) {
        reveal(times);
    }
    assert(times(0x5eb84ae60acb1a1f1c6dca735b75b60ae8fbint, 0x3306493093511ba521b11cb7c5bbbc000e7bint, 0x674e41aa25559f3f6806ca7324f298d5465dint) == 0x1f5534d8e33fbf4ce410d48c8c454e0d68deint) by (nonlinear_arith) {
        reveal(times);
    }
    assert(times(0x1f5534d8e33fbf4ce410d48c8c454e0d68deint, 0x3306493093511ba521b11cb7c5bbbc000e7bint, 0x674e41aa25559f3f6806ca7324f298d5465dint) == 0x38236d7f500d7d788372d0ecfb3a6e2d69adint) by (nonlinear_arith) {
        reveal(times);
    }
    assert(times(0x38236d7f500d7d788372d0ecfb3a6e2d69adint, 0x3306493093511ba521b11cb7c5bbbc000e7bint, 0x674e41aa25559f3f6806ca7324f298d5465dint) == 0x254e628884edd5d13a556902b94f3791a3a9int) by (nonlinear_arith) {
        reveal(times);
    }
    assert(times(0x254e628884edd5d13a556902b94f3791a3a9int, 0x3306493093511ba521b11cb7c5bbbc000e7bint, 0x674e41aa25559f3f6806ca7324f298d5465dint) == 0x3615e767a0917c7f10bc21c76e3ed2d28645int) by (nonlinear_arith) {
        reveal(times);
    }
    assert(times(0x3615e767a0917c7f10bc21c76e3ed2d28645int, 0x3306493093511ba521b11cb7c5bbbc000e7bint, 0x674e41aa25559f3f6806ca7324f298d5465dint) == 0x3b709d929baa148147afa1037261415d3a09int) by (nonlinear_arith) {
        reveal(times);
    }
    assert(next(0x3306493093511ba521b11cb7c5bbbc000e7bint, 0x370a41f357e9ee677ebf0572519314858c62int, 0x674e41aa25559f3f6806ca7324f298d5465dint) == 0xc1ae6532396c61a0b05a8f911dd0ba80f3int) by (nonlinear_arith) {
        reveal(next);
    }
    assert(next(0xc1ae6532396c61a0b05a8f911dd0ba80f3int, 0x510d295d1e590fd641261966dd8a9dc0f12cint, 0x674e41aa25559f3f6806ca7324f298d5465dint) == 0x19304cedd09838906baadb6dfae39db756b0int) by (nonlinear_arith) {
        reveal(next);
    }
    assert(next(0x19304cedd09838906baadb6dfae39db756b0int, 0x1f5534d8e33fbf4ce410d48c8c454e0d68deint, 0x674e41aa25559f3f6806ca7324f298d5465dint) == 0xaef88f686bb283ef06542c3fda10bd2a36aint) by (nonlinear_arith) {
        reveal(next);
    }
    assert(next(0xaef88f686bb283ef06542c3fda10bd2a36aint, 0x1f5534d8e33fbf4ce410d48c8c454e0d68deint, 0x674e41aa25559f3f6806ca7324f298d5465dint) == 0x2621e52b84f7d3d473ba9897213f8682eb90int) by (nonlinear_arith) {
        reveal(next);
    }
    assert(next(0x2621e52b84f7d3d473ba9897213f8682eb90int, 0x3306493093511ba521b11cb7c5bbbc000e7bint, 0x674e41aa25559f3f6806ca7324f298d5465dint) == 0x23991f50f8734a4656f0165f8570bc674d86int) by (nonlinear_arith) {
        reveal(next);
    }
    assert(next(0x23991f50f8734a4656f0165f8570bc674d86int, 0xaa20f6dc6f1afd6313ab1d01243ec2381cdint, 0x674e41aa25559f3f6806ca7324f298d5465dint) == 0x5fce372e77272288bddabf37745491ec9392int) by (nonlinear_arith) {
        reveal(next);
    }
    assert(next(0x5fce372e77272288bddabf37745491ec9392int, 0x3b709d929baa148147afa1037261415d3a09int, 0x674e41aa25559f3f6806ca7324f298d5465dint) == 0x62bd39f369d9a9a3cab45f3ff9a4fc78407int) by (nonlinear_arith) {
        reveal(next);
    }
    assert(next(0x62bd39f369d9a9a3cab45f3ff9a4fc78407int, 0x3b709d929baa148147afa1037261415d3a09int, 0x674e41aa25559f3f6806ca7324f298d5465dint) == 0x5adcdc7f9c68358bf8290a2e3f63d2773f18int) by (nonlinear_arith) {
        reveal(next);
    }
    assert(next(0x5adcdc7f9c68358bf8290a2e3f63d2773f18int, 0x1f5534d8e33fbf4ce410d48c8c454e0d68deint, 0x674e41aa25559f3f6806ca7324f298d5465dint) == 0x272495cd77a8398c337777d48fc0b7bbd0d2int) by (nonlinear_arith) {
        reveal(next);
    }
    assert(next(0x272495cd77a8398c337777d48fc0b7bbd0d2int, 0x1f5534d8e33fbf4ce410d48c8c454e0d68deint, 0x674e41aa25559f3f6806ca7324f298d5465dint) == 0x4d97acded4b9ffa18650dfdffea2c0cbcc2cint) by (nonlinear_arith) {
        reveal(next);
    }
    assert(next(0x4d97acded4b9ffa18650dfdffea2c0cbcc2cint, 0x38236d7f500d7d788372d0ecfb3a6e2d69adint, 0x674e41aa25559f3f6806ca7324f298d5465dint) == 0x126fce2cf993f7ba9a52f724667288ca0e1dint) by (nonlinear_arith) {
        reveal(next);
    }
    assert(next(0x126fce2cf993f7ba9a52f724667288ca0e1dint, 0x38236d7f500d7d788372d0ecfb3a6e2d69adint, 0x674e41aa25559f3f6806ca7324f298d5465dint) == 0x55bb924d6d8f9f031b347bf64472e58fbe3eint) by (nonlinear_arith) {
        reveal(next);
    }
    reveal_with_fuel(small_power, 15);
    lemma_digit(0x3306493093511ba521b11cb7c5bbbc000e7bint, 0x1int, 2, 0x674e41aa25559f3f6806ca7324f298d5465dint);
    lemma_digit(0x3306493093511ba521b11cb7c5bbbc000e7bint, 0x12int, 7, 0x674e41aa25559f3f6806ca7324f298d5465dint);
    lemma_digit(0x3306493093511ba521b11cb7c5bbbc000e7bint, 0x127int, 10, 0x674e41aa25559f3f6806ca7324f298d5465dint);
    lemma_digit(0x3306493093511ba521b11cb7c5bbbc000e7bint, 0x127aint, 10, 0x674e41aa25559f3f6806ca7324f298d5465dint);
    lemma_digit(0x3306493093511ba521b11cb7c5bbbc000e7bint, 0x127aaint, 1, 0x674e41aa25559f3f6806ca7324f298d5465dint);
    lemma_digit(0x3306493093511ba521b11cb7c5bbbc000e7bint, 0x127aa1int, 6, 0x674e41aa25559f3f6806ca7324f298d5465dint);
    lemma_digit(0x3306493093511ba521b11cb7c5bbbc000e7bint, 0x127aa16int, 14, 0x674e41aa25559f3f6806ca7324f298d5465dint);
    lemma_digit(0x3306493093511ba521b11cb7c5bbbc000e7bint, 0x127aa16eint, 14, 0x674e41aa25559f3f6806ca7324f298d5465dint);
    lemma_digit(0x3306493093511ba521b11cb7c5bbbc000e7bint, 0x127aa16eeint, 10, 0x674e41aa25559f3f6806ca7324f298d5465dint);
    lemma_digit(0x3306493093511ba521b11cb7c5bbbc000e7bint, 0x127aa16eeaint, 10, 0x674e41aa25559f3f6806ca7324f298d5465dint);
    lemma_digit(0x3306493093511ba521b11cb7c5bbbc000e7bint, 0x127aa16eeaaint, 11, 0x674e41aa25559f3f6806ca7324f298d5465dint);
    lemma_digit(0x3306493093511ba521b11cb7c5bbbc000e7bint, 0x127aa16eeaabint, 11, 0x674e41aa25559f3f6806ca7324f298d5465dint);
}

/// A power modulo 0x674e41aa25559f3f6806ca7324f298d5465d, one hexadecimal digit of the
/// exponent 22160661629 after the other.
proof fn lemma_power_11()
    ensures
        power(0x3306493093511ba521b11cb7c5bbbc000e7bint, 0x528e0dc7dint, 0x674e41aa25559f3f6806ca7324f298d5465dint) == 0x1615a4fc9dd1d5260b3068d98852c86a2c65int,
{
    assert(times(1int, 0x3306493093511ba521b11cb7c5bbbc000e7bint, 0x674e41aa25559f3f6806ca7324f298d5465dint) == 0x3306493093511ba521b11cb7c5bbbc000e7bint) by (nonlinear_arith) {
        reveal(times);
    }
    assert(times(0x3306493093511ba521b11cb7c5bbbc000e7bint, 0x3306493093511ba521b11cb7c5bbbc000e7bint, 0x674e41aa25559f3f6806ca7324f298d5465dint) == 0x370a41f357e9ee677ebf0572519314858c62int) by (nonlinear_arith) {
        reveal(times);
    }
    assert(times(0x370a41f357e9ee677ebf0572519314858c62int, 0x3306493093511ba521b11cb7c5bbbc000e7bint, 0x674e41aa25559f3f6806ca7324f298d5465dint) == 0x36b0c1aace87522e6fe6d222db9b5eeaecb9int) by (nonlinear_arith) {
        reveal(times);
    }
    assert(times(0x36b0c1aace87522e6fe6d222db9b5eeaecb9int, 0x3306493093511ba521b11cb7c5bbbc000e7bint, 0x674e41aa25559f3f6806ca7324f298d5465dint) == 0x37ffee3605a62221b5569f472a45a2e8012fint) by (nonlinear_arith) {
        reveal(times);
    }
    assert(times(0x37ffee3605a62221b5569f472a45a2e8012fint, 0x3306493093511ba521b11cb7c5bbbc000e7bint, 0x674e41aa25559f3f6806ca7324f298d5465dint) == 0x5648e486e671647f90245932df0bfa07c002int) by (nonlinear_arith) {
        reveal(times);
    }
    assert(times(0x5648e486e671647f90245932df0bfa07c002int, 0x3306493093511ba521b11cb7c5bbbc000e7bint, 0x674e41aa25559f3f6806ca7324f298d5465dint) == 0xaa20f6dc6f1afd6313ab1d01243ec2381cdint) by (nonlinear_arith) {
        reveal(times);
    }
    assert(times(0xaa20f6dc6f1afd6313ab1d01243ec2381cdint, 0x3306493093511ba521b11cb7c5bbbc000e7bint, 0x674e41aa25559f3f6806ca7324f298d5465dint) == 0x510d295d1e590fd641261966dd8a9dc0f12cint) by (nonlinear_arith) {
        reveal(times);
    }
    assert(times(0x510d295d1e590fd641261966dd8a9dc0f12cint, 0x3306493093511ba521b11cb7c5bbbc000e7bint, 0x674e41aa25559f3f6806ca7324f298d5465dint) == 0x5541bf3be94c34185ccdb5c2159e3eb875e6int) by (nonlinear_arith) {
        reveal(times);
    }
    assert(times(0x5541bf3be94c34185ccdb5c2159e3eb875e6int, 0x3306493093511ba521b11cb7c5bbbc000e7bint, 0x674e41aa25559f3f6806ca7324f298d5465dint) == 0x5eb84ae60acb1a1f1c6dca735b75b60ae8fbint) by (nonlinear_arith) {
        reveal(times);
    }
    assert(times(0x5eb84ae60acb1a1f1c6dca735b75b60ae8fbint, 0x3306493093511ba521b11cb7c5bbbc000e7bint, 0x674e41aa25559f3f6806ca7324f298d5465dint) == 0x1f5534d8e33fbf4ce410d48c8c454e0d68deint) by (nonlinear_arith) {
        reveal(times);
    }
    assert(times(0x1f5534d8e33fbf4ce410d48c8c454e0d68deint, 0x3306493093511ba521b11cb7c5bbbc000e7bint, 0x674e41aa25559f3f6806ca7324f298d5465dint) == 0x38236d7f500d7d788372d0ecfb3a6e2d69adint) by (nonlinear_arith) {
        reveal(times);
    }
    assert(times(0x38236d7f500d7d788372d0ecfb3a6e2d69adint, 0x3306493093511ba521b11cb7c5bbbc000e7bint, 0x674e41aa25559f3f6806ca7324f298d5465dint) == 0x254e628884edd5d13a556902b94f3791a3a9int) by (nonlinear_arith) {
        reveal(times);
    }
    assert(times(0x254e628884edd5d13a556902b94f3791a3a9int, 0x3306493093511ba521b11cb7c5bbbc000e7bint, 0x674e41aa25559f3f6806ca7324f298d5465dint) == 0x3615e767a0917c7f10bc21c76e3ed2d28645int) by (nonlinear_arith) {
        reveal(times);
    }
    assert(times(0x3615e767a0917c7f10bc21c76e3ed2d28645int, 0x3306493093511ba521b11cb7c5bbbc000e7bint, 0x674e41aa25559f3f6806ca7324f298d5465dint) == 0x3b709d929baa148147afa1037261415d3a09int) by (nonlinear_arith) {
        reveal(times);
    }
    assert(next(0x5648e486e671647f90245932df0bfa07c002int, 0x370a41f357e9ee677ebf0572519314858c62int, 0x674e41aa25559f3f6806ca7324f298d5465dint) == 0x54cb309f8770151a429be245710dfbc69b04int) by (nonlinear_arith) {
        reveal(next);
    }
    assert(next(0x54cb309f8770151a429be245710dfbc69b04int, 0x5541bf3be94c34185ccdb5c2159e3eb875e6int, 0x674e41aa25559f3f6806ca7324f298d5465dint) == 0xb030cd2766dd89bc6d5bbbcdb28713e507dint) by (nonlinear_arith) {
        reveal(next);
    }
    assert(next(0xb030cd2766dd89bc6d5bbbcdb28713e507dint, 0x3b709d929baa148147afa1037261415d3a09int, 0x674e41aa25559f3f6806ca7324f298d5465dint) == 0xc3096f43de0a4d5095ec5fd3e864f4fe789int) by (nonlinear_arith) {
        reveal(next);
    }
    assert(next(0xc3096f43de0a4d5095ec5fd3e864f4fe789int, 1int, 0x674e41aa25559f3f6806ca7324f298d5465dint) == 0x3c191d6de2fe2b3114ecdc8855fb9f67704dint) by (nonlinear_arith) {
        reveal(next);
    }
    assert(next(0x3c191d6de2fe2b3114ecdc8855fb9f67704dint, 0x3615e767a0917c7f10bc21c76e3ed2d28645int, 0x674e41aa25559f3f6806ca7324f298d5465dint) == 0x2c162e0351630d05ac95c250d781a831a862int) by (nonlinear_arith) {
        reveal(next);
    }
    assert(next(0x2c162e0351630d05ac95c250d781a831a862int, 0x254e628884edd5d13a556902b94f3791a3a9int, 0x674e41aa25559f3f6806ca7324f298d5465dint) == 0x8776d6739f00365a95f8f04afac73c62c63int) by (nonlinear_arith) {
        reveal(next);
    }
    assert(next(0x8776d6739f00365a95f8f04afac73c62c63int, 0x510d295d1e590fd641261966dd8a9dc0f12cint, 0x674e41aa25559f3f6806ca7324f298d5465dint) == 0x4322f0492e96ddfce65ff603ccb0a663c89dint) by (nonlinear_arith) {
        reveal(next);
    }
    assert(next(0x4322f0492e96ddfce65ff603ccb0a663c89dint, 0x3615e767a0917c7f10bc21c76e3ed2d28645int, 0x674e41aa25559f3f6806ca7324f298d5465dint) == 0x1615a4fc9dd1d5260b3068d98852c86a2c65int) by (nonlinear_arith) {
        reveal(next);
    }
    reveal_with_fuel(small_power, 15);
    lemma_digit(0x3306493093511ba521b11cb7c5bbbc000e7bint, 0x5int, 2, 0x674e41aa25559f3f6806ca7324f298d5465dint);
    lemma_digit(0x3306493093511ba521b11cb7c5bbbc000e7bint, 0x52int, 8, 0x674e41aa25559f3f6806ca7324f298d5465dint);
    lemma_digit(0x3306493093511ba521b11cb7c5bbbc000e7bint, 0x528int, 14, 0x674e41aa25559f3f6806ca7324f298d5465dint);
    lemma_digit(0x3306493093511ba521b11cb7c5bbbc000e7bint, 0x528eint, 0, 0x674e41aa25559f3f6806ca7324f298d5465dint);
    lemma_digit(0x3306493093511ba521b11cb7c5bbbc000e7bint, 0x528e0int, 13, 0x674e41aa25559f3f6806ca7324f298d5465dint);
    lemma_digit(0x3306493093511ba521b11cb7c5bbbc000e7bint, 0x528e0dint, 12, 0x674e41aa25559f3f6806ca7324f298d5465dint);
    lemma_digit(0x3306493093511ba521b11cb7c5bbbc000e7bint, 0x528e0dcint, 7, 0x674e41aa25559f3f6806ca7324f298d5465dint);
    lemma_digit(0x3306493093511ba521b11cb7c5bbbc000e7bint, 0x528e0dc7int, 13, 0x674e41aa25559f3f6806ca7324f298d5465dint);
}

/// A power modulo 0x674e41aa25559f3f6806ca7324f298d5465d, one hexadecimal digit of the
/// exponent 22160661629 after the other.
proof fn lemma_power_12()
    ensures
        power(0x55bb924d6d8f9f031b347bf64472e58fbe3eint, 0x528e0dc7dint, 0x674e41aa25559f3f6806ca7324f298d5465dint) == 1int,
{
    assert(times(1int, 0x55bb924d6d8f9f031b347bf64472e58fbe3eint, 0x674e41aa25559f3f6806ca7324f298d5465dint) == 0x55bb924d6d8f9f031b347bf64472e58fbe3eint) by (nonlinear_arith) {
        reveal(times);
    }
    assert(times(0x55bb924d6d8f9f031b347bf64472e58fbe3eint, 0x55bb924d6d8f9f031b347bf64472e58fbe3eint, 0x674e41aa25559f3f6806ca7324f298d5465dint) == 0x591183ab8ab96a89a34e5da304943d9d2425int) by (nonlinear_arith) {
        reveal(times);
    }
    assert(times(0x591183ab8ab96a89a34e5da304943d9d2425int, 0x55bb924d6d8f9f031b347bf64472e58fbe3eint, 0x674e41aa25559f3f6806ca7324f298d5465dint) == 0x673e83836c427fe2ae081592f058f9e96503int) by (nonlinear_arith) {
        reveal(times);
    }
    assert(times(0x673e83836c427fe2ae081592f058f9e96503int, 0x55bb924d6d8f9f031b347bf64472e58fbe3eint, 0x674e41aa25559f3f6806ca7324f298d5465dint) == 0x41aed9f93f568f8278106f30ebaed539f778int) by (nonlinear_arith) {
        reveal(times);
    }
    assert(times(0x41aed9f93f568f8278106f30ebaed539f778int, 0x55bb924d6d8f9f031b347bf64472e58fbe3eint, 0x674e41aa25559f3f6806ca7324f298d5465dint) == 0x5537b15531d10dda5faa2b62db3c8ad57162int) by (nonlinear_arith) {
        reveal(times);
    }
    assert(times(0x5537b15531d10dda5faa2b62db3c8ad57162int, 0x55bb924d6d8f9f031b347bf64472e58fbe3eint, 0x674e41aa25559f3f6806ca7324f298d5465dint) == 0x48d3bc9556ec3c68af115dd553f99312ca31int) by (nonlinear_arith) {
        reveal(times);
    }
    assert(times(0x48d3bc9556ec3c68af115dd553f99312ca31int, 0x55bb924d6d8f9f031b347bf64472e58fbe3eint, 0x674e41aa25559f3f6806ca7324f298d5465dint) == 0x1ea9f39e1b0ef1dda2c9e844ce3eb773db5aint) by (nonlinear_arith) {
        reveal(times);
    }
    assert(times(0x1ea9f39e1b0ef1dda2c9e844ce3eb773db5aint, 0x55bb924d6d8f9f031b347bf64472e58fbe3eint, 0x674e41aa25559f3f6806ca7324f298d5465dint) == 0x35016e6d3f4c34d6fe6a8518ef6e34b0a522int) by (nonlinear_arith) {
        reveal(times);
    }
    assert(times(0x35016e6d3f4c34d6fe6a8518ef6e34b0a522int, 0x55bb924d6d8f9f031b347bf64472e58fbe3eint, 0x674e41aa25559f3f6806ca7324f298d5465dint) == 0x1b957d967bbcfe62dd637a9fd84e4298cae7int) by (nonlinear_arith) {
        reveal(times);
    }
    assert(times(0x1b957d967bbcfe62dd637a9fd84e4298cae7int, 0x55bb924d6d8f9f031b347bf64472e58fbe3eint, 0x674e41aa25559f3f6806ca7324f298d5465dint) == 0x9bf29139eafa94798ee66910bb1bbe95853int) by (nonlinear_arith) {
        reveal(times);
    }
    assert(times(0x9bf29139eafa94798ee66910bb1bbe95853int, 0x55bb924d6d8f9f031b347bf64472e58fbe3eint, 0x674e41aa25559f3f6806ca7324f298d5465dint) == 0x15c5d2e13655d2ff8205008556891e1a733cint) by (nonlinear_arith) {
        reveal(times);
    }
    assert(times(0x15c5d2e13655d2ff8205008556891e1a733cint, 0x55bb924d6d8f9f031b347bf64472e58fbe3eint, 0x674e41aa25559f3f6806ca7324f298d5465dint) == 0x29909b12e9ddee916f53b1a936e1b21cce48int) by (nonlinear_arith) {
        reveal(times);
    }
    assert(times(0x29909b12e9ddee916f53b1a936e1b21cce48int, 0x55bb924d6d8f9f031b347bf64472e58fbe3eint, 0x674e41aa25559f3f6806ca7324f298d5465dint) == 0x4c88ae642299422cd71260addad3ab87cd29int) by (nonlinear_arith) {
        reveal(times);
    }
    assert(times(0x4c88ae642299422cd71260addad3ab87cd29int, 0x55bb924d6d8f9f031b347bf64472e58fbe3eint, 0x674e41aa25559f3f6806ca7324f298d5465dint) == 0x19fadfb65abd4facc7bf5ef248c9d0c680b4int) by (nonlinear_arith) {
        reveal(times);
    }
    assert(next(0x5537b15531d10dda5faa2b62db3c8ad57162int, 0x591183ab8ab96a89a34e5da304943d9d2425int, 0x674e41aa25559f3f6806ca7324f298d5465dint) == 0x4362e68fbf701070c2f1b7dac6b3c1e88177int) by (nonlinear_arith) {
        reveal(next);
    }
    assert(next(0x4362e68fbf701070c2f1b7dac6b3c1e88177int, 0x35016e6d3f4c34d6fe6a8518ef6e34b0a522int, 0x674e41aa25559f3f6806ca7324f298d5465dint) == 0x1207fa5f8a1787f67e7a4e54e4836e9d017aint) by (nonlinear_arith) {
        reveal(next);
    }
    assert(next(0x1207fa5f8a1787f67e7a4e54e4836e9d017aint, 0x19fadfb65abd4facc7bf5ef248c9d0c680b4int, 0x674e41aa25559f3f6806ca7324f298d5465dint) == 0x507b92e1fb3000ddfb125ba46638fb402fb7int) by (nonlinear_arith) {
        reveal(next);
    }
    assert(next(0x507b92e1fb3000ddfb125ba46638fb402fb7int, 1int, 0x674e41aa25559f3f6806ca7324f298d5465dint) == 0x199dff8b128063f93d5dcff8073d35384167int) by (nonlinear_arith) {
        reveal(next);
    }
    assert(next(0x199dff8b128063f93d5dcff8073d35384167int, 0x4c88ae642299422cd71260addad3ab87cd29int, 0x674e41aa25559f3f6806ca7324f298d5465dint) == 0x5be63bad8eca0143faf2f65a71c65e2db5c6int) by (nonlinear_arith) {
        reveal(next);
    }
    assert(next(0x5be63bad8eca0143faf2f65a71c65e2db5c6int, 0x29909b12e9ddee916f53b1a936e1b21cce48int, 0x674e41aa25559f3f6806ca7324f298d5465dint) == 0x58d8faf60e2b3385d79e63586aee7d1c806int) by (nonlinear_arith) {
        reveal(next);
    }
    assert(next(0x58d8faf60e2b3385d79e63586aee7d1c806int, 0x1ea9f39e1b0ef1dda2c9e844ce3eb773db5aint, 0x674e41aa25559f3f6806ca7324f298d5465dint) == 0x5ee0fc39840668cb052df15cf2c0937e5bf2int) by (nonlinear_arith) {
        reveal(next);
    }
    assert(next(0x5ee0fc39840668cb052df15cf2c0937e5bf2int, 0x4c88ae642299422cd71260addad3ab87cd29int, 0x674e41aa25559f3f6806ca7324f298d5465dint) == 1int) by (nonlinear_arith) {
        reveal(next);
    }
    reveal_with_fuel(small_power, 15);
    lemma_digit(0x55bb924d6d8f9f031b347bf64472e58fbe3eint, 0x5int, 2, 0x674e41aa25559f3f6806ca7324f298d5465dint);
    lemma_digit(0x55bb924d6d8f9f031b347bf64472e58fbe3eint, 0x52int, 8, 0x674e41aa25559f3f6806ca7324f298d5465dint);
    lemma_digit(0x55bb924d6d8f9f031b347bf64472e58fbe3eint, 0x528int, 14, 0x674e41aa25559f3f6806ca7324f298d5465dint);
    lemma_digit(0x55bb924d6d8f9f031b347bf64472e58fbe3eint, 0x528eint, 0, 0x674e41aa25559f3f6806ca7324f298d5465dint);
    lemma_digit(0x55bb924d6d8f9f031b347bf64472e58fbe3eint, 0x528e0int, 13, 0x674e41aa25559f3f6806ca7324f298d5465dint);
    lemma_digit(0x55bb924d6d8f9f031b347bf64472e58fbe3eint, 0x528e0dint, 12, 0x674e41aa25559f3f6806ca7324f298d5465dint);
    lemma_digit(0x55bb924d6d8f9f031b347bf64472e58fbe3eint, 0x528e0dcint, 7, 0x674e41aa25559f3f6806ca7324f298d5465dint);
    lemma_digit(0x55bb924d6d8f9f031b347bf64472e58fbe3eint, 0x528e0dc7int, 13, 0x674e41aa25559f3f6806ca7324f298d5465dint);
}

/// A certificate for 0x674e41aa25559f3f6806ca7324f298d5465d.
proof fn lemma_prime_674e41aa25559f3f6806ca7324f298d5465d()
    ensures
        is_prime(0x674e41aa25559f3f6806ca7324f298d5465dint),
{
    let n = 0x674e41aa25559f3f6806ca7324f298d5465dint;
    let qa = 0x127aa16eeaabbint;
    let b = 0x3306493093511ba521b11cb7c5bbbc000e7bint;
    let sb = 0x356b71f8635bd248c70d2e065392ab87c1fcint;
    let qb = 0x528e0dc7dint;
    let va = 0x55bb924d6d8f9f031b347bf64472e58fbe3eint;
    let vb = 0x1615a4fc9dd1d5260b3068d98852c86a2c65int;
    let sa = 0x4f3b026dd0bce12fbee81d1727fe3a8bc799int;
    lemma_prime_127aa16eeaabb();
    lemma_prime_528e0dc7d();
    lemma_power_10();
    lemma_power_11();
    lemma_power_12();
    lemma_power(b, qa, n);
    lemma_power(b, qb, n);
    lemma_power_twice(b, qa, qb, n);
    assert((0x4f3b026dd0bce12fbee81d1727fe3a8bc799int * (0x55bb924d6d8f9f031b347bf64472e58fbe3eint - 1)) % 0x674e41aa25559f3f6806ca7324f298d5465dint == 1) by (nonlinear_arith);
    assert((0x356b71f8635bd248c70d2e065392ab87c1fcint * (0x1615a4fc9dd1d5260b3068d98852c86a2c65int - 1)) % 0x674e41aa25559f3f6806ca7324f298d5465dint == 1) by (nonlinear_arith);
    assert((0x127aa16eeaabbint * 0x528e0dc7dint) * (0x127aa16eeaabbint * 0x528e0dc7dint) > 0x674e41aa25559f3f6806ca7324f298d5465dint) by (nonlinear_arith);
    lemma_certified(n, qa, qb, b, va, vb, sa, sb);
}

/// A power modulo 0x40000000000000000000000000000000224698fc094cf91b992d30ed00000001, one hexadecimal digit of the
/// exponent 0x674e41aa25559f3f6806ca7324f298d5465d after the other.
proof fn lemma_power_13()
    ensures
        power(0x348cdb83aa5c808a180e82875bf3b391ef293ff1cd5f81d0c402c0be7bf67293int, 0x674e41aa25559f3f6806ca7324f298d5465dint, 0x40000000000000000000000000000000224698fc094cf91b992d30ed00000001int) == 1int,
{
    assert(times(1int, 0x348cdb83aa5c808a180e82875bf3b391ef293ff1cd5f81d0c402c0be7bf67293int, 0x40000000000000000000000000000000224698fc094cf91b992d30ed00000001int) == 0x348cdb83aa5c808a180e82875bf3b391ef293ff1cd5f81d0c402c0be7bf67293int) by (nonlinear_arith) {
        reveal(times);
    }
    assert(times(0x348cdb83aa5c808a180e82875bf3b391ef293ff1cd5f81d0c402c0be7bf67293int, 0x348cdb83aa5c808a180e82875bf3b391ef293ff1cd5f81d0c402c0be7bf67293int, 0x40000000000000000000000000000000224698fc094cf91b992d30ed00000001int) == 0x24751ad996ab0d2b718de76e92fdc5adc81c6ee4f8f18b68947f4aa795adee12int) by (nonlinear_arith) {
        reveal(times);
    }
    assert(times(0x24751ad996ab0d2b718de76e92fdc5adc81c6ee4f8f18b68947f4aa795adee12int, 0x348cdb83aa5c808a180e82875bf3b391ef293ff1cd5f81d0c402c0be7bf67293int, 0x40000000000000000000000000000000224698fc094cf91b992d30ed00000001int) == 0x16e9a3be489db9174e4bb2e9aae2b1723ddd37027de4e1674bea799ab7eac9cdint) by (nonlinear_arith) {
        reveal(times);
    }
    assert(times(0x16e9a3be489db9174e4bb2e9aae2b1723ddd37027de4e1674bea799ab7eac9cdint, 0x348cdb83aa5c808a180e82875bf3b391ef293ff1cd5f81d0c402c0be7bf67293int, 0x40000000000000000000000000000000224698fc094cf91b992d30ed00000001int) == 0x37b9353cc8282cd9ba8bde6d170582e922009ab721514b4d2597a20b8782b7c3int) by (nonlinear_arith) {
        reveal(times);
    }
    assert(times(0x37b9353cc8282cd9ba8bde6d170582e922009ab721514b4d2597a20b8782b7c3int, 0x348cdb83aa5c808a180e82875bf3b391ef293ff1cd5f81d0c402c0be7bf67293int, 0x40000000000000000000000000000000224698fc094cf91b992d30ed00000001int) == 0x358d18a292e837b4b850ed0edfa407c1e828083ea1b99a815636a3f052e7f726int) by (nonlinear_arith) {
        reveal(times);
    }
    assert(times(0x358d18a292e837b4b850ed0edfa407c1e828083ea1b99a815636a3f052e7f726int, 0x348cdb83aa5c808a180e82875bf3b391ef293ff1cd5f81d0c402c0be7bf67293int, 0x40000000000000000000000000000000224698fc094cf91b992d30ed00000001int) == 0x14c2b70c08b4ada28d5d0525a1a80ac1457dcf9542801c6a1f8985444cfcb5deint) by (nonlinear_arith) {
        reveal(times);
    }
    assert(times(0x14c2b70c08b4ada28d5d0525a1a80ac1457dcf9542801c6a1f8985444cfcb5deint, 0x348cdb83aa5c808a180e82875bf3b391ef293ff1cd5f81d0c402c0be7bf67293int, 0x40000000000000000000000000000000224698fc094cf91b992d30ed00000001int) == 0x2a39523b0476877077e2e236b55c12dae9f40c5dc9d6754ec6cd9a1ba1de0cb5int) by (nonlinear_arith) {
        reveal(times);
    }
    assert(times(0x2a39523b0476877077e2e236b55c12dae9f40c5dc9d6754ec6cd9a1ba1de0cb5int, 0x348cdb83aa5c808a180e82875bf3b391ef293ff1cd5f81d0c402c0be7bf67293int, 0x40000000000000000000000000000000224698fc094cf91b992d30ed00000001int) == 0xaf0bdbc08cce04907b749e460ae02fdeb75100d71b9328995ba0311e3461788int) by (nonlinear_arith) {
        reveal(times);
    }
    assert(times(0xaf0bdbc08cce04907b749e460ae02fdeb75100d71b9328995ba0311e3461788int, 0x348cdb83aa5c808a180e82875bf3b391ef293ff1cd5f81d0c402c0be7bf67293int, 0x40000000000000000000000000000000224698fc094cf91b992d30ed00000001int) == 0x2ab7879a3f3fa7c87d38013c8fd7446bb72490cc3ab6d6b250ba035d199aa2d4int) by (nonlinear_arith) {
        reveal(times);
    }
    assert(times(0x2ab7879a3f3fa7c87d38013c8fd7446bb72490cc3ab6d6b250ba035d199aa2d4int, 0x348cdb83aa5c808a180e82875bf3b391ef293ff1cd5f81d0c402c0be7bf67293int, 0x40000000000000000000000000000000224698fc094cf91b992d30ed00000001int) == 0x2d96701a08c2be6df1d4bafba2eb7267db7c5e6a6faea6c11f1d685ff7c0e1c3int) by (nonlinear_arith) {
        reveal(times);
    }
    assert(times(0x2d96701a08c2be6df1d4bafba2eb7267db7c5e6a6faea6c11f1d685ff7c0e1c3int, 0x348cdb83aa5c808a180e82875bf3b391ef293ff1cd5f81d0c402c0be7bf67293int, 0x40000000000000000000000000000000224698fc094cf91b992d30ed00000001int) == 0x26f15337bfdeadb0c0fbbcc667755519d0ff39aab5cbbfd3b4534fb3768560c3int) by (nonlinear_arith) {
        reveal(times);
    }
    assert(times(0x26f15337bfdeadb0c0fbbcc667755519d0ff39aab5cbbfd3b4534fb3768560c3int, 0x348cdb83aa5c808a180e82875bf3b391ef293ff1cd5f81d0c402c0be7bf67293int, 0x40000000000000000000000000000000224698fc094cf91b992d30ed00000001int) == 0xe0a4b5f89d92a409ee1e1d38481b50ad527282f548afa03f41f1940364bf643int) by (nonlinear_arith) {
        reveal(times);
    }
    assert(times(0xe0a4b5f89d92a409ee1e1d38481b50ad527282f548afa03f41f1940364bf643int, 0x348cdb83aa5c808a180e82875bf3b391ef293ff1cd5f81d0c402c0be7bf67293int, 0x40000000000000000000000000000000224698fc094cf91b992d30ed00000001int) == 0x18b176496a0342341fa6178c11e6e0175207d6223d1134f3eed60e17eb090fb2int) by (nonlinear_arith) {
        reveal(times);
    }
    assert(times(0x18b176496a0342341fa6178c11e6e0175207d6223d1134f3eed60e17eb090fb2int, 0x348cdb83aa5c808a180e82875bf3b391ef293ff1cd5f81d0c402c0be7bf67293int, 0x40000000000000000000000000000000224698fc094cf91b992d30ed00000001int) == 0x7e40da6ccd989b796fe2ff4f90efc83268ed7174f424f6e9301afa4d477a2efint) by (nonlinear_arith) {
        reveal(times);
    }
    assert(times(0x7e40da6ccd989b796fe2ff4f90efc83268ed7174f424f6e9301afa4d477a2efint, 0x348cdb83aa5c808a180e82875bf3b391ef293ff1cd5f81d0c402c0be7bf67293int, 0x40000000000000000000000000000000224698fc094cf91b992d30ed00000001int) == 0x13c877271132d23b3b57d38c40da30d45a2432d2c1475d7389ffaf8ac396a66bint) by (nonlinear_arith) {
        reveal(times);
    }
    assert(next(0x14c2b70c08b4ada28d5d0525a1a80ac1457dcf9542801c6a1f8985444cfcb5deint, 0x2a39523b0476877077e2e236b55c12dae9f40c5dc9d6754ec6cd9a1ba1de0cb5int, 0x40000000000000000000000000000000224698fc094cf91b992d30ed00000001int) == 0x2b59b2be1223b40da6e7df8cc148e9fe5bfda3d6246be629bded55a5c325478aint) by (nonlinear_arith) {
        reveal(next);
    }
    assert(next(0x2b59b2be1223b40da6e7df8cc148e9fe5bfda3d6246be629bded55a5c325478aint, 0x37b9353cc8282cd9ba8bde6d170582e922009ab721514b4d2597a20b8782b7c3int, 0x40000000000000000000000000000000224698fc094cf91b992d30ed00000001int) == 0x12e748518fffad6d9e868c40a41753625346b33e9ae0d0bafe7478a9d3ba8272int) by (nonlinear_arith) {
        reveal(next);
    }
    assert(next(0x12e748518fffad6d9e868c40a41753625346b33e9ae0d0bafe7478a9d3ba8272int, 0x7e40da6ccd989b796fe2ff4f90efc83268ed7174f424f6e9301afa4d477a2efint, 0x40000000000000000000000000000000224698fc094cf91b992d30ed00000001int) == 0x379468ca6bb77c41155cf375f7e4e1fbc1179081840c043e10c469af29549464int) by (nonlinear_arith) {
        reveal(next);
    }
    assert(next(0x379468ca6bb77c41155cf375f7e4e1fbc1179081840c043e10c469af29549464int, 0x37b9353cc8282cd9ba8bde6d170582e922009ab721514b4d2597a20b8782b7c3int, 0x40000000000000000000000000000000224698fc094cf91b992d30ed00000001int) == 0x382d90cb6377d6f2d00ee7fc798a71dced4f99f29207018a74fbe968b26f8bdeint) by (nonlinear_arith) {
        reveal(next);
    }
    assert(next(0x382d90cb6377d6f2d00ee7fc798a71dced4f99f29207018a74fbe968b26f8bdeint, 0x348cdb83aa5c808a180e82875bf3b391ef293ff1cd5f81d0c402c0be7bf67293int, 0x40000000000000000000000000000000224698fc094cf91b992d30ed00000001int) == 0x374a8434b15c8c8cd4979526b20941972a118374d9d0a55bf3c679b995607726int) by (nonlinear_arith) {
        reveal(next);
    }
    assert(next(0x374a8434b15c8c8cd4979526b20941972a118374d9d0a55bf3c679b995607726int, 0x2d96701a08c2be6df1d4bafba2eb7267db7c5e6a6faea6c11f1d685ff7c0e1c3int, 0x40000000000000000000000000000000224698fc094cf91b992d30ed00000001int) == 0x2319093e4ece846cde37d0ea4fee6393b303b00dbda1289450daba0f5a3a80f7int) by (nonlinear_arith) {
        reveal(next);
    }
    assert(next(0x2319093e4ece846cde37d0ea4fee6393b303b00dbda1289450daba0f5a3a80f7int, 0x2d96701a08c2be6df1d4bafba2eb7267db7c5e6a6faea6c11f1d685ff7c0e1c3int, 0x40000000000000000000000000000000224698fc094cf91b992d30ed00000001int) == 0x45a47b775b7f5454d18f3fec8aa4ed2901daf423cc7d5d8f2861b5233fa41b6int) by (nonlinear_arith) {
        reveal(next);
    }
    assert(next(0x45a47b775b7f5454d18f3fec8aa4ed2901daf423cc7d5d8f2861b5233fa41b6int, 0x24751ad996ab0d2b718de76e92fdc5adc81c6ee4f8f18b68947f4aa795adee12int, 0x40000000000000000000000000000000224698fc094cf91b992d30ed00000001int) == 0x600b224473fac2fe6237e518e932e6b54d0c186410124771cab00965af9538aint) by (nonlinear_arith) {
        reveal(next);
    }
    assert(next(0x600b224473fac2fe6237e518e932e6b54d0c186410124771cab00965af9538aint, 0x358d18a292e837b4b850ed0edfa407c1e828083ea1b99a815636a3f052e7f726int, 0x40000000000000000000000000000000224698fc094cf91b992d30ed00000001int) == 0x795bb24a687da38dc689f45ab48bb39774952c505dd59b8d9e58cf392a12aeaint) by (nonlinear_arith) {
        reveal(next);
    }
    assert(next(0x795bb24a687da38dc689f45ab48bb39774952c505dd59b8d9e58cf392a12aeaint, 0x358d18a292e837b4b850ed0edfa407c1e828083ea1b99a815636a3f052e7f726int, 0x40000000000000000000000000000000224698fc094cf91b992d30ed00000001int) == 0x2fa4a8a9eadbf767ef2d0f2cb67338e431b79903caeb6e39a67c2ce829f0b787int) by (nonlinear_arith) {
        reveal(next);
    }
    assert(next(0x2fa4a8a9eadbf767ef2d0f2cb67338e431b79903caeb6e39a67c2ce829f0b787int, 0x358d18a292e837b4b850ed0edfa407c1e828083ea1b99a815636a3f052e7f726int, 0x40000000000000000000000000000000224698fc094cf91b992d30ed00000001int) == 0xfe64ad765e4d2d9e4333909397a5cbe2f4292e117d008cf879a861afc5104abint) by (nonlinear_arith) {
        reveal(next);
    }
    assert(next(0xfe64ad765e4d2d9e4333909397a5cbe2f4292e117d008cf879a861afc5104abint, 0x2ab7879a3f3fa7c87d38013c8fd7446bb72490cc3ab6d6b250ba035d199aa2d4int, 0x40000000000000000000000000000000224698fc094cf91b992d30ed00000001int) == 0x3b3904008ec6f268360c1284bcbf0c0d7605f1441e54f9e4b5c05b99963340c4int) by (nonlinear_arith) {
        reveal(next);
    }
    assert(next(0x3b3904008ec6f268360c1284bcbf0c0d7605f1441e54f9e4b5c05b99963340c4int, 0x13c877271132d23b3b57d38c40da30d45a2432d2c1475d7389ffaf8ac396a66bint, 0x40000000000000000000000000000000224698fc094cf91b992d30ed00000001int) == 0xbc10cb6b60a804b436f026a540cd7a5a9d5155a358ca6a8f67d68694d75d8d8int) by (nonlinear_arith) {
        reveal(next);
    }
    assert(next(0xbc10cb6b60a804b436f026a540cd7a5a9d5155a358ca6a8f67d68694d75d8d8int, 0x16e9a3be489db9174e4bb2e9aae2b1723ddd37027de4e1674bea799ab7eac9cdint, 0x40000000000000000000000000000000224698fc094cf91b992d30ed00000001int) == 0x5a6a31ab7c652d16a0a624c38319f09e5ada872ebb349c448158605155b5860int) by (nonlinear_arith) {
        reveal(next);
    }
    assert(next(0x5a6a31ab7c652d16a0a624c38319f09e5ada872ebb349c448158605155b5860int, 0x13c877271132d23b3b57d38c40da30d45a2432d2c1475d7389ffaf8ac396a66bint, 0x40000000000000000000000000000000224698fc094cf91b992d30ed00000001int) == 0x5f43423a09e530eb24da200beaed574566154563054dbed68f9b809223ab91eint) by (nonlinear_arith) {
        reveal(next);
    }
    assert(next(0x5f43423a09e530eb24da200beaed574566154563054dbed68f9b809223ab91eint, 0x14c2b70c08b4ada28d5d0525a1a80ac1457dcf9542801c6a1f8985444cfcb5deint, 0x40000000000000000000000000000000224698fc094cf91b992d30ed00000001int) == 0xc1c904c80e01f06afccaed98be20cb1b44a03943f890a75ae5ccdd91563f307int) by (nonlinear_arith) {
        reveal(next);
    }
    assert(next(0xc1c904c80e01f06afccaed98be20cb1b44a03943f890a75ae5ccdd91563f307int, 0xaf0bdbc08cce04907b749e460ae02fdeb75100d71b9328995ba0311e3461788int, 0x40000000000000000000000000000000224698fc094cf91b992d30ed00000001int) == 0x2ce8b04d5a852f901a55bebd1758c26dacd03f87d5d36471d5d8fd94e8c1fb25int) by (nonlinear_arith) {
        reveal(next);
    }
    assert(next(0x2ce8b04d5a852f901a55bebd1758c26dacd03f87d5d36471d5d8fd94e8c1fb25int, 1int, 0x40000000000000000000000000000000224698fc094cf91b992d30ed00000001int) == 0x347c7c9d90ad532375757aed4e6f288552cd4842441ca06f3a9af0d720400c32int) by (nonlinear_arith) {
        reveal(next);
    }
    assert(next(0x347c7c9d90ad532375757aed4e6f288552cd4842441ca06f3a9af0d720400c32int, 0x14c2b70c08b4ada28d5d0525a1a80ac1457dcf9542801c6a1f8985444cfcb5deint, 0x40000000000000000000000000000000224698fc094cf91b992d30ed00000001int) == 0x571a73a262d310593acdfe8eb9d0a7e062a8fdc65717b94a9f9a0d208dc9a7cint) by (nonlinear_arith) {
        reveal(next);
    }
    assert(next(0x571a73a262d310593acdfe8eb9d0a7e062a8fdc65717b94a9f9a0d208dc9a7cint, 0xe0a4b5f89d92a409ee1e1d38481b50ad527282f548afa03f41f1940364bf643int, 0x40000000000000000000000000000000224698fc094cf91b992d30ed00000001int) == 0x1121714c90b92742235ef1f8d6addfb331c5bf113097aba7c67c69d086b19a3bint) by (nonlinear_arith) {
        reveal(next);
    }
    assert(next(0x1121714c90b92742235ef1f8d6addfb331c5bf113097aba7c67c69d086b19a3bint, 0x2d96701a08c2be6df1d4bafba2eb7267db7c5e6a6faea6c11f1d685ff7c0e1c3int, 0x40000000000000000000000000000000224698fc094cf91b992d30ed00000001int) == 0xbd3c2e364487d848af454f34a12f41da331e029c202cd1c41b8b01dd6314980int) by (nonlinear_arith) {
        reveal(next);
    }
    assert(next(0xbd3c2e364487d848af454f34a12f41da331e029c202cd1c41b8b01dd6314980int, 0x2a39523b0476877077e2e236b55c12dae9f40c5dc9d6754ec6cd9a1ba1de0cb5int, 0x40000000000000000000000000000000224698fc094cf91b992d30ed00000001int) == 0x63e9fae4d93e8b90b804d4b37150bc072c9c0f20a2463c451a9a1b6067d786int) by (nonlinear_arith) {
        reveal(next);
    }
    assert(next(0x63e9fae4d93e8b90b804d4b37150bc072c9c0f20a2463c451a9a1b6067d786int, 0x16e9a3be489db9174e4bb2e9aae2b1723ddd37027de4e1674bea799ab7eac9cdint, 0x40000000000000000000000000000000224698fc094cf91b992d30ed00000001int) == 0x3d02fa90669de6f26fa28a2b9f43fccf9c2e4dab68ec6685e910985d3f3b6af0int) by (nonlinear_arith) {
        reveal(next);
    }
    assert(next(0x3d02fa90669de6f26fa28a2b9f43fccf9c2e4dab68ec6685e910985d3f3b6af0int, 0x24751ad996ab0d2b718de76e92fdc5adc81c6ee4f8f18b68947f4aa795adee12int, 0x40000000000000000000000000000000224698fc094cf91b992d30ed00000001int) == 0x210ec4c63bf9868bc44c745bfc9ef0cec512d4ba3c42268f1d23185bac5d124int) by (nonlinear_arith) {
        reveal(next);
    }
    assert(next(0x210ec4c63bf9868bc44c745bfc9ef0cec512d4ba3c42268f1d23185bac5d124int, 0x37b9353cc8282cd9ba8bde6d170582e922009ab721514b4d2597a20b8782b7c3int, 0x40000000000000000000000000000000224698fc094cf91b992d30ed00000001int) == 0xfff5f0c7c9848aad9e0b036a9e352245f9de361237b420874b951c4877a96ebint) by (nonlinear_arith) {
        reveal(next);
    }
    assert(next(0xfff5f0c7c9848aad9e0b036a9e352245f9de361237b420874b951c4877a96ebint, 0x13c877271132d23b3b57d38c40da30d45a2432d2c1475d7389ffaf8ac396a66bint, 0x40000000000000000000000000000000224698fc094cf91b992d30ed00000001int) == 0xc4de67ab299785f070280267161967745811d3660a8f01b50c344be63f71b3fint) by (nonlinear_arith) {
        reveal(next);
    }
    assert(next(0xc4de67ab299785f070280267161967745811d3660a8f01b50c344be63f71b3fint, 0x24751ad996ab0d2b718de76e92fdc5adc81c6ee4f8f18b68947f4aa795adee12int, 0x40000000000000000000000000000000224698fc094cf91b992d30ed00000001int) == 0x28906637471e92f4cb6bc58e17fa4e94fb9fa249d27c97e43b15eb183fdf0f5aint) by (nonlinear_arith) {
        reveal(next);
    }
    assert(next(0x28906637471e92f4cb6bc58e17fa4e94fb9fa249d27c97e43b15eb183fdf0f5aint, 0x2ab7879a3f3fa7c87d38013c8fd7446bb72490cc3ab6d6b250ba035d199aa2d4int, 0x40000000000000000000000000000000224698fc094cf91b992d30ed00000001int) == 0x137ffeb7b73abe70ceefabddb6e00b416e2d5aae7f3d9c6c1c7d4e36e657edc2int) by (nonlinear_arith) {
        reveal(next);
    }
    assert(next(0x137ffeb7b73abe70ceefabddb6e00b416e2d5aae7f3d9c6c1c7d4e36e657edc2int, 0xaf0bdbc08cce04907b749e460ae02fdeb75100d71b9328995ba0311e3461788int, 0x40000000000000000000000000000000224698fc094cf91b992d30ed00000001int) == 0x177022eaf54c8ac8f7f399c321ec4ca1834918c07313251cdfd75742612584f4int) by (nonlinear_arith) {
        reveal(next);
    }
    assert(next(0x177022eaf54c8ac8f7f399c321ec4ca1834918c07313251cdfd75742612584f4int, 0x18b176496a0342341fa6178c11e6e0175207d6223d1134f3eed60e17eb090fb2int, 0x40000000000000000000000000000000224698fc094cf91b992d30ed00000001int) == 0xc6c44090344560255d6814401a61b385d5c29757e2483e3deb41799c225f5f8int) by (nonlinear_arith) {
        reveal(next);
    }
    assert(next(0xc6c44090344560255d6814401a61b385d5c29757e2483e3deb41799c225f5f8int, 0x358d18a292e837b4b850ed0edfa407c1e828083ea1b99a815636a3f052e7f726int, 0x40000000000000000000000000000000224698fc094cf91b992d30ed00000001int) == 0x302940859da1aece2ddf6c89e7af3d23a9d245c59c4d6e4da81bf9e08def9717int) by (nonlinear_arith) {
        reveal(next);
    }
    assert(next(0x302940859da1aece2ddf6c89e7af3d23a9d245c59c4d6e4da81bf9e08def9717int, 0x37b9353cc8282cd9ba8bde6d170582e922009ab721514b4d2597a20b8782b7c3int, 0x40000000000000000000000000000000224698fc094cf91b992d30ed00000001int) == 0x351380188dec6560606d555195669aa0496c0cd11b4be235b249828d264397ecint) by (nonlinear_arith) {
        reveal(next);
    }
    assert(next(0x351380188dec6560606d555195669aa0496c0cd11b4be235b249828d264397ecint, 0x14c2b70c08b4ada28d5d0525a1a80ac1457dcf9542801c6a1f8985444cfcb5deint, 0x40000000000000000000000000000000224698fc094cf91b992d30ed00000001int) == 0x3bee96f6cef3f893786916ce8e49a276a467e03412068e5755d7d1f1745eb35bint) by (nonlinear_arith) {
        reveal(next);
    }
    assert(next(0x3bee96f6cef3f893786916ce8e49a276a467e03412068e5755d7d1f1745eb35bint, 0x358d18a292e837b4b850ed0edfa407c1e828083ea1b99a815636a3f052e7f726int, 0x40000000000000000000000000000000224698fc094cf91b992d30ed00000001int) == 0xf416815724e7449fda9a1fce4529af89c393989da8e04557a79968c5b9dade5int) by (nonlinear_arith) {
        reveal(next);
    }
    assert(next(0xf416815724e7449fda9a1fce4529af89c393989da8e04557a79968c5b9dade5int, 0x18b176496a0342341fa6178c11e6e0175207d6223d1134f3eed60e17eb090fb2int, 0x40000000000000000000000000000000224698fc094cf91b992d30ed00000001int) == 1int) by (nonlinear_arith) {
        reveal(next);
    }
    reveal_with_fuel(small_power, 16);
    lemma_digit(0x348cdb83aa5c808a180e82875bf3b391ef293ff1cd5f81d0c402c0be7bf67293int, 0x6int, 7, 0x40000000000000000000000000000000224698fc094cf91b992d30ed00000001int);
    lemma_digit(0x348cdb83aa5c808a180e82875bf3b391ef293ff1cd5f81d0c402c0be7bf67293int, 0x67int, 4, 0x40000000000000000000000000000000224698fc094cf91b992d30ed00000001int);
    lemma_digit(0x348cdb83aa5c808a180e82875bf3b391ef293ff1cd5f81d0c402c0be7bf67293int, 0x674int, 14, 0x40000000000000000000000000000000224698fc094cf91b992d30ed00000001int);
    lemma_digit(0x348cdb83aa5c808a180e82875bf3b391ef293ff1cd5f81d0c402c0be7bf67293int, 0x674eint, 4, 0x40000000000000000000000000000000224698fc094cf91b992d30ed00000001int);
    lemma_digit(0x348cdb83aa5c808a180e82875bf3b391ef293ff1cd5f81d0c402c0be7bf67293int, 0x674e4int, 1, 0x40000000000000000000000000000000224698fc094cf91b992d30ed00000001int);
    lemma_digit(0x348cdb83aa5c808a180e82875bf3b391ef293ff1cd5f81d0c402c0be7bf67293int, 0x674e41int, 10, 0x40000000000000000000000000000000224698fc094cf91b992d30ed00000001int);
    lemma_digit(0x348cdb83aa5c808a180e82875bf3b391ef293ff1cd5f81d0c402c0be7bf67293int, 0x674e41aint, 10, 0x40000000000000000000000000000000224698fc094cf91b992d30ed00000001int);
    lemma_digit(0x348cdb83aa5c808a180e82875bf3b391ef293ff1cd5f81d0c402c0be7bf67293int, 0x674e41aaint, 2, 0x40000000000000000000000000000000224698fc094cf91b992d30ed00000001int);
    lemma_digit(0x348cdb83aa5c808a180e82875bf3b391ef293ff1cd5f81d0c402c0be7bf67293int, 0x674e41aa2int, 5, 0x40000000000000000000000000000000224698fc094cf91b992d30ed00000001int);
    lemma_digit(0x348cdb83aa5c808a180e82875bf3b391ef293ff1cd5f81d0c402c0be7bf67293int, 0x674e41aa25int, 5, 0x40000000000000000000000000000000224698fc094cf91b992d30ed00000001int);
    lemma_digit(0x348cdb83aa5c808a180e82875bf3b391ef293ff1cd5f81d0c402c0be7bf67293int, 0x674e41aa255int, 5, 0x40000000000000000000000000000000224698fc094cf91b992d30ed00000001int);
    lemma_digit(0x348cdb83aa5c808a180e82875bf3b391ef293ff1cd5f81d0c402c0be7bf67293int, 0x674e41aa2555int, 9, 0x40000000000000000000000000000000224698fc094cf91b992d30ed00000001int);
    lemma_digit(0x348cdb83aa5c808a180e82875bf3b391ef293ff1cd5f81d0c402c0be7bf67293int, 0x674e41aa25559int, 15, 0x40000000000000000000000000000000224698fc094cf91b992d30ed00000001int);
    lemma_digit(0x348cdb83aa5c808a180e82875bf3b391ef293ff1cd5f81d0c402c0be7bf67293int, 0x674e41aa25559fint, 3, 0x40000000000000000000000000000000224698fc094cf91b992d30ed00000001int);
    lemma_digit(0x348cdb83aa5c808a180e82875bf3b391ef293ff1cd5f81d0c402c0be7bf67293int, 0x674e41aa25559f3int, 15, 0x40000000000000000000000000000000224698fc094cf91b992d30ed00000001int);
    lemma_digit(0x348cdb83aa5c808a180e82875bf3b391ef293ff1cd5f81d0c402c0be7bf67293int, 0x674e41aa25559f3fint, 6, 0x40000000000000000000000000000000224698fc094cf91b992d30ed00000001int);
    lemma_digit(0x348cdb83aa5c808a180e82875bf3b391ef293ff1cd5f81d0c402c0be7bf67293int, 0x674e41aa25559f3f6int, 8, 0x40000000000000000000000000000000224698fc094cf91b992d30ed00000001int);
    lemma_digit(0x348cdb83aa5c808a180e82875bf3b391ef293ff1cd5f81d0c402c0be7bf67293int, 0x674e41aa25559f3f68int, 0, 0x40000000000000000000000000000000224698fc094cf91b992d30ed00000001int);
    lemma_digit(0x348cdb83aa5c808a180e82875bf3b391ef293ff1cd5f81d0c402c0be7bf67293int, 0x674e41aa25559f3f680int, 6, 0x40000000000000000000000000000000224698fc094cf91b992d30ed00000001int);
    lemma_digit(0x348cdb83aa5c808a180e82875bf3b391ef293ff1cd5f81d0c402c0be7bf67293int, 0x674e41aa25559f3f6806int, 12, 0x40000000000000000000000000000000224698fc094cf91b992d30ed00000001int);
    lemma_digit(0x348cdb83aa5c808a180e82875bf3b391ef293ff1cd5f81d0c402c0be7bf67293int, 0x674e41aa25559f3f6806cint, 10, 0x40000000000000000000000000000000224698fc094cf91b992d30ed00000001int);
    lemma_digit(0x348cdb83aa5c808a180e82875bf3b391ef293ff1cd5f81d0c402c0be7bf67293int, 0x674e41aa25559f3f6806caint, 7, 0x40000000000000000000000000000000224698fc094cf91b992d30ed00000001int);
    lemma_digit(0x348cdb83aa5c808a180e82875bf3b391ef293ff1cd5f81d0c402c0be7bf67293int, 0x674e41aa25559f3f6806ca7int, 3, 0x40000000000000000000000000000000224698fc094cf91b992d30ed00000001int);
    lemma_digit(0x348cdb83aa5c808a180e82875bf3b391ef293ff1cd5f81d0c402c0be7bf67293int, 0x674e41aa25559f3f6806ca73int, 2, 0x40000000000000000000000000000000224698fc094cf91b992d30ed00000001int);
    lemma_digit(0x348cdb83aa5c808a180e82875bf3b391ef293ff1cd5f81d0c402c0be7bf67293int, 0x674e41aa25559f3f6806ca732int, 4, 0x40000000000000000000000000000000224698fc094cf91b992d30ed00000001int);
    lemma_digit(0x348cdb83aa5c808a180e82875bf3b391ef293ff1cd5f81d0c402c0be7bf67293int, 0x674e41aa25559f3f6806ca7324int, 15, 0x40000000000000000000000000000000224698fc094cf91b992d30ed00000001int);
    lemma_digit(0x348cdb83aa5c808a180e82875bf3b391ef293ff1cd5f81d0c402c0be7bf67293int, 0x674e41aa25559f3f6806ca7324fint, 2, 0x40000000000000000000000000000000224698fc094cf91b992d30ed00000001int);
    lemma_digit(0x348cdb83aa5c808a180e82875bf3b391ef293ff1cd5f81d0c402c0be7bf67293int, 0x674e41aa25559f3f6806ca7324f2int, 9, 0x40000000000000000000000000000000224698fc094cf91b992d30ed00000001int);
    lemma_digit(0x348cdb83aa5c808a180e82875bf3b391ef293ff1cd5f81d0c402c0be7bf67293int, 0x674e41aa25559f3f6806ca7324f29int, 8, 0x40000000000000000000000000000000224698fc094cf91b992d30ed00000001int);
    lemma_digit(0x348cdb83aa5c808a180e82875bf3b391ef293ff1cd5f81d0c402c0be7bf67293int, 0x674e41aa25559f3f6806ca7324f298int, 13, 0x40000000000000000000000000000000224698fc094cf91b992d30ed00000001int);
    lemma_digit(0x348cdb83aa5c808a180e82875bf3b391ef293ff1cd5f81d0c402c0be7bf67293int, 0x674e41aa25559f3f6806ca7324f298dint, 5, 0x40000000000000000000000000000000224698fc094cf91b992d30ed00000001int);
    lemma_digit(0x348cdb83aa5c808a180e82875bf3b391ef293ff1cd5f81d0c402c0be7bf67293int, 0x674e41aa25559f3f6806ca7324f298d5int, 4, 0x40000000000000000000000000000000224698fc094cf91b992d30ed00000001int);
    lemma_digit(0x348cdb83aa5c808a180e82875bf3b391ef293ff1cd5f81d0c402c0be7bf67293int, 0x674e41aa25559f3f6806ca7324f298d54int, 6, 0x40000000000000000000000000000000224698fc094cf91b992d30ed00000001int);
    lemma_digit(0x348cdb83aa5c808a180e82875bf3b391ef293ff1cd5f81d0c402c0be7bf67293int, 0x674e41aa25559f3f6806ca7324f298d546int, 5, 0x40000000000000000000000000000000224698fc094cf91b992d30ed00000001int);
    lemma_digit(0x348cdb83aa5c808a180e82875bf3b391ef293ff1cd5f81d0c402c0be7bf67293int, 0x674e41aa25559f3f6806ca7324f298d5465int, 13, 0x40000000000000000000000000000000224698fc094cf91b992d30ed00000001int);
}

/// The modulus of the field is prime.
pub proof fn lemma_modulus_is_prime()
    ensures
        is_prime(modulus()),
{
    let n = 0x40000000000000000000000000000000224698fc094cf91b992d30ed00000001int;
    let qa = 0x674e41aa25559f3f6806ca7324f298d5465dint;
    let b = 0x348cdb83aa5c808a180e82875bf3b391ef293ff1cd5f81d0c402c0be7bf67293int;
    let sb = 0x1ddc3393b0469879b74d767baeb87ef9010fca1c6e3f21fa32a6f9c9a3d2827aint;
    lemma_prime_674e41aa25559f3f6806ca7324f298d5465d();
    lemma_power_13();
    lemma_power(b, qa, n);
    assert((0x1ddc3393b0469879b74d767baeb87ef9010fca1c6e3f21fa32a6f9c9a3d2827aint * (0x348cdb83aa5c808a180e82875bf3b391ef293ff1cd5f81d0c402c0be7bf67293int - 1)) % 0x40000000000000000000000000000000224698fc094cf91b992d30ed00000001int == 1) by (nonlinear_arith);
    assert(0x674e41aa25559f3f6806ca7324f298d5465dint * 0x674e41aa25559f3f6806ca7324f298d5465dint > 0x40000000000000000000000000000000224698fc094cf91b992d30ed00000001int) by (nonlinear_arith);
    lemma_pow1(b);
    lemma_small_mod(b as nat, n as nat);
    lemma_certified(n, qa, 1, b, 0, b, 0, sb);
}

} // verus!
