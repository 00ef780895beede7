//! Elements of the prime field over which the circuit is written.
use ff::PrimeField;
use halo2_proofs::pasta::Fp;
use vstd::arithmetic::div_mod::{lemma_mod_bound, lemma_small_mod};
use vstd::prelude::*;

verus! {

/// The modulus of the field: the base field of the Pallas curve.
pub open spec fn modulus() -> int {
    0x40000000000000000000000000000000224698fc094cf91b992d30ed00000001int
}

/// The number that `bytes` denote in little-endian order.
pub open spec fn le_value(bytes: Seq<u8>) -> nat
    decreases bytes.len(),
{
    if bytes.len() == 0 {
        0
    } else {
        bytes[0] as nat + 256 * le_value(bytes.skip(1))
    }
}

/// The conversion of `pasta::Fp` from `u64`, in canonical bytes: the element
/// that a 64-bit number denotes, which is the number itself.
#[verifier::external_body]
fn fp_from_u64(n: u64) -> (r: [u8; 32])
    ensures
        le_value(r@) == n,
{
    Fp::from(n).to_repr()
}

/// Addition of `pasta::Fp` on canonical bytes: the sum modulo the field's
/// modulus.
#[verifier::external_body]
fn fp_add(a: [u8; 32], b: [u8; 32]) -> (r: [u8; 32])
    requires
        le_value(a@) < modulus(),
        le_value(b@) < modulus(),
    ensures
        le_value(r@) == (le_value(a@) + le_value(b@)) as int % modulus(),
{
    (Fp::from_repr(a).unwrap() + Fp::from_repr(b).unwrap()).to_repr()
}

/// Subtraction of `pasta::Fp` on canonical bytes: the difference modulo the
/// field's modulus.
#[verifier::external_body]
fn fp_sub(a: [u8; 32], b: [u8; 32]) -> (r: [u8; 32])
    requires
        le_value(a@) < modulus(),
        le_value(b@) < modulus(),
    ensures
        le_value(r@) == (le_value(a@) - le_value(b@)) % modulus(),
{
    (Fp::from_repr(a).unwrap() - Fp::from_repr(b).unwrap()).to_repr()
}

/// Multiplication of `pasta::Fp` on canonical bytes: the product modulo the
/// field's modulus.
#[verifier::external_body]
fn fp_mul(a: [u8; 32], b: [u8; 32]) -> (r: [u8; 32])
    requires
        le_value(a@) < modulus(),
        le_value(b@) < modulus(),
    ensures
        le_value(r@) == (le_value(a@) * le_value(b@)) as int % modulus(),
{
    (Fp::from_repr(a).unwrap() * Fp::from_repr(b).unwrap()).to_repr()
}

/// The order of `pasta::Fp` on canonical bytes: that of the numbers they
/// denote.
#[verifier::external_body]
fn fp_lt(a: [u8; 32], b: [u8; 32]) -> (r: bool)
    requires
        le_value(a@) < modulus(),
        le_value(b@) < modulus(),
    ensures
        r == (le_value(a@) < le_value(b@)),
{
    Fp::from_repr(a).unwrap() < Fp::from_repr(b).unwrap()
}

/// The canonical bytes of `pasta::Fp` that `from_repr` accepts: those of the
/// numbers below the modulus, and no others.
#[verifier::external_body]
fn fp_is_canonical(a: [u8; 32]) -> (r: bool)
    ensures
        r == (le_value(a@) < modulus()),
{
    bool::from(Fp::from_repr(a).is_some())
}

/// A field element, held in its canonical little-endian bytes.
#[derive(Clone, Copy, Debug, PartialEq, Eq)]
pub struct Felt {
    repr: [u8; 32],
}

impl Felt {
    #[verifier::type_invariant]
    spec fn canonical(self) -> bool {
        le_value(self.repr@) < modulus()
    }

    /// The canonical bytes of the element.
    pub closed spec fn bytes(self) -> Seq<u8> {
        self.repr@
    }

    /// The number in `0..modulus()` that the element stands for.
    pub closed spec fn view(&self) -> int {
        le_value(self.repr@) as int % modulus()
    }

    /// The element of a 64-bit number.
    pub fn from_u64(n: u64) -> (r: Felt)
        ensures
            r@ == n,
    {
        let repr = fp_from_u64(n);
        proof {
            lemma_small_mod(n as nat, modulus() as nat);
        }
        Felt { repr }
    }

    /// The element of a bit.
    pub fn from_bool(b: bool) -> (r: Felt)
        ensures
            r@ == if b { 1int } else { 0int },
    {
        if b {
            Felt::from_u64(1)
        } else {
            Felt::from_u64(0)
        }
    }

    /// The sum of two elements.
    pub fn add(self, other: Felt) -> (r: Felt)
        ensures
            r@ == (self@ + other@) % modulus(),
    {
        proof {
            use_type_invariant(&self);
            use_type_invariant(&other);
            lemma_canonical(self);
            lemma_canonical(other);
        }
        let repr = fp_add(self.repr, other.repr);
        proof {
            lemma_mod_bound(self@ + other@, modulus());
            lemma_small_mod(le_value(repr@), modulus() as nat);
        }
        Felt { repr }
    }

    /// The difference of two elements.
    pub fn sub(self, other: Felt) -> (r: Felt)
        ensures
            r@ == (self@ - other@) % modulus(),
    {
        proof {
            use_type_invariant(&self);
            use_type_invariant(&other);
            lemma_canonical(self);
            lemma_canonical(other);
        }
        let repr = fp_sub(self.repr, other.repr);
        proof {
            lemma_mod_bound(self@ - other@, modulus());
            lemma_small_mod(le_value(repr@), modulus() as nat);
        }
        Felt { repr }
    }

    /// The product of two elements.
    pub fn mul(self, other: Felt) -> (r: Felt)
        ensures
            r@ == (self@ * other@) % modulus(),
    {
        proof {
            use_type_invariant(&self);
            use_type_invariant(&other);
            lemma_canonical(self);
            lemma_canonical(other);
        }
        let repr = fp_mul(self.repr, other.repr);
        proof {
            lemma_mod_bound(self@ * other@, modulus());
            lemma_small_mod(le_value(repr@), modulus() as nat);
        }
        Felt { repr }
    }

    /// Whether the number of `self` is below that of `other`.
    pub fn lt(&self, other: &Felt) -> (r: bool)
        ensures
            r == (self@ < other@),
    {
        proof {
            use_type_invariant(self);
            use_type_invariant(other);
            lemma_canonical(*self);
            lemma_canonical(*other);
        }
        fp_lt(self.repr, other.repr)
    }

    /// The element of canonical little-endian bytes: there is one if and only
    /// if they denote a number below the modulus.
    pub fn from_repr(repr: [u8; 32]) -> (r: Option<Felt>)
        ensures
            r is Some <==> le_value(repr@) < modulus(),
            r is Some ==> r->0@ == le_value(repr@) && r->0.bytes() == repr@,
    {
        if fp_is_canonical(repr) {
            let r = Felt { repr };
            proof {
                lemma_canonical(r);
            }
            Some(r)
        } else {
            None
        }
    }

    /// The canonical little-endian bytes.
    pub fn to_repr(&self) -> (r: [u8; 32])
        ensures
            r@ == self.bytes(),
            le_value(r@) == self@,
    {
        proof {
            use_type_invariant(self);
            lemma_canonical(*self);
        }
        self.repr
    }
}

proof fn lemma_canonical(x: Felt)
    requires
        le_value(x.repr@) < modulus(),
    ensures
        x@ == le_value(x.repr@),
{
    lemma_small_mod(le_value(x.repr@), modulus() as nat);
}

/// Every element stands for a number below the modulus.
pub broadcast proof fn lemma_felt_range(x: Felt)
    ensures
        0 <= #[trigger] x@ < modulus(),
{
    lemma_mod_bound(le_value(x.repr@) as int, modulus());
}

} // verus!
