//! A comparison of two numbers of eight bytes.
use crate::congruence::{in_field, lemma_boolean, lemma_small_value_vanishes};
use crate::constraint_builder::not;
use crate::constraint_system::{
    all_vanish, constraint_names, constraint_values, Constraint, ConstraintSystem,
};
use crate::expression::{query_advice, AdviceColumn, Expression, Rotation, Witness};
use crate::field::{le_value, modulus, Felt};
use crate::region::{Annotation, Region, Write};
use crate::sum::law_byte_of_number;
use vstd::arithmetic::div_mod::{
    lemma_add_mod_noop, lemma_fundamental_div_mod_converse, lemma_mod_bound, lemma_mod_twice,
    lemma_small_mod,
};
use vstd::prelude::*;

verus! {

/// One more than the greatest number of eight bytes.
pub open spec fn lt_range() -> int {
    0x1_0000_0000_0000_0000
}

/// The number that a list of bytes denotes, the lowest first.
pub open spec fn bytes_value(bytes: Seq<int>) -> int
    decreases bytes.len(),
{
    if bytes.len() == 0 {
        0
    } else {
        bytes[0] + 256 * bytes_value(bytes.skip(1))
    }
}

/// Byte `i` of a number, counted from the lowest.
pub open spec fn byte_of(n: int, i: int) -> int
    decreases i,
{
    if i <= 0 {
        n % 256
    } else {
        byte_of(n / 256, i - 1)
    }
}

/// The values of the constraints behind `lt == (lhs < rhs)`: the difference,
/// moved up by the range where `lt` is one, is the number of the bytes.
pub open spec fn lt_gate_values(
    enabled: int,
    lhs: int,
    rhs: int,
    lt: int,
    diff: Seq<int>,
) -> Seq<int> {
    seq![
        enabled * (lhs - rhs - bytes_value(diff) + lt * lt_range()),
        enabled * (lt * (1 - lt)),
    ]
}

/// Whether `lhs` is below `rhs`, as a bit.
pub open spec fn lt_bit(lhs: int, rhs: int) -> int {
    if lhs < rhs {
        1
    } else {
        0
    }
}

/// The number whose bytes back up a comparison.
pub open spec fn lt_diff(lhs: int, rhs: int) -> int {
    (lhs - rhs + lt_bit(lhs, rhs) * lt_range()) % modulus()
}

/// The columns of a comparison: its outcome, and the bytes that back it up.
/// The bytes are not constrained to be bytes here.
#[derive(Clone, Copy, Debug, PartialEq, Eq)]
pub struct LtConfig {
    pub lt: AdviceColumn,
    pub diff: [AdviceColumn; 8],
}

impl LtConfig {
    /// The bytes that a witness holds at a row.
    pub open spec fn diff_at(self, w: Witness, row: int) -> Seq<int> {
        Seq::new(8, |i: int| (w.advice)(self.diff@[i].index as int, row))
    }

    /// Allocates the columns, and demands on the rows that `q_enable` switches
    /// on that they compare `lhs` with `rhs`.
    pub fn configure(
        meta: &mut ConstraintSystem,
        q_enable: Expression,
        lhs: Expression,
        rhs: Expression,
    ) -> (r: LtConfig)
        requires
            old(meta).num_advice + 9 <= usize::MAX,
        ensures
            r.lt.index == old(meta).num_advice,
            forall|j: int|
                0 <= j < 8 ==> (#[trigger] r.diff@[j]).index == old(meta).num_advice + 1 + j,
            final(meta).extends_columns(*old(meta), 9),
            final(meta).lookups == old(meta).lookups,
            final(meta).adds_gates(*old(meta), 1),
            final(meta).added_gate(*old(meta), 0).is(
                "lt gate"@,
                seq![""@, ""@],
                |w: Witness, row: int|
                    lt_gate_values(
                        q_enable.eval(w, row),
                        lhs.eval(w, row),
                        rhs.eval(w, row),
                        (w.advice)(r.lt.index as int, row),
                        r.diff_at(w, row),
                    ),
            ),
    {
        let lt = meta.advice_column();
        let d0 = meta.advice_column();
        let d1 = meta.advice_column();
        let d2 = meta.advice_column();
        let d3 = meta.advice_column();
        let d4 = meta.advice_column();
        let d5 = meta.advice_column();
        let d6 = meta.advice_column();
        let d7 = meta.advice_column();
        let config = LtConfig { lt, diff: [d0, d1, d2, d3, d4, d5, d6, d7] };
        let range = Expression::constant(u64::MAX).plus(Expression::constant(1));
        let check_diff = q_enable.clone().times(
            lhs.minus(rhs).minus(config.diff_expr()).plus(
                query_advice(lt, Rotation::cur()).times(range),
            ),
        );
        let check_bit = q_enable.times(
            query_advice(lt, Rotation::cur()).times(not(query_advice(lt, Rotation::cur()))),
        );
        let mut constraints: Vec<Constraint> = Vec::new();
        constraints.push(Constraint { name: "", poly: check_diff });
        constraints.push(Constraint { name: "", poly: check_bit });
        assert(constraint_names(constraints@) =~= seq![""@, ""@]);
        assert forall|w: Witness, row: int| #[trigger]
            constraint_values(constraints@, w, row) == lt_gate_values(
                q_enable.eval(w, row),
                lhs.eval(w, row),
                rhs.eval(w, row),
                (w.advice)(config.lt.index as int, row),
                config.diff_at(w, row),
            ) by {
            assert(constraint_values(constraints@, w, row) =~= lt_gate_values(
                q_enable.eval(w, row),
                lhs.eval(w, row),
                rhs.eval(w, row),
                (w.advice)(config.lt.index as int, row),
                config.diff_at(w, row),
            ));
        }
        meta.create_gate("lt gate", constraints);
        assert(meta.gates@.take(old(meta).gates@.len() as int) =~= old(meta).gates@);
        config
    }

    /// The number that the bytes denote.
    fn diff_expr(&self) -> (r: Expression)
        ensures
            forall|w: Witness, row: int| #[trigger]
                r.eval(w, row) == bytes_value(self.diff_at(w, row)),
    {
        let mut value = Expression::constant(0);
        let mut i: usize = 8;
        assert forall|w: Witness, row: int| #[trigger]
            value.eval(w, row) == bytes_value(self.diff_at(w, row).skip(8)) by {}
        while i > 0
            invariant
                0 <= i <= 8,
                forall|w: Witness, row: int| #[trigger]
                    value.eval(w, row) == bytes_value(self.diff_at(w, row).skip(i as int)),
            decreases i,
        {
            let ghost before = value;
            let ghost upper = i as int;
            i = i - 1;
            value = query_advice(self.diff[i], Rotation::cur()).plus(
                Expression::constant(256).times(value),
            );
            assert forall|w: Witness, row: int| #[trigger]
                value.eval(w, row) == bytes_value(self.diff_at(w, row).skip(i as int)) by {
                let diff = self.diff_at(w, row);
                assert(diff.skip(i as int).skip(1) =~= diff.skip(upper));
                assert(before.eval(w, row) == bytes_value(diff.skip(upper)));
            }
        }
        assert forall|w: Witness, row: int| #[trigger]
            value.eval(w, row) == bytes_value(self.diff_at(w, row)) by {
            assert(self.diff_at(w, row).skip(0) =~= self.diff_at(w, row));
        }
        value
    }

    /// The outcome of the comparison, at the current row.
    pub fn is_lt(&self) -> (r: Expression)
        ensures
            forall|w: Witness, row: int| #[trigger]
                r.eval(w, row) == (w.advice)(self.lt.index as int, row),
    {
        query_advice(self.lt, Rotation::cur())
    }

    /// The writes that compare two field elements at a row.
    pub open spec fn writes(self, offset: int, lhs: int, rhs: int) -> Seq<Write> {
        seq![
            Write::Advice {
                annotation: Annotation::Lt,
                column: self.lt,
                offset,
                value: lt_bit(lhs, rhs),
            },
        ] + Seq::new(8, |i: int| self.diff_write(offset, lhs, rhs, i))
    }

    /// The write of one byte of the difference.
    pub open spec fn diff_write(self, offset: int, lhs: int, rhs: int, i: int) -> Write {
        Write::Advice {
            annotation: Annotation::DiffByte(i as usize),
            column: self.diff@[i],
            offset,
            value: byte_of(lt_diff(lhs, rhs), i),
        }
    }

    /// Compares two field elements at a row.
    pub fn assign(&self, region: &mut Region, offset: usize, lhs: Felt, rhs: Felt)
        ensures
            final(region)@ == old(region)@ + self.writes(offset as int, lhs@, rhs@),
    {
        let lt = lhs.lt(&rhs);
        region.assign_advice(Annotation::Lt, self.lt, offset, Felt::from_bool(lt));
        let range = if lt {
            Felt::from_u64(u64::MAX).add(Felt::from_u64(1))
        } else {
            Felt::from_u64(0)
        };
        let diff = lhs.sub(rhs).add(range);
        let ghost shift = lt_bit(lhs@, rhs@) * lt_range();
        proof {
            assert(range@ == shift);
            lemma_add_mod_noop(lhs@ - rhs@, shift, modulus());
            lemma_mod_twice(lhs@ - rhs@, modulus());
            lemma_add_mod_noop((lhs@ - rhs@) % modulus(), shift, modulus());
            assert(diff@ == lt_diff(lhs@, rhs@));
        }
        let bytes = diff.to_repr();
        let mut i: usize = 0;
        while i < 8
            invariant
                i <= 8,
                bytes@.len() == 32,
                le_value(bytes@) == lt_diff(lhs@, rhs@),
                region@ == old(region)@ + self.writes(offset as int, lhs@, rhs@).take(1 + i),
            decreases 8 - i,
        {
            region.assign_advice(
                Annotation::DiffByte(i),
                self.diff[i],
                offset,
                Felt::from_u64(bytes[i] as u64),
            );
            proof {
                lemma_byte_of(bytes@, i as int);
            }
            i = i + 1;
            assert(region@ =~= old(region)@ + self.writes(offset as int, lhs@, rhs@).take(1 + i));
        }
        assert(region@ =~= old(region)@ + self.writes(offset as int, lhs@, rhs@));
    }
}

/// The bytes of a number are those that its place values pick out.
pub proof fn lemma_byte_of(bytes: Seq<u8>, i: int)
    requires
        0 <= i < bytes.len(),
    ensures
        bytes[i] == byte_of(le_value(bytes) as int, i),
    decreases i,
{
    let n = le_value(bytes) as int;
    let rest = le_value(bytes.skip(1)) as int;
    lemma_fundamental_div_mod_converse(n, 256, rest, bytes[0] as int);
    if i > 0 {
        lemma_byte_of(bytes.skip(1), i - 1);
    }
}

/// The lowest bytes of a number that they are enough for denote it.
pub proof fn lemma_bytes_of_number(n: int, count: nat, bound: int)
    requires
        0 <= n < bound,
        bound == vstd::arithmetic::power::pow(256, count),
    ensures
        bytes_value(Seq::new(count, |i: int| byte_of(n, i))) == n,
    decreases count,
{
    reveal(vstd::arithmetic::power::pow);
    let bytes = Seq::new(count, |i: int| byte_of(n, i));
    if count > 0 {
        let below = vstd::arithmetic::power::pow(256, (count - 1) as nat);
        assert(bound == 256 * below);
        assert(0 <= n / 256 < below);
        lemma_bytes_of_number(n / 256, (count - 1) as nat, below);
        assert(bytes.skip(1) =~= Seq::new((count - 1) as nat, |i: int| byte_of(n / 256, i)));
    }
}

/// Eight bytes hold the numbers below the range of a comparison.
proof fn lemma_lt_range()
    ensures
        vstd::arithmetic::power::pow(256, 8) == lt_range(),
{
    reveal_with_fuel(vstd::arithmetic::power::pow, 9);
}

/// Two numbers of eight bytes can always be compared: their comparison and
/// the bytes behind it satisfy the constraints.
pub proof fn law_comparison_is_satisfied(enabled: int, lhs: int, rhs: int)
    requires
        0 <= lhs < lt_range(),
        0 <= rhs < lt_range(),
    ensures
        all_vanish(
            lt_gate_values(
                enabled,
                lhs,
                rhs,
                lt_bit(lhs, rhs),
                Seq::new(8, |i: int| byte_of(lt_diff(lhs, rhs), i)),
            ),
        ),
{
    let lt = lt_bit(lhs, rhs);
    let n = lhs - rhs + lt * lt_range();
    lemma_small_mod(n as nat, modulus() as nat);
    lemma_lt_range();
    lemma_bytes_of_number(n, 8, lt_range());
    let diff = Seq::new(8, |i: int| byte_of(lt_diff(lhs, rhs), i));
    assert(diff =~= Seq::new(8, |i: int| byte_of(n, i)));
    assert(enabled * (lhs - rhs - bytes_value(diff) + lt * lt_range()) == 0)
        by (nonlinear_arith)
        requires
            lhs - rhs - bytes_value(diff) + lt * lt_range() == 0,
    ;
    assert(lt * (1 - lt) == 0) by (nonlinear_arith)
        requires
            lt == 0 || lt == 1,
    ;
    assert(enabled * (lt * (1 - lt)) == 0) by (nonlinear_arith)
        requires
            lt * (1 - lt) == 0,
    ;
}

/// Eight bytes denote a number of eight bytes.
proof fn lemma_bytes_bound(bytes: Seq<int>, bound: int)
    requires
        bound == vstd::arithmetic::power::pow(256, bytes.len()),
        forall|i: int| 0 <= i < bytes.len() ==> 0 <= #[trigger] bytes[i] < 256,
    ensures
        0 <= bytes_value(bytes) < bound,
    decreases bytes.len(),
{
    reveal(vstd::arithmetic::power::pow);
    if bytes.len() > 0 {
        let below = vstd::arithmetic::power::pow(256, (bytes.len() - 1) as nat);
        assert(bound == 256 * below);
        lemma_bytes_bound(bytes.skip(1), below);
    }
}

/// A comparison that satisfies the constraints, over bytes that are bytes,
/// tells which of two numbers of eight bytes is the lesser.
pub proof fn law_comparison_is_sound(lhs: int, rhs: int, lt: int, diff: Seq<int>)
    requires
        0 <= lhs < lt_range(),
        0 <= rhs < lt_range(),
        in_field(lt),
        diff.len() == 8,
        forall|i: int| 0 <= i < 8 ==> 0 <= #[trigger] diff[i] < 256,
        all_vanish(lt_gate_values(1, lhs, rhs, lt, diff)),
    ensures
        lt == lt_bit(lhs, rhs),
        bytes_value(diff) == lhs - rhs + lt * lt_range(),
{
    let values = lt_gate_values(1, lhs, rhs, lt, diff);
    assert(values[0] % modulus() == 0);
    assert(values[1] % modulus() == 0);
    lemma_boolean(lt);
    lemma_lt_range();
    lemma_bytes_bound(diff, lt_range());
    lemma_small_value_vanishes(lhs - rhs - bytes_value(diff) + lt * lt_range());
}

impl LtConfig {
    /// A comparison of field elements writes whether the one is below the
    /// other, and then the eight lowest bytes of their difference in the field,
    /// moved up by 2^64 where it is.
    pub proof fn law_comparison_writes(self, offset: int, lhs: int, rhs: int, j: int)
        requires
            0 <= j < 8,
        ensures
            self.writes(offset, lhs, rhs).len() == 9,
            self.writes(offset, lhs, rhs)[0] == (Write::Advice {
                annotation: Annotation::Lt,
                column: self.lt,
                offset,
                value: if lhs < rhs {
                    1
                } else {
                    0
                },
            }),
            self.writes(offset, lhs, rhs)[1 + j] == (Write::Advice {
                annotation: Annotation::DiffByte(j as usize),
                column: self.diff@[j],
                offset,
                value: (((if lhs < rhs {
                    lhs - rhs + 0x1_0000_0000_0000_0000
                } else {
                    lhs - rhs
                }) % modulus()) / vstd::arithmetic::power::pow(256, j as nat)) % 256,
            }),
    {
        lemma_mod_bound(lhs - rhs + lt_bit(lhs, rhs) * lt_range(), modulus());
        law_byte_of_number(lt_diff(lhs, rhs), j);
    }
}

} // verus!
