//! A number of three bits, spread over as many columns.
use crate::constraint_builder::{and, not};
use crate::constraint_system::{constraint_names, constraint_values, Constraint, ConstraintSystem};
use crate::copy_event::CopyDataType;
use crate::expression::{
    query_advice, query_fixed, AdviceColumn, Expression, FixedColumn, Rotation, Witness,
};
use crate::field::Felt;
use crate::region::{Annotation, Region, Write};
use crate::row::lemma_product_of_bits;
use vstd::prelude::*;

verus! {

/// The number that three bits denote, the highest first.
pub open spec fn bits_value(bits: Seq<int>) -> int {
    4 * bits[0] + 2 * bits[1] + bits[2]
}

/// A bit as it is, or its negation.
pub open spec fn literal(bit: int, positive: bool) -> int {
    if positive {
        bit
    } else {
        1 - bit
    }
}

/// One if the three bits are `pattern`, and zero if they are another pattern.
pub open spec fn bits_equal(bits: Seq<int>, pattern: Seq<bool>) -> int {
    literal(bits[0], pattern[0]) * literal(bits[1], pattern[1]) * literal(bits[2], pattern[2])
}

/// The value of the constraint that a column holds a bit.
pub open spec fn bit_gate_values(enabled: int, bit: int) -> Seq<int> {
    seq![enabled * bit * (1 - bit)]
}

/// The values of the constraints that rule out the patterns which stand for
/// no type.
pub open spec fn range_gate_values(enabled: int, bits: Seq<int>) -> Seq<int> {
    seq![
        enabled * bits_equal(bits, seq![false, false, false]),
        enabled * bits_equal(bits, seq![true, true, false]),
        enabled * bits_equal(bits, seq![true, true, true]),
    ]
}

/// The columns of the bits, the highest first.
#[derive(Clone, Copy, Debug, PartialEq, Eq)]
pub struct BinaryNumberConfig {
    pub bits: [AdviceColumn; 3],
}

fn bit_expr(column: AdviceColumn, at: Rotation, positive: bool) -> (r: Expression)
    ensures
        forall|w: Witness, row: int| #[trigger]
            r.eval(w, row) == literal((w.advice)(column.index as int, row + at.0), positive),
{
    if positive {
        query_advice(column, at)
    } else {
        not(query_advice(column, at))
    }
}

impl BinaryNumberConfig {
    /// The bits that a witness holds at a row.
    pub open spec fn bits_at(self, w: Witness, row: int) -> Seq<int> {
        seq![
            (w.advice)(self.bits@[0].index as int, row),
            (w.advice)(self.bits@[1].index as int, row),
            (w.advice)(self.bits@[2].index as int, row),
        ]
    }

    /// Allocates the columns, demands that each holds a bit and that together
    /// they stand for a type, on the rows that `enable` switches on.
    pub fn configure(meta: &mut ConstraintSystem, enable: FixedColumn) -> (r: BinaryNumberConfig)
        requires
            old(meta).num_advice + 3 <= usize::MAX,
        ensures
            forall|j: int|
                0 <= j < 3 ==> (#[trigger] r.bits@[j]).index == old(meta).num_advice + j,
            final(meta).extends_columns(*old(meta), 3),
            final(meta).lookups == old(meta).lookups,
            final(meta).adds_gates(*old(meta), 4),
            forall|j: int|
                0 <= j < 3 ==> (#[trigger] final(meta).added_gate(*old(meta), j)).is(
                    "bit column is 0 or 1"@,
                    seq![""@],
                    |w: Witness, row: int|
                        bit_gate_values(
                            (w.fixed)(enable.index as int, row),
                            r.bits_at(w, row)[j],
                        ),
                ),
            final(meta).added_gate(*old(meta), 3).is(
                "binary number value in range"@,
                seq![""@, ""@, ""@],
                |w: Witness, row: int|
                    range_gate_values((w.fixed)(enable.index as int, row), r.bits_at(w, row)),
            ),
    {
        let b0 = meta.advice_column();
        let b1 = meta.advice_column();
        let b2 = meta.advice_column();
        let config = BinaryNumberConfig { bits: [b0, b1, b2] };
        Self::bit_gate(meta, enable, b0);
        Self::bit_gate(meta, enable, b1);
        Self::bit_gate(meta, enable, b2);
        config.range_gate(meta, enable);
        assert(meta.gates@.take(old(meta).gates@.len() as int) =~= old(meta).gates@);
        config
    }

    fn bit_gate(meta: &mut ConstraintSystem, enable: FixedColumn, bit: AdviceColumn)
        ensures
            final(meta).extends_columns(*old(meta), 0),
            final(meta).lookups == old(meta).lookups,
            final(meta).adds_gates(*old(meta), 1),
            final(meta).added_gate(*old(meta), 0).is(
                "bit column is 0 or 1"@,
                seq![""@],
                |w: Witness, row: int|
                    bit_gate_values(
                        (w.fixed)(enable.index as int, row),
                        (w.advice)(bit.index as int, row),
                    ),
            ),
    {
        let poly = query_fixed(enable).times(query_advice(bit, Rotation::cur())).times(
            not(query_advice(bit, Rotation::cur())),
        );
        let mut constraints: Vec<Constraint> = Vec::new();
        constraints.push(Constraint { name: "", poly });
        assert(constraint_names(constraints@) =~= seq![""@]);
        assert forall|w: Witness, row: int| #[trigger]
            constraint_values(constraints@, w, row) == bit_gate_values(
                (w.fixed)(enable.index as int, row),
                (w.advice)(bit.index as int, row),
            ) by {
            assert(constraint_values(constraints@, w, row) =~= bit_gate_values(
                (w.fixed)(enable.index as int, row),
                (w.advice)(bit.index as int, row),
            ));
        }
        meta.create_gate("bit column is 0 or 1", constraints);
        assert(meta.gates@.take(old(meta).gates@.len() as int) =~= old(meta).gates@);
    }

    fn range_gate(&self, meta: &mut ConstraintSystem, enable: FixedColumn)
        ensures
            final(meta).extends_columns(*old(meta), 0),
            final(meta).lookups == old(meta).lookups,
            final(meta).adds_gates(*old(meta), 1),
            final(meta).added_gate(*old(meta), 0).is(
                "binary number value in range"@,
                seq![""@, ""@, ""@],
                |w: Witness, row: int|
                    range_gate_values((w.fixed)(enable.index as int, row), self.bits_at(w, row)),
            ),
    {
        let zero = query_fixed(enable).times(
            self.pattern_equals([false, false, false], Rotation::cur()),
        );
        let six = query_fixed(enable).times(
            self.pattern_equals([true, true, false], Rotation::cur()),
        );
        let seven = query_fixed(enable).times(
            self.pattern_equals([true, true, true], Rotation::cur()),
        );
        let mut constraints: Vec<Constraint> = Vec::new();
        constraints.push(Constraint { name: "", poly: zero });
        constraints.push(Constraint { name: "", poly: six });
        constraints.push(Constraint { name: "", poly: seven });
        assert(constraint_names(constraints@) =~= seq![""@, ""@, ""@]);
        assert forall|w: Witness, row: int| #[trigger]
            constraint_values(constraints@, w, row) == range_gate_values(
                (w.fixed)(enable.index as int, row),
                self.bits_at(w, row),
            ) by {
            assert([false, false, false]@ =~= seq![false, false, false]);
            assert([true, true, false]@ =~= seq![true, true, false]);
            assert([true, true, true]@ =~= seq![true, true, true]);
            assert(constraint_values(constraints@, w, row) =~= range_gate_values(
                (w.fixed)(enable.index as int, row),
                self.bits_at(w, row),
            ));
        }
        meta.create_gate("binary number value in range", constraints);
        assert(meta.gates@.take(old(meta).gates@.len() as int) =~= old(meta).gates@);
    }

    /// The number that the bits denote.
    pub fn value(&self, at: Rotation) -> (r: Expression)
        ensures
            forall|w: Witness, row: int| #[trigger]
                r.eval(w, row) == bits_value(self.bits_at(w, row + at.0)),
    {
        let top = query_advice(self.bits[0], at);
        let upper = query_advice(self.bits[1], at).plus(top.times(Expression::constant(2)));
        query_advice(self.bits[2], at).plus(upper.times(Expression::constant(2)))
    }

    fn pattern_equals(&self, pattern: [bool; 3], at: Rotation) -> (r: Expression)
        ensures
            forall|w: Witness, row: int| #[trigger]
                r.eval(w, row) == bits_equal(self.bits_at(w, row + at.0), pattern@),
    {
        and(
            and(
                bit_expr(self.bits[0], at, pattern[0]),
                bit_expr(self.bits[1], at, pattern[1]),
            ),
            bit_expr(self.bits[2], at, pattern[2]),
        )
    }

    /// One if the bits stand for `value`, and zero if they stand for another
    /// number.
    pub fn value_equals(&self, value: CopyDataType, at: Rotation) -> (r: Expression)
        ensures
            forall|w: Witness, row: int| #[trigger]
                r.eval(w, row) == bits_equal(self.bits_at(w, row + at.0), value.bits()),
    {
        self.pattern_equals(value.as_bits(), at)
    }

    /// The writes that put `value` into the bits of a row.
    pub open spec fn writes(self, offset: int, value: CopyDataType) -> Seq<Write> {
        seq![
            self.bit_write(offset, value, 0),
            self.bit_write(offset, value, 1),
            self.bit_write(offset, value, 2),
        ]
    }

    /// The write that puts one bit of `value` into a row.
    pub open spec fn bit_write(self, offset: int, value: CopyDataType, j: int) -> Write {
        Write::Advice {
            annotation: Annotation::Bit(j as usize),
            column: self.bits@[j],
            offset,
            value: if value.bits()[j] {
                1
            } else {
                0
            },
        }
    }

    /// Puts `value` into the bits of a row.
    pub fn assign(&self, region: &mut Region, offset: usize, value: &CopyDataType)
        ensures
            final(region)@ == old(region)@ + self.writes(offset as int, *value),
    {
        let bits = value.as_bits();
        region.assign_advice(Annotation::Bit(0), self.bits[0], offset, Felt::from_bool(bits[0]));
        region.assign_advice(Annotation::Bit(1), self.bits[1], offset, Felt::from_bool(bits[1]));
        region.assign_advice(Annotation::Bit(2), self.bits[2], offset, Felt::from_bool(bits[2]));
        assert(region@ =~= old(region)@ + self.writes(offset as int, *value));
    }
}

/// Three bits equal the pattern of a type if and only if the number that they
/// denote is that of the type, from one for a bytecode to five for an
/// accumulator.
pub proof fn law_bits_of_types(bits: Seq<int>, t: CopyDataType)
    requires
        bits[0] == 0 || bits[0] == 1,
        bits[1] == 0 || bits[1] == 1,
        bits[2] == 0 || bits[2] == 1,
    ensures
        bits_value(bits) == 4 * bits[0] + 2 * bits[1] + bits[2],
        bits_equal(bits, t.bits()) == (if 4 * bits[0] + 2 * bits[1] + bits[2] == (match t {
            CopyDataType::Bytecode => 1int,
            CopyDataType::Memory => 2int,
            CopyDataType::TxCalldata => 3int,
            CopyDataType::TxLog => 4int,
            CopyDataType::RlcAcc => 5int,
        }) {
            1int
        } else {
            0int
        }),
{
    lemma_product_of_bits(
        literal(bits[0], t.bits()[0]),
        literal(bits[1], t.bits()[1]),
        literal(bits[2], t.bits()[2]),
    );
}

impl BinaryNumberConfig {
    /// A type is written as the three bits of its number, the highest first.
    pub proof fn law_type_writes(self, offset: int, t: CopyDataType, j: int)
        requires
            0 <= j < 3,
        ensures
            self.writes(offset, t).len() == 3,
            self.writes(offset, t)[j] == (Write::Advice {
                annotation: Annotation::Bit(j as usize),
                column: self.bits@[j],
                offset,
                value: (match t {
                    CopyDataType::Bytecode => seq![0int, 0, 1],
                    CopyDataType::Memory => seq![0int, 1, 0],
                    CopyDataType::TxCalldata => seq![0int, 1, 1],
                    CopyDataType::TxLog => seq![1int, 0, 0],
                    CopyDataType::RlcAcc => seq![1int, 0, 1],
                })[j],
            }),
    {
    }
}

} // verus!
