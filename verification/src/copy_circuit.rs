//! The copy circuit: constraints and lookups for the read and write steps of
//! copied bytes, and the assignment of the witness.
use crate::binary_number::{bit_gate_values, range_gate_values};
use crate::constraint_builder::{and, not, or, ConstraintBuilder};
use crate::constraint_system::{
    all_vanish, constraint_names, constraint_values, lookup_inputs, lookup_tables, Constraint,
    ConstraintSystem, LookupTable,
};
use crate::copy_event::{min_of, CopyDataType, NumberOrHash};
use crate::copy_table::CopyTable;
use crate::expression::{
    query_advice, query_fixed, query_selector, AdviceColumn, Expression, FixedColumn, Rotation,
    Selector, Witness,
};
use crate::field::{modulus, Felt};
use crate::less_than::{lt_gate_values, LtConfig};
use crate::rlc::{random_linear_combine, rlc};
use crate::row::{
    acc_names, acc_polys, acc_switch, bytecode_record, bytecode_switch, calldata_record,
    calldata_switch, memory_record, memory_switch, row_names, row_polys, step_names, step_polys,
    switched, tx_log_record, tx_log_switch, Row,
};
use crate::sum::{law_identity_value, sum};
use vstd::arithmetic::power::pow;
use vstd::prelude::*;

verus! {

/// The number that stands for an identity: itself for a number, and for a hash
/// the combination of its bytes, the lowest one first.
pub open spec fn id_value(v: NumberOrHash, randomness: int) -> int {
    match v {
        NumberOrHash::Number(n) => n as int,
        NumberOrHash::Hash(h) => rlc(h@.reverse(), randomness) % modulus(),
    }
}

/// The field element that stands for an identity.
pub fn number_or_hash_to_field(v: &NumberOrHash, randomness: Felt) -> (r: Felt)
    ensures
        r@ == id_value(*v, randomness@),
        match *v {
            NumberOrHash::Number(n) => r@ == n,
            NumberOrHash::Hash(h) => r@ == sum(
                |i: int| h@[31 - i] * pow(randomness@, i as nat),
                32,
            ) % modulus(),
        },
{
    proof {
        law_identity_value(*v, randomness@);
    }
    match v {
        NumberOrHash::Number(n) => Felt::from_u64(*n as u64),
        NumberOrHash::Hash(h) => {
            // The bytecode table holds hashes with the lowest byte first.
            let mut le_bytes: [u8; 32] = [0; 32];
            let mut i: usize = 0;
            while i < 32
                invariant
                    i <= 32,
                    forall|j: int| 0 <= j < i ==> #[trigger] le_bytes@[j] == h@[31 - j],
                decreases 32 - i,
            {
                le_bytes[i] = h[31 - i];
                i = i + 1;
            }
            assert(le_bytes@ =~= h@.reverse());
            random_linear_combine(&le_bytes, randomness)
        },
    }
}

/// The columns of the copy circuit.
#[derive(Clone, Copy, Debug, PartialEq, Eq)]
pub struct CopyCircuit {
    /// Whether the row is a step: a read row is one, a write row is not.
    pub q_step: Selector,
    /// Whether the row is the last of a copy event.
    pub is_last: AdviceColumn,
    /// The value copied in this step.
    pub value: AdviceColumn,
    /// Whether the row is padding.
    pub is_pad: AdviceColumn,
    /// Whether the byte is an opcode, where it belongs to a bytecode.
    pub is_code: AdviceColumn,
    /// Whether the row is in use.
    pub q_enable: FixedColumn,
    /// The columns that other circuits look up.
    pub copy_table: CopyTable,
    /// The comparison of the source address with the source's end, which are
    /// numbers of eight bytes.
    pub addr_lt_addr_end: LtConfig,
}

impl CopyCircuit {
    /// The columns beside the table, in the order of a circuit row.
    pub open spec fn column_list(self) -> Seq<AdviceColumn> {
        seq![self.is_last, self.value, self.is_pad, self.is_code]
    }

    /// The advice columns: those of the table, those beside it, the bits of
    /// the tag, and those of the comparison.
    pub open spec fn advice_columns(self) -> Seq<AdviceColumn> {
        self.copy_table.column_list() + self.column_list() + self.copy_table.tag.bits@ + seq![
            self.addr_lt_addr_end.lt,
        ] + self.addr_lt_addr_end.diff@
    }

    /// Whether no two of the advice columns are one.
    pub open spec fn has_distinct_columns(self) -> bool {
        forall|i: int, j: int|
            #![trigger self.advice_columns()[i], self.advice_columns()[j]]
            0 <= i < j < 24 ==> self.advice_columns()[i].index != self.advice_columns()[j].index
    }

    /// Columns that are allocated behind those of the table are other columns.
    proof fn lemma_distinct_columns(self, n: int)
        requires
            self.copy_table.is_allocated(n),
            self.is_last.index == n,
            self.value.index == n + 1,
            self.is_code.index == n + 2,
            self.is_pad.index == n + 3,
            self.addr_lt_addr_end.lt.index == n + 4,
            forall|j: int|
                0 <= j < 8 ==> (#[trigger] self.addr_lt_addr_end.diff@[j]).index == n + 5 + j,
        ensures
            self.has_distinct_columns(),
    {
        let table = self.copy_table.column_list() + self.copy_table.tag.bits@;
        let columns = self.advice_columns();
        assert forall|i: int| 0 <= i < 8 implies #[trigger] columns[i] == table[i] by {}
        assert forall|i: int| 12 <= i < 15 implies #[trigger] columns[i] == table[i - 4] by {}
        assert forall|i: int| 16 <= i < 24 implies (#[trigger] columns[i]).index == n + i
            - 11 by {
            assert(columns[i] == self.addr_lt_addr_end.diff@[i - 16]);
        }
        assert(columns[15].index == n + 4);
        assert forall|i: int, j: int|
            #![trigger columns[i], columns[j]]
            0 <= i < j < 24 implies columns[i].index != columns[j].index by {}
    }

    /// What a witness holds at a row.
    pub open spec fn row(self, w: Witness, row: int) -> Row {
        Row {
            q_enable: (w.fixed)(self.q_enable.index as int, row),
            q_step: (w.selector)(self.q_step.index as int, row),
            is_first: (w.advice)(self.copy_table.is_first.index as int, row),
            is_last: (w.advice)(self.is_last.index as int, row),
            id: (w.advice)(self.copy_table.id.index as int, row),
            addr: (w.advice)(self.copy_table.addr.index as int, row),
            src_addr_end: (w.advice)(self.copy_table.src_addr_end.index as int, row),
            bytes_left: (w.advice)(self.copy_table.bytes_left.index as int, row),
            value: (w.advice)(self.value.index as int, row),
            rlc_acc: (w.advice)(self.copy_table.rlc_acc.index as int, row),
            is_code: (w.advice)(self.is_code.index as int, row),
            is_pad: (w.advice)(self.is_pad.index as int, row),
            rw_counter: (w.advice)(self.copy_table.rw_counter.index as int, row),
            rwc_inc_left: (w.advice)(self.copy_table.rwc_inc_left.index as int, row),
            tag: self.copy_table.tag.bits_at(w, row),
            lt: (w.advice)(self.addr_lt_addr_end.lt.index as int, row),
            diff: self.addr_lt_addr_end.diff_at(w, row),
        }
    }

    /// The values of the comparison's constraints at a row.
    pub open spec fn lt_values(self, w: Witness, row: int) -> Seq<int> {
        let x = self.row(w, row);
        lt_gate_values(x.q_step, x.addr, x.src_addr_end, x.lt, x.diff)
    }

    /// The values at a row of the constraints on every row.
    pub open spec fn row_values(self, w: Witness, row: int) -> Seq<int> {
        let x = self.row(w, row);
        switched(x.q_enable, row_polys(x, self.row(w, row + 1), self.row(w, row + 2)))
    }

    /// The values at a row of the constraints on a step.
    pub open spec fn step_values(self, w: Witness, row: int) -> Seq<int> {
        let x = self.row(w, row);
        switched(x.q_step, step_polys(x, self.row(w, row + 1), self.row(w, row + 2)))
    }

    /// The values at a row of the constraints on an accumulating row.
    pub open spec fn acc_values(self, randomness: Expression, w: Witness, row: int) -> Seq<int> {
        let x = self.row(w, row);
        switched(
            acc_switch(x),
            acc_polys(x, self.row(w, row + 1), self.row(w, row + 2), randomness.eval(w, row)),
        )
    }

    /// Whether all constraints hold at a row: those on the comparison, on
    /// rows, on steps, on accumulation, and on the tag.
    pub open spec fn constraints_hold(self, randomness: Expression, w: Witness, row: int) -> bool {
        let x = self.row(w, row);
        &&& all_vanish(self.lt_values(w, row))
        &&& all_vanish(self.row_values(w, row))
        &&& all_vanish(self.step_values(w, row))
        &&& all_vanish(self.acc_values(randomness, w, row))
        &&& forall|j: int|
            0 <= j < 3 ==> all_vanish(bit_gate_values(x.q_enable, #[trigger] x.tag[j]))
        &&& all_vanish(range_gate_values(x.q_enable, x.tag))
    }

    /// The gates that `construct` and `configure` add hold at a row if and
    /// only if the constraints do.
    pub proof fn law_gates_are_the_constraints(
        self,
        randomness: Expression,
        before: ConstraintSystem,
        constructed: ConstraintSystem,
        configured: ConstraintSystem,
        w: Witness,
        row: int,
    )
        requires
            self.copy_table.adds_tag_gates(self.q_enable, before, constructed),
            self.adds_copy_gates(randomness, constructed, configured),
        ensures
            configured.gates_hold(w, row) <==> before.gates_hold(w, row) && self.constraints_hold(
                randomness,
                w,
                row,
            ),
    {
        let x = self.row(w, row);
        let n = before.gates@.len() as int;
        assert forall|i: int| 0 <= i < n implies #[trigger] before.gates@[i]
            == configured.gates@[i] by {
            assert(configured.gates@[i] == configured.gates@.take(n + 4)[i]);
            assert(constructed.gates@[i] == constructed.gates@.take(n)[i]);
        }
        assert forall|j: int| 0 <= j < 4 implies #[trigger] constructed.added_gate(before, j)
            == configured.gates@[n + j] by {
            assert(configured.gates@[n + j] == configured.gates@.take(n + 4)[n + j]);
        }
        assert forall|j: int| 0 <= j < 3 implies (#[trigger] constructed.added_gate(
            before,
            j,
        )).holds(w, row) == all_vanish(bit_gate_values(x.q_enable, x.tag[j])) by {
            let values = constraint_values(
                constructed.added_gate(before, j).constraints@,
                w,
                row,
            );
            assert(values == bit_gate_values(x.q_enable, x.tag[j]));
        }
        assert(constraint_values(constructed.added_gate(before, 3).constraints@, w, row)
            == range_gate_values(x.q_enable, x.tag));
        let lt = configured.added_gate(constructed, 0);
        let rows = configured.added_gate(constructed, 1);
        let steps = configured.added_gate(constructed, 2);
        let acc = configured.added_gate(constructed, 3);
        assert(constraint_values(lt.constraints@, w, row) == self.lt_values(w, row));
        assert(constraint_values(rows.constraints@, w, row) == self.row_values(w, row));
        assert(constraint_values(steps.constraints@, w, row) == self.step_values(w, row));
        assert(constraint_values(acc.constraints@, w, row) == self.acc_values(
            randomness,
            w,
            row,
        ));
        if configured.gates_hold(w, row) {
            assert forall|i: int| 0 <= i < n implies (#[trigger] before.gates@[i]).holds(
                w,
                row,
            ) by {
                assert(configured.gates@[i].holds(w, row));
            }
            assert forall|j: int| 0 <= j < 3 implies all_vanish(
                bit_gate_values(x.q_enable, #[trigger] x.tag[j]),
            ) by {
                assert(constructed.added_gate(before, j).holds(w, row)) by {
                    assert(configured.gates@[n + j].holds(w, row));
                }
            }
            assert(configured.gates@[n + 3].holds(w, row));
            assert(constructed.added_gate(before, 3) == configured.gates@[n + 3]);
            assert(configured.gates@[n + 4].holds(w, row));
            assert(configured.gates@[n + 5].holds(w, row));
            assert(configured.gates@[n + 6].holds(w, row));
            assert(configured.gates@[n + 7].holds(w, row));
        }
        if before.gates_hold(w, row) && self.constraints_hold(randomness, w, row) {
            assert forall|i: int| 0 <= i < configured.gates@.len() implies (
            #[trigger] configured.gates@[i]).holds(w, row) by {
                if i < n {
                    assert(before.gates@[i].holds(w, row));
                } else if i < n + 3 {
                    assert(x.tag[i - n] == x.tag[i - n]);
                    assert(constructed.added_gate(before, i - n) == configured.gates@[i]);
                } else if i == n + 3 {
                    assert(constructed.added_gate(before, 3) == configured.gates@[i]);
                } else {
                    assert(configured.gates@[i] == configured.added_gate(
                        constructed,
                        i - n - 4,
                    ));
                }
            }
        }
    }

    /// The constraints on every enabled row.
    fn row_constraints(&self) -> (r: Vec<Constraint>)
        ensures
            constraint_names(r@) == row_names(),
            forall|w: Witness, row: int| #[trigger]
                constraint_values(r@, w, row) == self.row_values(
                    w,
                    row,
                ),
    {
        let t = self.copy_table;
        let mut cb = ConstraintBuilder::new();
        cb.require_boolean("is_first is boolean", query_advice(t.is_first, Rotation::cur()));
        cb.require_boolean("is_last is boolean", query_advice(self.is_last, Rotation::cur()));
        cb.require_zero(
            "is_first == 0 when q_step == 0",
            and(not(query_selector(self.q_step)), query_advice(t.is_first, Rotation::cur())),
        );
        cb.require_zero(
            "is_last == 0 when q_step == 1",
            and(query_advice(self.is_last, Rotation::cur()), query_selector(self.q_step)),
        );

        let not_last_two_rows = Expression::constant(1).minus(
            query_advice(self.is_last, Rotation::cur()),
        ).minus(query_advice(self.is_last, Rotation::next()));
        cb.begin_condition(not_last_two_rows);
        cb.require_equal(
            "rows[0].id == rows[2].id",
            query_advice(t.id, Rotation::cur()),
            query_advice(t.id, Rotation(2)),
        );
        cb.require_equal(
            "rows[0].tag == rows[2].tag",
            t.tag.value(Rotation::cur()),
            t.tag.value(Rotation(2)),
        );
        cb.require_equal(
            "rows[0].addr + 1 == rows[2].addr",
            query_advice(t.addr, Rotation::cur()).plus(Expression::constant(1)),
            query_advice(t.addr, Rotation(2)),
        );
        cb.require_equal(
            "rows[0].src_addr_end == rows[2].src_addr_end for non-last step",
            query_advice(t.src_addr_end, Rotation::cur()),
            query_advice(t.src_addr_end, Rotation(2)),
        );
        cb.end_condition();

        let rw_diff = and(
            or(
                t.tag.value_equals(CopyDataType::Memory, Rotation::cur()),
                t.tag.value_equals(CopyDataType::TxLog, Rotation::cur()),
            ),
            not(query_advice(self.is_pad, Rotation::cur())),
        );
        cb.begin_condition(not(query_advice(self.is_last, Rotation::cur())));
        cb.require_equal(
            "rows[0].rw_counter + rw_diff == rows[1].rw_counter",
            query_advice(t.rw_counter, Rotation::cur()).plus(rw_diff.clone()),
            query_advice(t.rw_counter, Rotation::next()),
        );
        cb.require_equal(
            "rows[0].rwc_inc_left - rw_diff == rows[1].rwc_inc_left",
            query_advice(t.rwc_inc_left, Rotation::cur()).minus(rw_diff.clone()),
            query_advice(t.rwc_inc_left, Rotation::next()),
        );
        cb.require_equal(
            "rows[0].rlc_acc == rows[1].rlc_acc",
            query_advice(t.rlc_acc, Rotation::cur()),
            query_advice(t.rlc_acc, Rotation::next()),
        );
        cb.end_condition();
        cb.begin_condition(query_advice(self.is_last, Rotation::cur()));
        cb.require_equal(
            "rwc_inc_left == rw_diff for last row in the copy slot",
            query_advice(t.rwc_inc_left, Rotation::cur()),
            rw_diff,
        );
        cb.end_condition();
        cb.begin_condition(
            and(
                query_advice(self.is_last, Rotation::cur()),
                t.tag.value_equals(CopyDataType::RlcAcc, Rotation::cur()),
            ),
        );
        cb.require_equal(
            "value == rlc_acc at the last row for RlcAcc",
            query_advice(self.value, Rotation::cur()),
            query_advice(t.rlc_acc, Rotation::cur()),
        );
        cb.end_condition();
        assert(cb.names() =~= row_names());
        let ghost done = cb;
        let r = cb.gate(query_fixed(self.q_enable));
        assert forall|w: Witness, row: int| #[trigger]
            constraint_values(r@, w, row) == self.row_values(w, row) by {
            let x = self.row(w, row);
            let y = self.row(w, row + 1);
            let z = self.row(w, row + 2);
            assert(done.values(w, row) =~= row_polys(x, y, z));
            assert(constraint_values(r@, w, row) =~= self.row_values(w, row));
        }
        r
    }

    /// The constraints on a read row and the write row behind it.
    fn step_constraints(&self) -> (r: Vec<Constraint>)
        ensures
            constraint_names(r@) == step_names(),
            forall|w: Witness, row: int| #[trigger]
                constraint_values(r@, w, row) == self.step_values(w, row),
    {
        let t = self.copy_table;
        let mut cb = ConstraintBuilder::new();
        cb.require_zero(
            "bytes_left == 1 for last step",
            and(
                query_advice(self.is_last, Rotation::next()),
                Expression::constant(1).minus(query_advice(t.bytes_left, Rotation::cur())),
            ),
        );
        cb.begin_condition(not(query_advice(self.is_last, Rotation::next())));
        cb.require_equal(
            "bytes_left == bytes_left_next + 1 for non-last step",
            query_advice(t.bytes_left, Rotation::cur()),
            query_advice(t.bytes_left, Rotation(2)).plus(Expression::constant(1)),
        );
        cb.end_condition();
        cb.begin_condition(not(t.tag.value_equals(CopyDataType::RlcAcc, Rotation::next())));
        cb.require_equal(
            "write value == read value (if not rlc acc)",
            query_advice(self.value, Rotation::cur()),
            query_advice(self.value, Rotation::next()),
        );
        cb.end_condition();
        cb.begin_condition(query_advice(t.is_first, Rotation::cur()));
        cb.require_equal(
            "write value == read value (is_first == 1)",
            query_advice(self.value, Rotation::cur()),
            query_advice(self.value, Rotation::next()),
        );
        cb.end_condition();
        cb.require_zero(
            "value == 0 when is_pad == 1 for read",
            and(
                query_advice(self.is_pad, Rotation::cur()),
                query_advice(self.value, Rotation::cur()),
            ),
        );
        cb.require_equal(
            "is_pad == 1 - (src_addr < src_addr_end) for read row",
            Expression::constant(1).minus(self.addr_lt_addr_end.is_lt()),
            query_advice(self.is_pad, Rotation::cur()),
        );
        cb.require_zero(
            "is_pad == 0 for write row",
            query_advice(self.is_pad, Rotation::next()),
        );
        assert(cb.names() =~= step_names());
        let ghost done = cb;
        let r = cb.gate(query_selector(self.q_step));
        assert forall|w: Witness, row: int| #[trigger]
            constraint_values(r@, w, row) == self.step_values(w, row) by {
            let x = self.row(w, row);
            let y = self.row(w, row + 1);
            let z = self.row(w, row + 2);
            assert(done.values(w, row) =~= step_polys(x, y, z));
            assert(constraint_values(r@, w, row) =~= self.step_values(w, row));
        }
        r
    }

    /// The constraints on a write row that accumulates.
    fn acc_constraints(&self, randomness: Expression) -> (r: Vec<Constraint>)
        ensures
            constraint_names(r@) == acc_names(),
            forall|w: Witness, row: int| #[trigger]
                constraint_values(r@, w, row) == self.acc_values(randomness, w, row),
    {
        let mut cb = ConstraintBuilder::new();
        cb.require_equal(
            "rows[2].value == rows[0].value * r + rows[1].value",
            query_advice(self.value, Rotation(2)),
            query_advice(self.value, Rotation::cur()).times(randomness).plus(
                query_advice(self.value, Rotation::next()),
            ),
        );
        assert(cb.names() =~= acc_names());
        let ghost done = cb;
        let r = cb.gate(
            and(
                and(
                    and(
                        and(query_fixed(self.q_enable), not(query_selector(self.q_step))),
                        not(query_advice(self.is_last, Rotation::cur())),
                    ),
                    self.copy_table.tag.value_equals(CopyDataType::RlcAcc, Rotation::cur()),
                ),
                not(query_advice(self.is_pad, Rotation::cur())),
            ),
        );
        assert forall|w: Witness, row: int| #[trigger]
            constraint_values(r@, w, row) == self.acc_values(randomness, w, row) by {
            let x = self.row(w, row);
            let y = self.row(w, row + 1);
            let z = self.row(w, row + 2);
            assert(done.values(w, row) =~= acc_polys(x, y, z, randomness.eval(w, row)));
            assert(constraint_values(r@, w, row) =~= self.acc_values(randomness, w, row));
        }
        r
    }

    /// What is looked up at a row as a memory operation.
    pub open spec fn memory_inputs(self, w: Witness, row: int) -> Seq<int> {
        let x = self.row(w, row);
        switched(memory_switch(x), memory_record(x))
    }

    /// What is looked up at a row as a write to a log.
    pub open spec fn tx_log_inputs(self, w: Witness, row: int) -> Seq<int> {
        let x = self.row(w, row);
        switched(tx_log_switch(x), tx_log_record(x))
    }

    /// What is looked up at a row as a byte of a bytecode.
    pub open spec fn bytecode_inputs(self, w: Witness, row: int) -> Seq<int> {
        let x = self.row(w, row);
        switched(bytecode_switch(x), bytecode_record(x))
    }

    /// What is looked up at a row as a byte of calldata.
    pub open spec fn calldata_inputs(self, w: Witness, row: int) -> Seq<int> {
        let x = self.row(w, row);
        switched(calldata_switch(x), calldata_record(x))
    }

    fn memory_pairs(&self, rw_table: &LookupTable) -> (r: Vec<(Expression, Expression)>)
        ensures
            lookup_tables(r@) == paired(rw_table.exprs@, 11),
            forall|w: Witness, row: int| #[trigger]
                lookup_inputs(r@, w, row) == paired(
                    self.memory_inputs(w, row),
                    rw_table.exprs@.len() as int,
                ),
    {
        let t = self.copy_table;
        let cond = query_fixed(self.q_enable).times(
            t.tag.value_equals(CopyDataType::Memory, Rotation::cur()),
        ).times(not(query_advice(self.is_pad, Rotation::cur())));
        let mut args: Vec<Expression> = Vec::new();
        args.push(query_advice(t.rw_counter, Rotation::cur()));
        args.push(not(query_selector(self.q_step)));
        args.push(Expression::constant(3));
        args.push(query_advice(t.id, Rotation::cur()));
        args.push(query_advice(t.addr, Rotation::cur()));
        args.push(Expression::constant(0));
        args.push(Expression::constant(0));
        args.push(query_advice(self.value, Rotation::cur()));
        args.push(Expression::constant(0));
        args.push(Expression::constant(0));
        args.push(Expression::constant(0));
        let r = pair_up(cond, &args, rw_table);
        assert(lookup_tables(r@) =~= paired(rw_table.exprs@, 11));
        assert forall|w: Witness, row: int| #[trigger]
            lookup_inputs(r@, w, row) == paired(
                self.memory_inputs(w, row),
                rw_table.exprs@.len() as int,
            ) by {
            assert(lookup_inputs(r@, w, row) =~= paired(
                self.memory_inputs(w, row),
                rw_table.exprs@.len() as int,
            ));
        }
        r
    }

    fn tx_log_pairs(&self, rw_table: &LookupTable) -> (r: Vec<(Expression, Expression)>)
        ensures
            lookup_tables(r@) == paired(rw_table.exprs@, 11),
            forall|w: Witness, row: int| #[trigger]
                lookup_inputs(r@, w, row) == paired(
                    self.tx_log_inputs(w, row),
                    rw_table.exprs@.len() as int,
                ),
    {
        let t = self.copy_table;
        let cond = query_fixed(self.q_enable).times(
            t.tag.value_equals(CopyDataType::TxLog, Rotation::cur()),
        );
        let mut args: Vec<Expression> = Vec::new();
        args.push(query_advice(t.rw_counter, Rotation::cur()));
        args.push(Expression::constant(1));
        args.push(Expression::constant(11));
        args.push(query_advice(t.id, Rotation::cur()));
        args.push(query_advice(t.addr, Rotation::cur()));
        args.push(Expression::constant(0));
        args.push(Expression::constant(0));
        args.push(query_advice(self.value, Rotation::cur()));
        args.push(Expression::constant(0));
        args.push(Expression::constant(0));
        args.push(Expression::constant(0));
        let r = pair_up(cond, &args, rw_table);
        assert(lookup_tables(r@) =~= paired(rw_table.exprs@, 11));
        assert forall|w: Witness, row: int| #[trigger]
            lookup_inputs(r@, w, row) == paired(
                self.tx_log_inputs(w, row),
                rw_table.exprs@.len() as int,
            ) by {
            assert(lookup_inputs(r@, w, row) =~= paired(
                self.tx_log_inputs(w, row),
                rw_table.exprs@.len() as int,
            ));
        }
        r
    }

    fn bytecode_pairs(&self, bytecode_table: &LookupTable) -> (r: Vec<(Expression, Expression)>)
        ensures
            lookup_tables(r@) == paired(bytecode_table.exprs@, 5),
            forall|w: Witness, row: int| #[trigger]
                lookup_inputs(r@, w, row) == paired(
                    self.bytecode_inputs(w, row),
                    bytecode_table.exprs@.len() as int,
                ),
    {
        let t = self.copy_table;
        let cond = query_fixed(self.q_enable).times(
            t.tag.value_equals(CopyDataType::Bytecode, Rotation::cur()),
        ).times(not(query_advice(self.is_pad, Rotation::cur())));
        let mut args: Vec<Expression> = Vec::new();
        args.push(query_advice(t.id, Rotation::cur()));
        args.push(Expression::constant(1));
        args.push(query_advice(t.addr, Rotation::cur()));
        args.push(query_advice(self.is_code, Rotation::cur()));
        args.push(query_advice(self.value, Rotation::cur()));
        let r = pair_up(cond, &args, bytecode_table);
        assert(lookup_tables(r@) =~= paired(bytecode_table.exprs@, 5));
        assert forall|w: Witness, row: int| #[trigger]
            lookup_inputs(r@, w, row) == paired(
                self.bytecode_inputs(w, row),
                bytecode_table.exprs@.len() as int,
            ) by {
            assert(lookup_inputs(r@, w, row) =~= paired(
                self.bytecode_inputs(w, row),
                bytecode_table.exprs@.len() as int,
            ));
        }
        r
    }

    fn calldata_pairs(&self, tx_table: &LookupTable) -> (r: Vec<(Expression, Expression)>)
        ensures
            lookup_tables(r@) == paired(tx_table.exprs@, 4),
            forall|w: Witness, row: int| #[trigger]
                lookup_inputs(r@, w, row) == paired(
                    self.calldata_inputs(w, row),
                    tx_table.exprs@.len() as int,
                ),
    {
        let t = self.copy_table;
        let cond = query_fixed(self.q_enable).times(
            t.tag.value_equals(CopyDataType::TxCalldata, Rotation::cur()),
        ).times(not(query_advice(self.is_pad, Rotation::cur())));
        let mut args: Vec<Expression> = Vec::new();
        args.push(query_advice(t.id, Rotation::cur()));
        args.push(Expression::constant(11));
        args.push(query_advice(t.addr, Rotation::cur()));
        args.push(query_advice(self.value, Rotation::cur()));
        let r = pair_up(cond, &args, tx_table);
        assert(lookup_tables(r@) =~= paired(tx_table.exprs@, 4));
        assert forall|w: Witness, row: int| #[trigger]
            lookup_inputs(r@, w, row) == paired(
                self.calldata_inputs(w, row),
                tx_table.exprs@.len() as int,
            ) by {
            assert(lookup_inputs(r@, w, row) =~= paired(
                self.calldata_inputs(w, row),
                tx_table.exprs@.len() as int,
            ));
        }
        r
    }

    /// Whether `after` is `before` with the gates of the copy circuit.
    pub open spec fn adds_copy_gates(
        self,
        randomness: Expression,
        before: ConstraintSystem,
        after: ConstraintSystem,
    ) -> bool {
        &&& after.adds_gates(before, 4)
        &&& after.added_gate(before, 0).is(
            "lt gate"@,
            seq![""@, ""@],
            |w: Witness, row: int| self.lt_values(w, row),
        )
        &&& after.added_gate(before, 1).is(
            "verify row"@,
            row_names(),
            |w: Witness, row: int| self.row_values(w, row),
        )
        &&& after.added_gate(before, 2).is(
            "verify step (q_step == 1)"@,
            step_names(),
            |w: Witness, row: int| self.step_values(w, row),
        )
        &&& after.added_gate(before, 3).is(
            "verify_step (q_step == 0)"@,
            acc_names(),
            |w: Witness, row: int| self.acc_values(randomness, w, row),
        )
    }

    /// Whether `after` is `before` with the lookups of the copy circuit. A
    /// table with fewer columns than a record has is looked up on as many
    /// values as it has columns.
    pub open spec fn adds_copy_lookups(
        self,
        tx_table: Seq<Expression>,
        rw_table: Seq<Expression>,
        bytecode_table: Seq<Expression>,
        before: ConstraintSystem,
        after: ConstraintSystem,
    ) -> bool {
        &&& after.adds_lookups(before, 4)
        &&& after.added_lookup(before, 0).is(
            "Memory lookup"@,
            paired(rw_table, 11),
            |w: Witness, row: int| paired(self.memory_inputs(w, row), rw_table.len() as int),
        )
        &&& after.added_lookup(before, 1).is(
            "TxLog lookup"@,
            paired(rw_table, 11),
            |w: Witness, row: int| paired(self.tx_log_inputs(w, row), rw_table.len() as int),
        )
        &&& after.added_lookup(before, 2).is(
            "Bytecode lookup"@,
            paired(bytecode_table, 5),
            |w: Witness, row: int|
                paired(self.bytecode_inputs(w, row), bytecode_table.len() as int),
        )
        &&& after.added_lookup(before, 3).is(
            "Tx calldata lookup"@,
            paired(tx_table, 4),
            |w: Witness, row: int| paired(self.calldata_inputs(w, row), tx_table.len() as int),
        )
    }

    /// Configures the circuit: allocates its columns, constrains the read and
    /// write steps, and looks them up in the transaction table, the read-write
    /// table and the bytecode table.
    pub fn configure(
        meta: &mut ConstraintSystem,
        tx_table: &LookupTable,
        rw_table: &LookupTable,
        bytecode_table: &LookupTable,
        copy_table: CopyTable,
        q_enable: FixedColumn,
        randomness: Expression,
    ) -> (r: CopyCircuit)
        requires
            old(meta).num_advice + 13 <= usize::MAX,
            old(meta).num_selectors < usize::MAX,
        ensures
            r.copy_table == copy_table,
            r.q_enable == q_enable,
            r.q_step.index == old(meta).num_selectors,
            r.is_last.index == old(meta).num_advice,
            r.value.index == old(meta).num_advice + 1,
            r.is_code.index == old(meta).num_advice + 2,
            r.is_pad.index == old(meta).num_advice + 3,
            r.addr_lt_addr_end.lt.index == old(meta).num_advice + 4,
            forall|j: int|
                0 <= j < 8 ==> (#[trigger] r.addr_lt_addr_end.diff@[j]).index == old(
                    meta,
                ).num_advice + 5 + j,
            copy_table.is_allocated(old(meta).num_advice as int) ==> r.has_distinct_columns(),
            final(meta).num_advice == old(meta).num_advice + 13,
            final(meta).num_selectors == old(meta).num_selectors + 1,
            final(meta).num_fixed == old(meta).num_fixed,
            final(meta).num_instance == old(meta).num_instance,
            r.adds_copy_gates(randomness, *old(meta), *final(meta)),
            r.adds_copy_lookups(
                tx_table.exprs@,
                rw_table.exprs@,
                bytecode_table.exprs@,
                *old(meta),
                *final(meta),
            ),
    {
        let q_step = meta.complex_selector();
        let is_last = meta.advice_column();
        let value = meta.advice_column();
        let is_code = meta.advice_column();
        let is_pad = meta.advice_column();
        let addr_lt_addr_end = LtConfig::configure(
            meta,
            query_selector(q_step),
            query_advice(copy_table.addr, Rotation::cur()),
            query_advice(copy_table.src_addr_end, Rotation::cur()),
        );
        let config = CopyCircuit {
            q_step,
            is_last,
            value,
            is_pad,
            is_code,
            q_enable,
            copy_table,
            addr_lt_addr_end,
        };

        meta.create_gate("verify row", config.row_constraints());
        meta.create_gate("verify step (q_step == 1)", config.step_constraints());
        meta.create_gate("verify_step (q_step == 0)", config.acc_constraints(randomness));

        meta.lookup_any("Memory lookup", config.memory_pairs(rw_table));
        meta.lookup_any("TxLog lookup", config.tx_log_pairs(rw_table));
        meta.lookup_any("Bytecode lookup", config.bytecode_pairs(bytecode_table));
        meta.lookup_any("Tx calldata lookup", config.calldata_pairs(tx_table));
        assert(meta.gates@.take(old(meta).gates@.len() as int) =~= old(meta).gates@);
        assert(meta.lookups@.take(old(meta).lookups@.len() as int) =~= old(meta).lookups@);
        proof {
            if copy_table.is_allocated(old(meta).num_advice as int) {
                config.lemma_distinct_columns(old(meta).num_advice as int);
            }
        }
        config
    }
}

/// The first `limit` elements of a list, or all if it has fewer.
pub open spec fn paired<T>(s: Seq<T>, limit: int) -> Seq<T> {
    s.take(min_of(s.len() as int, limit))
}

/// Pairs the values of a record with the columns of a table, as far as both
/// reach, each value multiplied by the condition on which it is looked up.
fn pair_up(cond: Expression, args: &Vec<Expression>, table: &LookupTable) -> (r: Vec<
    (Expression, Expression),
>)
    ensures
        r@.len() == min_of(args@.len() as int, table.exprs@.len() as int),
        forall|i: int| 0 <= i < r@.len() ==> (#[trigger] r@[i]).1 == table.exprs@[i],
        forall|i: int, w: Witness, row: int|
            0 <= i < r@.len() ==> #[trigger] r@[i].0.eval(w, row) == cond.eval(w, row)
                * args@[i].eval(w, row),
{
    let mut r: Vec<(Expression, Expression)> = Vec::new();
    let n: usize = if args.len() < table.exprs.len() {
        args.len()
    } else {
        table.exprs.len()
    };
    for i in 0..n
        invariant
            n == min_of(args@.len() as int, table.exprs@.len() as int),
            r@.len() == i,
            forall|j: int| 0 <= j < i ==> (#[trigger] r@[j]).1 == table.exprs@[j],
            forall|j: int, w: Witness, row: int|
                0 <= j < i ==> #[trigger] r@[j].0.eval(w, row) == cond.eval(w, row)
                    * args@[j].eval(w, row),
    {
        let product = cond.clone().times(args[i].clone());
        let ghost before = r@;
        r.push((product, table.exprs[i].clone()));
        assert forall|j: int, w: Witness, row: int| 0 <= j < i + 1 implies #[trigger] r@[j].0.eval(
            w,
            row,
        ) == cond.eval(w, row) * args@[j].eval(w, row) by {
            if j < i {
                assert(r@[j] == before[j]);
                assert(before[j].0.eval(w, row) == cond.eval(w, row) * args@[j].eval(w, row));
            } else {
                assert(j == i);
                assert(r@[j].0 == product);
                assert(product.eval(w, row) == cond.eval(w, row) * args@[j].eval(w, row));
            }
        }
    }
    r
}

} // verus!
