//! A block that is assigned satisfies the constraints.
use crate::assigned_rows::{blank_row, block_row, lemma_step_of, lemma_step_of_place, step_of};
use crate::assignment::block_rows;
use crate::binary_number::{
    bit_gate_values, bits_equal, bits_value, literal, range_gate_values,
};
use crate::constraint_builder::or_value;
use crate::constraint_system::{
    all_vanish, lookup_inputs, lookup_tables, ConstraintSystem, Lookup,
};
use crate::copy_circuit::{paired, CopyCircuit};
use crate::copy_event::{min_of, CopyDataType, CopyEvent};
use crate::copy_table::bit;
use crate::expression::{Expression, Witness};
use crate::field::modulus;
use crate::less_than::{
    byte_of, bytes_value, law_comparison_is_satisfied, lt_diff, lt_gate_values, lt_range,
};
use crate::region::{advice_cell, selector_enabled, Write};
use crate::rlc::accumulate;
use crate::row::{
    acc_polys, acc_switch, bytecode_record, bytecode_switch, calldata_record, calldata_switch,
    lemma_product_of_bits, lemma_tag_bits, lemma_zero_product, memory_record, memory_switch,
    row_polys, step_polys, switched, tx_log_record, tx_log_switch, type_tag, Row,
};
use vstd::arithmetic::div_mod::{
    lemma_fundamental_div_mod, lemma_mod_multiples_basic, lemma_small_mod,
};
use vstd::arithmetic::mul::lemma_mul_is_commutative;
use vstd::prelude::*;

verus! {

/// Values that are all zero vanish, whatever they are multiplied by.
proof fn lemma_zeros_vanish(selector: int, values: Seq<int>)
    requires
        forall|i: int| 0 <= i < values.len() ==> #[trigger] values[i] == 0,
    ensures
        all_vanish(switched(selector, values)),
{
    assert forall|i: int| 0 <= i < values.len() implies #[trigger] switched(selector, values)[i]
        % modulus() == 0 by {
        lemma_zero_product(selector, values[i]);
    }
}

/// Values that are switched off vanish.
proof fn lemma_switched_off(selector: int, values: Seq<int>)
    requires
        selector == 0,
    ensures
        all_vanish(switched(selector, values)),
{
    assert forall|i: int| 0 <= i < values.len() implies #[trigger] switched(selector, values)[i]
        % modulus() == 0 by {
        lemma_zero_product(selector, values[i]);
    }
}

impl CopyEvent {
    /// The read-write counter moves by one on the operations on memory and
    /// logs, but for reads beyond the source.
    pub proof fn law_rw_counter_moves(self, step: int)
        requires
            self.well_formed(),
            0 <= step < self.rows(),
        ensures
            self.rw_increase(step + 1) == self.rw_increase(step) + bit(
                (self.tag_at(step) is Memory || self.tag_at(step) is TxLog) && !self.is_pad_at(
                    step,
                ),
            ),
    {
    }

    /// What a row of the event counts as a read-write operation.
    proof fn lemma_rw_diff(self, step: int, randomness: int)
        ensures
            self.row_at(step, randomness).rw_diff() == bit(
                (self.tag_at(step) is Memory || self.tag_at(step) is TxLog) && !self.is_pad_at(
                    step,
                ),
            ),
    {
        lemma_tag_bits(self.tag_at(step), CopyDataType::Memory);
        lemma_tag_bits(self.tag_at(step), CopyDataType::TxLog);
        let x = self.row_at(step, randomness);
        let memory = x.tag_is(CopyDataType::Memory);
        let log = x.tag_is(CopyDataType::TxLog);
        lemma_product_of_bits(1 - memory, 1 - log, 1);
        lemma_product_of_bits(or_value(memory, log), 1 - x.is_pad, 1);
    }

    /// The rows of an event satisfy the constraints on every row.
    proof fn lemma_row_polys(self, step: int, randomness: int, y: Row, z: Row)
        requires
            self.well_formed(),
            0 <= step < self.rows(),
            step + 1 < self.rows() ==> y == self.row_at(step + 1, randomness),
            step + 1 == self.rows() ==> y.is_last == 0,
            step + 2 < self.rows() ==> z == self.row_at(step + 2, randomness),
        ensures
            forall|i: int|
                0 <= i < 13 ==> #[trigger] row_polys(self.row_at(step, randomness), y, z)[i] == 0,
    {
        let x = self.row_at(step, randomness);
        let not_last_two_rows = 1 - x.is_last - y.is_last;
        let not_last = 1 - x.is_last;
        lemma_zero_product(x.is_first, 1 - x.is_first);
        lemma_zero_product(x.is_last, 1 - x.is_last);
        lemma_zero_product(1 - x.q_step, x.is_first);
        lemma_zero_product(x.is_last, x.q_step);
        lemma_tag_bits(self.tag_at(step), CopyDataType::RlcAcc);
        lemma_tag_bits(self.tag_at(step + 2), CopyDataType::RlcAcc);
        lemma_zero_product(not_last_two_rows, x.id - z.id);
        lemma_zero_product(not_last_two_rows, bits_value(x.tag) - bits_value(z.tag));
        lemma_zero_product(not_last_two_rows, x.addr + 1 - z.addr);
        lemma_zero_product(not_last_two_rows, x.src_addr_end - z.src_addr_end);
        self.lemma_rw_diff(step, randomness);
        self.law_rw_counter_moves(step);
        lemma_zero_product(not_last, x.rw_counter + x.rw_diff() - y.rw_counter);
        lemma_zero_product(not_last, x.rwc_inc_left - x.rw_diff() - y.rwc_inc_left);
        lemma_zero_product(not_last, x.rlc_acc - y.rlc_acc);
        lemma_zero_product(x.is_last, x.rwc_inc_left - x.rw_diff());
        assert(self.values().take(self.values().len() as int) =~= self.values());
        let at_end = x.is_last * x.tag_is(CopyDataType::RlcAcc);
        lemma_product_of_bits(x.is_last, x.tag_is(CopyDataType::RlcAcc), 1);
        lemma_zero_product(at_end, x.value - x.rlc_acc);
    }
}

impl CopyEvent {
    /// The first byte that is accumulated is accumulated as it is.
    proof fn lemma_first_value(self, randomness: int)
        requires
            self.bytes@.len() > 0,
        ensures
            self.value_at(1, randomness) == self.value_at(0, randomness),
    {
        let first = self.values().take(1);
        assert(first.drop_last() =~= Seq::<u8>::empty());
        reveal_with_fuel(accumulate, 2);
        lemma_zero_product(0, randomness);
        assert(accumulate(first, randomness) == self.bytes@[0].0);
        lemma_small_mod(self.bytes@[0].0 as nat, modulus() as nat);
    }

    /// The rows of an event satisfy the constraints on a step.
    proof fn lemma_step_polys(self, step: int, randomness: int, y: Row, z: Row)
        requires
            self.well_formed(),
            self.padded_with_zeros(),
            0 <= step < self.rows(),
            self.is_read(step),
            y == self.row_at(step + 1, randomness),
            step + 2 < self.rows() ==> z == self.row_at(step + 2, randomness),
        ensures
            forall|i: int|
                0 <= i < 7 ==> #[trigger] step_polys(self.row_at(step, randomness), y, z)[i] == 0,
    {
        let x = self.row_at(step, randomness);
        lemma_zero_product(y.is_last, 1 - x.bytes_left);
        lemma_zero_product(1 - y.is_last, x.bytes_left - (z.bytes_left + 1));
        lemma_tag_bits(self.tag_at(step + 1), CopyDataType::RlcAcc);
        lemma_zero_product(1 - y.tag_is(CopyDataType::RlcAcc), x.value - y.value);
        if step == 0 {
            self.lemma_first_value(randomness);
        }
        lemma_zero_product(x.is_first, x.value - y.value);
        lemma_zero_product(x.is_pad, x.value);
    }

    /// The rows of an event satisfy the constraint on accumulation.
    proof fn lemma_acc_polys(self, step: int, randomness: int, challenge: int, y: Row, z: Row)
        requires
            self.well_formed(),
            0 <= step < self.rows(),
            step + 1 < self.rows() ==> y == self.row_at(step + 1, randomness),
            step + 2 < self.rows() ==> z == self.row_at(step + 2, randomness),
            (challenge - randomness) % modulus() == 0,
        ensures
            all_vanish(
                switched(
                    acc_switch(self.row_at(step, randomness)),
                    acc_polys(self.row_at(step, randomness), y, z, challenge),
                ),
            ),
    {
        let x = self.row_at(step, randomness);
        let tag = x.tag_is(CopyDataType::RlcAcc);
        lemma_tag_bits(self.tag_at(step), CopyDataType::RlcAcc);
        lemma_product_of_bits(x.q_enable, 1 - x.q_step, 1 - x.is_last);
        let outer = x.q_enable * (1 - x.q_step) * (1 - x.is_last);
        lemma_product_of_bits(outer, tag, 1 - x.is_pad);
        assert(acc_switch(x) == outer * tag * (1 - x.is_pad));
        let values = acc_polys(x, y, z, challenge);
        if acc_switch(x) == 0 {
            lemma_switched_off(acc_switch(x), values);
        } else {
            let next = self.bytes@[step / 2 + 1].0 as int;
            let so_far = self.values().take(step / 2 + 1);
            let longer = self.values().take(step / 2 + 2);
            let full = accumulate(so_far, randomness);
            assert(longer.drop_last() =~= so_far);
            assert((step + 2) / 2 + 1 == step / 2 + 2);
            assert(x.value == full % modulus());
            assert(y.value == next);
            assert(z.value == (full * randomness + next) % modulus());
            lemma_accumulated(full, randomness, challenge, next);
            assert(switched(acc_switch(x), values)[0] == values[0]);
        }
    }
}

/// A step of accumulation, between residues.
proof fn lemma_accumulated(full: int, randomness: int, challenge: int, next: int)
    requires
        (challenge - randomness) % modulus() == 0,
    ensures
        ((full * randomness + next) % modulus() - ((full % modulus()) * challenge + next))
            % modulus() == 0,
{
    let m = modulus();
    let a = full * randomness + next;
    let b = (full % m) * challenge + next;
    let d = full - full % m;
    lemma_fundamental_div_mod(full, m);
    lemma_fundamental_div_mod(challenge - randomness, m);
    let p = full / m;
    let q = (challenge - randomness) / m;
    assert(d == m * p);
    assert(challenge == randomness + m * q);
    assert(a - b == m * (p * randomness - (full % m) * q)) by (nonlinear_arith)
        requires
            a == full * randomness + next,
            b == (full % m) * challenge + next,
            full == m * p + full % m,
            challenge == randomness + m * q,
    ;
    lemma_fundamental_div_mod(a, m);
    assert(a % m - b == m * (p * randomness - (full % m) * q - a / m)) by (nonlinear_arith)
        requires
            a - b == m * (p * randomness - (full % m) * q),
            a == m * (a / m) + a % m,
    ;
    lemma_mod_multiples_basic(p * randomness - (full % m) * q - a / m, m);
    lemma_mul_is_commutative(m, p * randomness - (full % m) * q - a / m);
}

/// The rows behind a step of a block: the next steps of its event, as far as
/// there are, and after the last step a row that is not a last one.
proof fn lemma_following_rows(events: Seq<CopyEvent>, randomness: int, row: int)
    requires
        0 <= row < block_rows(events),
    ensures
        ({
            let (i, step) = step_of(events, row);
            let event = events[i];
            let y = block_row(events, randomness, row + 1);
            let z = block_row(events, randomness, row + 2);
            &&& step + 1 < event.rows() ==> y == event.row_at(step + 1, randomness)
            &&& step + 1 == event.rows() ==> y.is_last == 0
            &&& step + 2 < event.rows() ==> z == event.row_at(step + 2, randomness)
        }),
{
    lemma_step_of(events, row);
    let (i, step) = step_of(events, row);
    if step + 1 < events[i].rows() {
        lemma_step_of_place(events, i, step + 1);
    } else if row + 1 < block_rows(events) {
        lemma_step_of(events, row + 1);
        let (j, next) = step_of(events, row + 1);
        if next == events[j].rows() - 1 {
            assert(next > 0);
            lemma_step_of_place(events, j, next - 1);
            assert(step_of(events, row) == (j, next - 1));
        }
    }
    if step + 2 < events[i].rows() {
        lemma_step_of_place(events, i, step + 2);
    }
}

impl CopyCircuit {
    /// A block that is assigned satisfies, at every row, the constraints on
    /// the comparison, on rows, on steps, on accumulation and on the tag,
    /// provided that the bytes beyond the end of a source are zero and that
    /// the constraints refer to the challenge that the block is assigned with.
    pub proof fn law_assigned_block_satisfies_constraints(
        self,
        events: Seq<CopyEvent>,
        challenge: int,
        randomness: Expression,
        w: Witness,
        row: int,
    )
        requires
            self.has_distinct_columns(),
            forall|i: int|
                0 <= i < events.len() ==> (#[trigger] events[i]).well_formed()
                    && events[i].padded_with_zeros(),
            self.is_filled(events, challenge, w),
            (randomness.eval(w, row) - challenge) % modulus() == 0,
        ensures
            self.constraints_hold(randomness, w, row),
    {
        let x = self.row(w, row);
        let y = self.row(w, row + 1);
        let z = self.row(w, row + 2);
        self.law_assigned_rows(events, challenge, w, row);
        self.law_assigned_rows(events, challenge, w, row + 1);
        self.law_assigned_rows(events, challenge, w, row + 2);
        if 0 <= row < block_rows(events) {
            lemma_step_of(events, row);
            lemma_following_rows(events, challenge, row);
            let (i, step) = step_of(events, row);
            let event = events[i];
            event.lemma_row_polys(step, challenge, y, z);
            lemma_zeros_vanish(x.q_enable, row_polys(x, y, z));
            if event.is_read(step) {
                event.lemma_step_polys(step, challenge, y, z);
                lemma_zeros_vanish(x.q_step, step_polys(x, y, z));
                let source = event.src_addr + step / 2;
                law_comparison_is_satisfied(x.q_step, source, event.src_addr_end as int);
                assert(x.diff =~= Seq::new(
                    8,
                    |m: int| byte_of(lt_diff(source, event.src_addr_end as int), m),
                ));
            } else {
                lemma_switched_off(x.q_step, step_polys(x, y, z));
                lemma_comparison_off(x);
            }
            event.lemma_acc_polys(step, challenge, randomness.eval(w, row), y, z);
            lemma_tag_satisfied(x, event.tag_at(step));
        } else {
            self.law_idle_row_satisfies_constraints(randomness, w, row);
        }
    }

    /// A row that is not in use and no step satisfies all constraints, whatever
    /// it and the rows behind it hold, and looks nothing up.
    pub proof fn law_idle_row_satisfies_constraints(
        self,
        randomness: Expression,
        w: Witness,
        row: int,
    )
        requires
            self.row(w, row).q_enable == 0,
            self.row(w, row).q_step == 0,
        ensures
            self.constraints_hold(randomness, w, row),
            self.memory_inputs(w, row) == no_record(11),
            self.tx_log_inputs(w, row) == no_record(11),
            self.bytecode_inputs(w, row) == no_record(5),
            self.calldata_inputs(w, row) == no_record(4),
    {
        let x = self.row(w, row);
        let y = self.row(w, row + 1);
        let z = self.row(w, row + 2);
        lemma_switched_off(x.q_enable, row_polys(x, y, z));
        lemma_switched_off(x.q_step, step_polys(x, y, z));
        lemma_comparison_off(x);
        lemma_accumulation_off(x);
        lemma_switched_off(acc_switch(x), acc_polys(x, y, z, randomness.eval(w, row)));
        lemma_tag_off(x);
        let memory = x.tag_is(CopyDataType::Memory);
        let log = x.tag_is(CopyDataType::TxLog);
        let bytecode = x.tag_is(CopyDataType::Bytecode);
        let calldata = x.tag_is(CopyDataType::TxCalldata);
        lemma_zero_product(x.q_enable, memory);
        lemma_zero_product(x.q_enable, log);
        lemma_zero_product(x.q_enable, bytecode);
        lemma_zero_product(x.q_enable, calldata);
        lemma_zero_product(x.q_enable * memory, 1 - x.is_pad);
        lemma_zero_product(x.q_enable * bytecode, 1 - x.is_pad);
        lemma_zero_product(x.q_enable * calldata, 1 - x.is_pad);
        lemma_nothing_looked_up(memory_switch(x), memory_record(x));
        lemma_nothing_looked_up(tx_log_switch(x), tx_log_record(x));
        lemma_nothing_looked_up(bytecode_switch(x), bytecode_record(x));
        lemma_nothing_looked_up(calldata_switch(x), calldata_record(x));
    }

    /// A padding row at which no step is switched on satisfies all
    /// constraints, looks nothing up, and is not a last row, whatever was
    /// assigned before and whatever the other rows hold.
    pub proof fn law_padding_row_satisfies_constraints(
        self,
        before: Seq<Write>,
        randomness: Expression,
        w: Witness,
        row: int,
    )
        requires
            self.has_distinct_columns(),
            !selector_enabled(before, self.q_step.index as int, row),
            self.is_row_filled(before + self.padding_writes(row), w, row),
        ensures
            self.row(w, row) == (Row {
                lt: self.row(w, row).lt,
                diff: self.row(w, row).diff,
                ..blank_row(type_tag(CopyDataType::Memory))
            }),
            self.row(w, row).is_last == 0,
            self.constraints_hold(randomness, w, row),
            self.memory_inputs(w, row) == no_record(11),
            self.tx_log_inputs(w, row) == no_record(11),
            self.bytecode_inputs(w, row) == no_record(5),
            self.calldata_inputs(w, row) == no_record(4),
    {
        self.law_padding_row_cells(before, row);
        self.lemma_column_places();
        let x = self.row(w, row);
        let columns = self.advice_columns();
        let writes = before + self.padding_writes(row);
        assert forall|j: int| 0 <= j < 12 implies (w.advice)(
            (#[trigger] columns[j]).index as int,
            row,
        ) == 0 by {
            assert(advice_cell(writes, columns[j].index as int, row) == Some(0int));
        }
        assert forall|j: int| 0 <= j < 3 implies x.tag[j] == #[trigger] type_tag(
            CopyDataType::Memory,
        )[j] by {
            let column = self.copy_table.tag.bits@[j];
            assert(columns[12 + j] == column);
            assert(advice_cell(writes, column.index as int, row) == Some(
                type_tag(CopyDataType::Memory)[j],
            ));
        }
        assert(x.tag =~= type_tag(CopyDataType::Memory));
        assert(x == (Row {
            lt: x.lt,
            diff: x.diff,
            ..blank_row(type_tag(CopyDataType::Memory))
        }));
        self.law_idle_row_satisfies_constraints(randomness, w, row);
    }

    /// A block that is assigned to the columns of a constraint system
    /// satisfies the gates that `construct` and `configure` add to it.
    pub proof fn law_assigned_block_satisfies_gates(
        self,
        events: Seq<CopyEvent>,
        challenge: int,
        randomness: Expression,
        before: ConstraintSystem,
        constructed: ConstraintSystem,
        configured: ConstraintSystem,
        w: Witness,
        row: int,
    )
        requires
            self.copy_table.adds_tag_gates(self.q_enable, before, constructed),
            self.adds_copy_gates(randomness, constructed, configured),
            self.has_distinct_columns(),
            forall|i: int|
                0 <= i < events.len() ==> (#[trigger] events[i]).well_formed()
                    && events[i].padded_with_zeros(),
            self.is_filled(events, challenge, w),
            (randomness.eval(w, row) - challenge) % modulus() == 0,
            before.gates_hold(w, row),
        ensures
            configured.gates_hold(w, row),
    {
        self.law_assigned_block_satisfies_constraints(events, challenge, randomness, w, row);
        self.law_gates_are_the_constraints(randomness, before, constructed, configured, w, row);
    }
}

/// A record that is switched off is one of zeros.
proof fn lemma_nothing_looked_up(switch: int, record: Seq<int>)
    requires
        switch == 0,
    ensures
        switched(switch, record) == no_record(record.len() as int),
{
    assert forall|i: int| 0 <= i < record.len() implies #[trigger] switched(switch, record)[i]
        == 0 by {
        lemma_zero_product(switch, record[i]);
    }
    assert(switched(switch, record) =~= no_record(record.len() as int));
}

/// The tag of a type satisfies its constraints.
proof fn lemma_tag_satisfied(x: Row, t: CopyDataType)
    requires
        x.q_enable == 1,
        x.tag == type_tag(t),
    ensures
        forall|j: int|
            0 <= j < 3 ==> all_vanish(bit_gate_values(x.q_enable, #[trigger] x.tag[j])),
        all_vanish(range_gate_values(x.q_enable, x.tag)),
{
    assert forall|j: int| 0 <= j < 3 implies all_vanish(
        bit_gate_values(x.q_enable, #[trigger] x.tag[j]),
    ) by {
        lemma_product_of_bits(x.q_enable, x.tag[j], 1 - x.tag[j]);
    }
    let a = seq![false, false, false];
    let b = seq![true, true, false];
    let c = seq![true, true, true];
    lemma_product_of_bits(
        literal(x.tag[0], false),
        literal(x.tag[1], false),
        literal(x.tag[2], false),
    );
    lemma_product_of_bits(
        literal(x.tag[0], true),
        literal(x.tag[1], true),
        literal(x.tag[2], false),
    );
    lemma_product_of_bits(
        literal(x.tag[0], true),
        literal(x.tag[1], true),
        literal(x.tag[2], true),
    );
    lemma_zero_product(x.q_enable, bits_equal(x.tag, a));
    lemma_zero_product(x.q_enable, bits_equal(x.tag, b));
    lemma_zero_product(x.q_enable, bits_equal(x.tag, c));
}

/// A row that is not in use satisfies the constraints on the tag.
proof fn lemma_tag_off(x: Row)
    requires
        x.q_enable == 0,
    ensures
        forall|j: int|
            0 <= j < 3 ==> all_vanish(bit_gate_values(x.q_enable, #[trigger] x.tag[j])),
        all_vanish(range_gate_values(x.q_enable, x.tag)),
{
    assert forall|j: int| 0 <= j < 3 implies all_vanish(
        bit_gate_values(x.q_enable, #[trigger] x.tag[j]),
    ) by {
        lemma_zero_product(x.q_enable, x.tag[j]);
        lemma_zero_product(x.q_enable * x.tag[j], 1 - x.tag[j]);
    }
    lemma_zero_product(x.q_enable, bits_equal(x.tag, seq![false, false, false]));
    lemma_zero_product(x.q_enable, bits_equal(x.tag, seq![true, true, false]));
    lemma_zero_product(x.q_enable, bits_equal(x.tag, seq![true, true, true]));
}

/// A row that is no step satisfies the constraints on the comparison.
proof fn lemma_comparison_off(x: Row)
    requires
        x.q_step == 0,
    ensures
        all_vanish(lt_gate_values(x.q_step, x.addr, x.src_addr_end, x.lt, x.diff)),
{
    lemma_zero_product(
        x.q_step,
        x.addr - x.src_addr_end - bytes_value(x.diff) + x.lt * lt_range(),
    );
    lemma_zero_product(x.q_step, x.lt * (1 - x.lt));
}

/// A row that is not in use does not accumulate.
proof fn lemma_accumulation_off(x: Row)
    requires
        x.q_enable == 0,
    ensures
        acc_switch(x) == 0,
{
    let tag = x.tag_is(CopyDataType::RlcAcc);
    lemma_zero_product(x.q_enable, 1 - x.q_step);
    lemma_zero_product(x.q_enable * (1 - x.q_step), 1 - x.is_last);
    lemma_zero_product(x.q_enable * (1 - x.q_step) * (1 - x.is_last), tag);
    lemma_zero_product(x.q_enable * (1 - x.q_step) * (1 - x.is_last) * tag, 1 - x.is_pad);
}

/// Whether a row of a table holds a record, as far as the table has columns.
pub open spec fn holds_record(
    w: Witness,
    table: Seq<Expression>,
    record: Seq<int>,
    t: int,
) -> bool {
    forall|i: int|
        0 <= i < record.len() && i < table.len() ==> (#[trigger] record[i] - table[i].eval(w, t))
            % modulus() == 0
}

/// Whether one of the first `height` rows of a table holds a record.
pub open spec fn is_recorded(
    w: Witness,
    height: int,
    table: Seq<Expression>,
    record: Seq<int>,
) -> bool {
    exists|t: int| 0 <= t < height && #[trigger] holds_record(w, table, record, t)
}

/// A record of zeros.
pub open spec fn no_record(len: int) -> Seq<int> {
    Seq::new(len as nat, |i: int| 0int)
}

/// Whether the tables hold what a step of an event does: its operation on
/// memory or a log in the read-write table, the byte of a bytecode in the
/// bytecode table, and the byte of calldata in the transaction table.
pub open spec fn step_is_recorded(
    x: Row,
    t: CopyDataType,
    w: Witness,
    height: int,
    tx_table: Seq<Expression>,
    rw_table: Seq<Expression>,
    bytecode_table: Seq<Expression>,
) -> bool {
    &&& t is Memory && x.is_pad == 0 ==> is_recorded(w, height, rw_table, memory_record(x))
    &&& t is TxLog ==> is_recorded(w, height, rw_table, tx_log_record(x))
    &&& t is Bytecode && x.is_pad == 0 ==> is_recorded(
        w,
        height,
        bytecode_table,
        bytecode_record(x),
    )
    &&& t is TxCalldata && x.is_pad == 0 ==> is_recorded(
        w,
        height,
        tx_table,
        calldata_record(x),
    )
}

/// A lookup of a record, or of zeros where it is switched off, holds in a
/// table with that record or with a record of zeros.
proof fn lemma_lookup_holds(
    lookup: Lookup,
    columns: Seq<Expression>,
    switch: int,
    record: Seq<int>,
    w: Witness,
    height: int,
    row: int,
)
    requires
        lookup_tables(lookup.pairs@) == paired(columns, record.len() as int),
        lookup_inputs(lookup.pairs@, w, row) == paired(
            switched(switch, record),
            columns.len() as int,
        ),
        switch == 0 || switch == 1,
        switch == 1 ==> is_recorded(w, height, columns, record),
        switch == 0 ==> is_recorded(w, height, columns, no_record(record.len() as int)),
    ensures
        lookup.holds(w, row, height),
{
    let wanted = if switch == 1 {
        record
    } else {
        no_record(record.len() as int)
    };
    assert(is_recorded(w, height, columns, wanted));
    let t = choose|t: int| 0 <= t < height && #[trigger] holds_record(w, columns, wanted, t);
    assert(lookup.pairs@.len() == lookup_tables(lookup.pairs@).len());
    assert(lookup.pairs@.len() == min_of(columns.len() as int, record.len() as int));
    assert forall|i: int| 0 <= i < lookup.pairs@.len() implies (
    #[trigger] lookup.pairs@[i].0.eval(w, row) - lookup.pairs@[i].1.eval(w, t))
        % modulus() == 0 by {
        assert(lookup_tables(lookup.pairs@)[i] == columns[i]);
        assert(lookup_inputs(lookup.pairs@, w, row)[i] == switched(switch, record)[i]);
        if switch == 0 {
            lemma_zero_product(switch, record[i]);
        }
        assert(switched(switch, record)[i] == wanted[i]);
    }
    assert(lookup.matches_row(w, row, t));
}

impl CopyCircuit {
    /// A block that is assigned satisfies, at every row, the lookups that
    /// `configure` adds, provided that the tables hold what the steps of its
    /// events do, and records of zeros for the rows that look nothing up.
    pub proof fn law_assigned_block_satisfies_lookups(
        self,
        events: Seq<CopyEvent>,
        challenge: int,
        before: ConstraintSystem,
        configured: ConstraintSystem,
        tx_table: Seq<Expression>,
        rw_table: Seq<Expression>,
        bytecode_table: Seq<Expression>,
        w: Witness,
        height: int,
        row: int,
    )
        requires
            self.adds_copy_lookups(tx_table, rw_table, bytecode_table, before, configured),
            self.has_distinct_columns(),
            self.is_filled(events, challenge, w),
            forall|i: int, step: int|
                0 <= i < events.len() && 0 <= step < events[i].rows() ==> step_is_recorded(
                    #[trigger] events[i].row_at(step, challenge),
                    events[i].tag_at(step),
                    w,
                    height,
                    tx_table,
                    rw_table,
                    bytecode_table,
                ),
            is_recorded(w, height, rw_table, no_record(11)),
            is_recorded(w, height, bytecode_table, no_record(5)),
            is_recorded(w, height, tx_table, no_record(4)),
        ensures
            forall|i: int|
                0 <= i < 4 ==> (#[trigger] configured.added_lookup(before, i)).holds(
                    w,
                    row,
                    height,
                ),
    {
        let x = self.row(w, row);
        self.law_assigned_rows(events, challenge, w, row);
        let memory = x.tag_is(CopyDataType::Memory);
        let log = x.tag_is(CopyDataType::TxLog);
        let bytecode = x.tag_is(CopyDataType::Bytecode);
        let calldata = x.tag_is(CopyDataType::TxCalldata);
        if 0 <= row < block_rows(events) {
            lemma_step_of(events, row);
            let (i, step) = step_of(events, row);
            let t = events[i].tag_at(step);
            assert(x == events[i].row_at(step, challenge));
            lemma_tag_bits(t, CopyDataType::Memory);
            lemma_tag_bits(t, CopyDataType::TxLog);
            lemma_tag_bits(t, CopyDataType::Bytecode);
            lemma_tag_bits(t, CopyDataType::TxCalldata);
            lemma_product_of_bits(x.q_enable, memory, 1 - x.is_pad);
            lemma_product_of_bits(x.q_enable, log, 1);
            lemma_product_of_bits(x.q_enable, bytecode, 1 - x.is_pad);
            lemma_product_of_bits(x.q_enable, calldata, 1 - x.is_pad);
        } else {
            lemma_zero_product(x.q_enable, memory);
            lemma_zero_product(x.q_enable, log);
            lemma_zero_product(x.q_enable, bytecode);
            lemma_zero_product(x.q_enable, calldata);
            lemma_zero_product(x.q_enable * memory, 1 - x.is_pad);
            lemma_zero_product(x.q_enable * bytecode, 1 - x.is_pad);
            lemma_zero_product(x.q_enable * calldata, 1 - x.is_pad);
        }
        let lookups = (
            configured.added_lookup(before, 0),
            configured.added_lookup(before, 1),
            configured.added_lookup(before, 2),
            configured.added_lookup(before, 3),
        );
        let (m, l, b, c) = lookups;
        assert(lookup_inputs(m.pairs@, w, row) == paired(
            self.memory_inputs(w, row),
            rw_table.len() as int,
        ));
        lemma_lookup_holds(
            m,
            rw_table,
            memory_switch(x),
            memory_record(x),
            w,
            height,
            row,
        );
        assert(lookup_inputs(l.pairs@, w, row) == paired(
            self.tx_log_inputs(w, row),
            rw_table.len() as int,
        ));
        lemma_lookup_holds(
            l,
            rw_table,
            tx_log_switch(x),
            tx_log_record(x),
            w,
            height,
            row,
        );
        assert(lookup_inputs(b.pairs@, w, row) == paired(
            self.bytecode_inputs(w, row),
            bytecode_table.len() as int,
        ));
        lemma_lookup_holds(
            b,
            bytecode_table,
            bytecode_switch(x),
            bytecode_record(x),
            w,
            height,
            row,
        );
        assert(lookup_inputs(c.pairs@, w, row) == paired(
            self.calldata_inputs(w, row),
            tx_table.len() as int,
        ));
        lemma_lookup_holds(
            c,
            tx_table,
            calldata_switch(x),
            calldata_record(x),
            w,
            height,
            row,
        );
    }
}

} // verus!
