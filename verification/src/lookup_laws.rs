//! What the lookups of the copy circuit look up, in terms of the cells.
use crate::binary_number::literal;
use crate::congruence::{congruent, lemma_congruent_sum};
use crate::constraint_system::{lookup_inputs, lookup_tables, ConstraintSystem};
use crate::copy_circuit::{paired, CopyCircuit};
use crate::copy_event::CopyDataType;
use crate::event_laws::law_type_bits;
use crate::expression::{Expression, Witness};
use crate::row::{
    bytecode_record, bytecode_switch, calldata_record, calldata_switch, lemma_product_of_bits,
    lemma_zero_product, memory_record, memory_switch, switched, tx_log_record, tx_log_switch, Row,
};
use vstd::prelude::*;

verus! {

/// Whether a row is one of the rows of a table.
pub open spec fn is_table_row(t: int, height: int) -> bool {
    0 <= t < height
}

/// One if a tag of bits is that of a type, and zero if it is not.
proof fn lemma_tag_is(x: Row, t: CopyDataType)
    requires
        x.tag[0] == 0 || x.tag[0] == 1,
        x.tag[1] == 0 || x.tag[1] == 1,
        x.tag[2] == 0 || x.tag[2] == 1,
    ensures
        x.tag_is(t) == (if (x.tag[0] == 1) == t.bits()[0] && (x.tag[1] == 1) == t.bits()[1] && (
        x.tag[2] == 1) == t.bits()[2] {
            1int
        } else {
            0int
        }),
{
    lemma_product_of_bits(
        literal(x.tag[0], t.bits()[0]),
        literal(x.tag[1], t.bits()[1]),
        literal(x.tag[2], t.bits()[2]),
    );
}

/// A record that is switched off is one of zeros, and one that is switched on
/// is looked up as it is.
proof fn lemma_switch(switch: int, record: Seq<int>, i: int)
    requires
        0 <= i < record.len(),
    ensures
        switch == 0 ==> switched(switch, record)[i] == 0,
        switch == 1 ==> switched(switch, record)[i] == record[i],
{
    if switch == 0 {
        lemma_zero_product(switch, record[i]);
    }
    if switch == 1 {
        assert(switch * record[i] == record[i]) by (nonlinear_arith)
            requires
                switch == 1,
        ;
    }
}

impl CopyCircuit {
    /// On a row in use with the tag of Memory, and no padding, the lookup in the
    /// read-write table is of the read of a read row and of the write of a write row,
    /// and on every other row of zeros.
    pub proof fn law_memory_lookup(
        self,
        tx_table: Seq<Expression>,
        rw_table: Seq<Expression>,
        bytecode_table: Seq<Expression>,
        before: ConstraintSystem,
        configured: ConstraintSystem,
        w: Witness,
        row: int,
        i: int,
    )
        requires
            self.adds_copy_lookups(tx_table, rw_table, bytecode_table, before, configured),
            (w.fixed)(self.q_enable.index as int, row) == 0 || (w.fixed)(
                self.q_enable.index as int,
                row,
            ) == 1,
            (w.selector)(self.q_step.index as int, row) == 0 || (w.selector)(
                self.q_step.index as int,
                row,
            ) == 1,
            forall|j: int|
                0 <= j < 3 ==> 0 <= (w.advice)(
                    (#[trigger] self.copy_table.tag.bits@[j]).index as int,
                    row,
                ) <= 1,
            0 <= i < 11,
            i < rw_table.len(),
        ensures
            ({
                let pairs = configured.lookups@[before.lookups@.len() as int + 0].pairs@;
                let in_use = (w.fixed)(self.q_enable.index as int, row) == 1;
                let tagged = {
                    &&& (w.advice)(self.copy_table.tag.bits@[0].index as int, row) == 0
                    &&& (w.advice)(self.copy_table.tag.bits@[1].index as int, row) == 1
                    &&& (w.advice)(self.copy_table.tag.bits@[2].index as int, row) == 0
                };
                let record = seq![
                    (w.advice)(self.copy_table.rw_counter.index as int, row),
                    if (w.selector)(self.q_step.index as int, row) == 1 {
                        0
                    } else {
                        1
                    },
                    3,
                    (w.advice)(self.copy_table.id.index as int, row),
                    (w.advice)(self.copy_table.addr.index as int, row),
                    0,
                    0,
                    (w.advice)(self.value.index as int, row),
                    0,
                    0,
                    0,
                ];
                &&& configured.lookups@.len() == before.lookups@.len() + 4
                &&& i < pairs.len() <= 11
                &&& pairs[i].1 == rw_table[i]
                &&& in_use && tagged && (w.advice)(self.is_pad.index as int, row) == 0 ==> pairs[i].0.eval(
                    w,
                    row,
                ) == record[i]
                &&& !in_use || !tagged || (w.advice)(self.is_pad.index as int, row) == 1 ==> pairs[i].0.eval(
                    w,
                    row,
                ) == 0
            }),
    {
        let lookup = configured.added_lookup(before, 0);
        let x = self.row(w, row);
        let bits = self.copy_table.tag.bits@;
        assert(0 <= (w.advice)(bits[0].index as int, row) <= 1);
        assert(0 <= (w.advice)(bits[1].index as int, row) <= 1);
        assert(0 <= (w.advice)(bits[2].index as int, row) <= 1);
        law_type_bits(CopyDataType::Memory);
        lemma_tag_is(x, CopyDataType::Memory);
        let tag = x.tag_is(CopyDataType::Memory);
        assert(tag == 0 || tag == 1);
        lemma_product_of_bits(x.q_enable, tag, 1);
        assert(x.q_enable * tag * 1 == x.q_enable * tag);
        let on = x.q_enable * tag;
        assert(on == 0 || on == 1);
        if on == 0 || x.is_pad == 1 {
            lemma_zero_product(on, 1 - x.is_pad);
        } else {
            assert(on * (1 - x.is_pad) == 1 - x.is_pad) by (nonlinear_arith)
                requires
                    on == 1,
            ;
        }
        assert(lookup_inputs(lookup.pairs@, w, row) == paired(
            self.memory_inputs(w, row),
            rw_table.len() as int,
        ));
        assert(lookup.pairs@.len() == lookup_tables(lookup.pairs@).len());
        assert(lookup_tables(lookup.pairs@)[i] == rw_table[i]);
        assert(lookup_inputs(lookup.pairs@, w, row)[i] == self.memory_inputs(w, row)[i]);
        lemma_switch(memory_switch(x), memory_record(x), i);
    }

    /// What a row in use with the tag of Memory reads or writes, unless it is padding, is
    /// recorded in the read-write table, column by column, where the lookups that
    /// `configure` adds hold.
    pub proof fn law_memory_is_recorded(
        self,
        tx_table: Seq<Expression>,
        rw_table: Seq<Expression>,
        bytecode_table: Seq<Expression>,
        before: ConstraintSystem,
        configured: ConstraintSystem,
        w: Witness,
        row: int,
        height: int,
    )
        requires
            self.adds_copy_lookups(tx_table, rw_table, bytecode_table, before, configured),
            forall|k: int|
                0 <= k < configured.lookups@.len() ==> (#[trigger] configured.lookups@[k]).holds(
                    w,
                    row,
                    height,
                ),
            (w.fixed)(self.q_enable.index as int, row) == 1,
            (w.selector)(self.q_step.index as int, row) == 0 || (w.selector)(
                self.q_step.index as int,
                row,
            ) == 1,
            (w.advice)(self.copy_table.tag.bits@[0].index as int, row) == 0,
            (w.advice)(self.copy_table.tag.bits@[1].index as int, row) == 1,
            (w.advice)(self.copy_table.tag.bits@[2].index as int, row) == 0,
            (w.advice)(self.is_pad.index as int, row) == 0,
        ensures
            ({
                let record = seq![
                    (w.advice)(self.copy_table.rw_counter.index as int, row),
                    if (w.selector)(self.q_step.index as int, row) == 1 {
                        0
                    } else {
                        1
                    },
                    3,
                    (w.advice)(self.copy_table.id.index as int, row),
                    (w.advice)(self.copy_table.addr.index as int, row),
                    0,
                    0,
                    (w.advice)(self.value.index as int, row),
                    0,
                    0,
                    0,
                ];
                exists|t: int| #[trigger]
                    is_table_row(t, height) && forall|i: int|
                        0 <= i < 11 && i < rw_table.len() ==> congruent(
                            #[trigger] rw_table[i].eval(w, t),
                            record[i],
                        )
            }),
    {
        let record = seq![
            (w.advice)(self.copy_table.rw_counter.index as int, row),
            if (w.selector)(self.q_step.index as int, row) == 1 {
                0
            } else {
                1
            },
            3,
            (w.advice)(self.copy_table.id.index as int, row),
            (w.advice)(self.copy_table.addr.index as int, row),
            0,
            0,
            (w.advice)(self.value.index as int, row),
            0,
            0,
            0,
        ];
        let n = before.lookups@.len() as int;
        let lookup = configured.lookups@[n + 0];
        assert(lookup == configured.added_lookup(before, 0));
        assert(lookup.holds(w, row, height));
        let t = choose|t: int| #[trigger] lookup.matches_row(w, row, t) && 0 <= t < height;
        assert(record.len() == 11);
        assert forall|i: int| 0 <= i < 11 && i < rw_table.len() implies congruent(
            #[trigger] rw_table[i].eval(w, t),
            record[i],
        ) by {
            self.law_memory_lookup(
                tx_table,
                rw_table,
                bytecode_table,
                before,
                configured,
                w,
                row,
                i,
            );
            assert(lookup.pairs@[i].0.eval(w, row) == record[i]);
            lemma_congruent_sum(record[i], rw_table[i].eval(w, t), 0, 0);
        }
        assert(is_table_row(t, height));
    }

    /// On a row in use with the tag of TxLog, the lookup in the
    /// read-write table is of a write to a log,
    /// and on every other row of zeros.
    pub proof fn law_log_lookup(
        self,
        tx_table: Seq<Expression>,
        rw_table: Seq<Expression>,
        bytecode_table: Seq<Expression>,
        before: ConstraintSystem,
        configured: ConstraintSystem,
        w: Witness,
        row: int,
        i: int,
    )
        requires
            self.adds_copy_lookups(tx_table, rw_table, bytecode_table, before, configured),
            (w.fixed)(self.q_enable.index as int, row) == 0 || (w.fixed)(
                self.q_enable.index as int,
                row,
            ) == 1,
            forall|j: int|
                0 <= j < 3 ==> 0 <= (w.advice)(
                    (#[trigger] self.copy_table.tag.bits@[j]).index as int,
                    row,
                ) <= 1,
            0 <= i < 11,
            i < rw_table.len(),
        ensures
            ({
                let pairs = configured.lookups@[before.lookups@.len() as int + 1].pairs@;
                let in_use = (w.fixed)(self.q_enable.index as int, row) == 1;
                let tagged = {
                    &&& (w.advice)(self.copy_table.tag.bits@[0].index as int, row) == 1
                    &&& (w.advice)(self.copy_table.tag.bits@[1].index as int, row) == 0
                    &&& (w.advice)(self.copy_table.tag.bits@[2].index as int, row) == 0
                };
                let record = seq![
                    (w.advice)(self.copy_table.rw_counter.index as int, row),
                    1,
                    11,
                    (w.advice)(self.copy_table.id.index as int, row),
                    (w.advice)(self.copy_table.addr.index as int, row),
                    0,
                    0,
                    (w.advice)(self.value.index as int, row),
                    0,
                    0,
                    0,
                ];
                &&& configured.lookups@.len() == before.lookups@.len() + 4
                &&& i < pairs.len() <= 11
                &&& pairs[i].1 == rw_table[i]
                &&& in_use && tagged ==> pairs[i].0.eval(
                    w,
                    row,
                ) == record[i]
                &&& !in_use || !tagged ==> pairs[i].0.eval(
                    w,
                    row,
                ) == 0
            }),
    {
        let lookup = configured.added_lookup(before, 1);
        let x = self.row(w, row);
        let bits = self.copy_table.tag.bits@;
        assert(0 <= (w.advice)(bits[0].index as int, row) <= 1);
        assert(0 <= (w.advice)(bits[1].index as int, row) <= 1);
        assert(0 <= (w.advice)(bits[2].index as int, row) <= 1);
        law_type_bits(CopyDataType::TxLog);
        lemma_tag_is(x, CopyDataType::TxLog);
        let tag = x.tag_is(CopyDataType::TxLog);
        assert(tag == 0 || tag == 1);
        lemma_product_of_bits(x.q_enable, tag, 1);
        assert(x.q_enable * tag * 1 == x.q_enable * tag);
        assert(lookup_inputs(lookup.pairs@, w, row) == paired(
            self.tx_log_inputs(w, row),
            rw_table.len() as int,
        ));
        assert(lookup.pairs@.len() == lookup_tables(lookup.pairs@).len());
        assert(lookup_tables(lookup.pairs@)[i] == rw_table[i]);
        assert(lookup_inputs(lookup.pairs@, w, row)[i] == self.tx_log_inputs(w, row)[i]);
        lemma_switch(tx_log_switch(x), tx_log_record(x), i);
    }

    /// What a row in use with the tag of TxLog writes is
    /// recorded in the read-write table, column by column, where the lookups that
    /// `configure` adds hold.
    pub proof fn law_log_is_recorded(
        self,
        tx_table: Seq<Expression>,
        rw_table: Seq<Expression>,
        bytecode_table: Seq<Expression>,
        before: ConstraintSystem,
        configured: ConstraintSystem,
        w: Witness,
        row: int,
        height: int,
    )
        requires
            self.adds_copy_lookups(tx_table, rw_table, bytecode_table, before, configured),
            forall|k: int|
                0 <= k < configured.lookups@.len() ==> (#[trigger] configured.lookups@[k]).holds(
                    w,
                    row,
                    height,
                ),
            (w.fixed)(self.q_enable.index as int, row) == 1,
            (w.advice)(self.copy_table.tag.bits@[0].index as int, row) == 1,
            (w.advice)(self.copy_table.tag.bits@[1].index as int, row) == 0,
            (w.advice)(self.copy_table.tag.bits@[2].index as int, row) == 0,
        ensures
            ({
                let record = seq![
                    (w.advice)(self.copy_table.rw_counter.index as int, row),
                    1,
                    11,
                    (w.advice)(self.copy_table.id.index as int, row),
                    (w.advice)(self.copy_table.addr.index as int, row),
                    0,
                    0,
                    (w.advice)(self.value.index as int, row),
                    0,
                    0,
                    0,
                ];
                exists|t: int| #[trigger]
                    is_table_row(t, height) && forall|i: int|
                        0 <= i < 11 && i < rw_table.len() ==> congruent(
                            #[trigger] rw_table[i].eval(w, t),
                            record[i],
                        )
            }),
    {
        let record = seq![
            (w.advice)(self.copy_table.rw_counter.index as int, row),
            1,
            11,
            (w.advice)(self.copy_table.id.index as int, row),
            (w.advice)(self.copy_table.addr.index as int, row),
            0,
            0,
            (w.advice)(self.value.index as int, row),
            0,
            0,
            0,
        ];
        let n = before.lookups@.len() as int;
        let lookup = configured.lookups@[n + 1];
        assert(lookup == configured.added_lookup(before, 1));
        assert(lookup.holds(w, row, height));
        let t = choose|t: int| #[trigger] lookup.matches_row(w, row, t) && 0 <= t < height;
        assert(record.len() == 11);
        assert forall|i: int| 0 <= i < 11 && i < rw_table.len() implies congruent(
            #[trigger] rw_table[i].eval(w, t),
            record[i],
        ) by {
            self.law_log_lookup(
                tx_table,
                rw_table,
                bytecode_table,
                before,
                configured,
                w,
                row,
                i,
            );
            assert(lookup.pairs@[i].0.eval(w, row) == record[i]);
            lemma_congruent_sum(record[i], rw_table[i].eval(w, t), 0, 0);
        }
        assert(is_table_row(t, height));
    }

    /// On a row in use with the tag of Bytecode, and no padding, the lookup in the
    /// bytecode table is of a byte of a bytecode,
    /// and on every other row of zeros.
    pub proof fn law_bytecode_lookup(
        self,
        tx_table: Seq<Expression>,
        rw_table: Seq<Expression>,
        bytecode_table: Seq<Expression>,
        before: ConstraintSystem,
        configured: ConstraintSystem,
        w: Witness,
        row: int,
        i: int,
    )
        requires
            self.adds_copy_lookups(tx_table, rw_table, bytecode_table, before, configured),
            (w.fixed)(self.q_enable.index as int, row) == 0 || (w.fixed)(
                self.q_enable.index as int,
                row,
            ) == 1,
            forall|j: int|
                0 <= j < 3 ==> 0 <= (w.advice)(
                    (#[trigger] self.copy_table.tag.bits@[j]).index as int,
                    row,
                ) <= 1,
            0 <= i < 5,
            i < bytecode_table.len(),
        ensures
            ({
                let pairs = configured.lookups@[before.lookups@.len() as int + 2].pairs@;
                let in_use = (w.fixed)(self.q_enable.index as int, row) == 1;
                let tagged = {
                    &&& (w.advice)(self.copy_table.tag.bits@[0].index as int, row) == 0
                    &&& (w.advice)(self.copy_table.tag.bits@[1].index as int, row) == 0
                    &&& (w.advice)(self.copy_table.tag.bits@[2].index as int, row) == 1
                };
                let record = seq![
                    (w.advice)(self.copy_table.id.index as int, row),
                    1,
                    (w.advice)(self.copy_table.addr.index as int, row),
                    (w.advice)(self.is_code.index as int, row),
                    (w.advice)(self.value.index as int, row),
                ];
                &&& configured.lookups@.len() == before.lookups@.len() + 4
                &&& i < pairs.len() <= 5
                &&& pairs[i].1 == bytecode_table[i]
                &&& in_use && tagged && (w.advice)(self.is_pad.index as int, row) == 0 ==> pairs[i].0.eval(
                    w,
                    row,
                ) == record[i]
                &&& !in_use || !tagged || (w.advice)(self.is_pad.index as int, row) == 1 ==> pairs[i].0.eval(
                    w,
                    row,
                ) == 0
            }),
    {
        let lookup = configured.added_lookup(before, 2);
        let x = self.row(w, row);
        let bits = self.copy_table.tag.bits@;
        assert(0 <= (w.advice)(bits[0].index as int, row) <= 1);
        assert(0 <= (w.advice)(bits[1].index as int, row) <= 1);
        assert(0 <= (w.advice)(bits[2].index as int, row) <= 1);
        law_type_bits(CopyDataType::Bytecode);
        lemma_tag_is(x, CopyDataType::Bytecode);
        let tag = x.tag_is(CopyDataType::Bytecode);
        assert(tag == 0 || tag == 1);
        lemma_product_of_bits(x.q_enable, tag, 1);
        assert(x.q_enable * tag * 1 == x.q_enable * tag);
        let on = x.q_enable * tag;
        assert(on == 0 || on == 1);
        if on == 0 || x.is_pad == 1 {
            lemma_zero_product(on, 1 - x.is_pad);
        } else {
            assert(on * (1 - x.is_pad) == 1 - x.is_pad) by (nonlinear_arith)
                requires
                    on == 1,
            ;
        }
        assert(lookup_inputs(lookup.pairs@, w, row) == paired(
            self.bytecode_inputs(w, row),
            bytecode_table.len() as int,
        ));
        assert(lookup.pairs@.len() == lookup_tables(lookup.pairs@).len());
        assert(lookup_tables(lookup.pairs@)[i] == bytecode_table[i]);
        assert(lookup_inputs(lookup.pairs@, w, row)[i] == self.bytecode_inputs(w, row)[i]);
        lemma_switch(bytecode_switch(x), bytecode_record(x), i);
    }

    /// What a row in use with the tag of Bytecode reads or writes, unless it is padding, is
    /// recorded in the bytecode table, column by column, where the lookups that
    /// `configure` adds hold.
    pub proof fn law_bytecode_is_recorded(
        self,
        tx_table: Seq<Expression>,
        rw_table: Seq<Expression>,
        bytecode_table: Seq<Expression>,
        before: ConstraintSystem,
        configured: ConstraintSystem,
        w: Witness,
        row: int,
        height: int,
    )
        requires
            self.adds_copy_lookups(tx_table, rw_table, bytecode_table, before, configured),
            forall|k: int|
                0 <= k < configured.lookups@.len() ==> (#[trigger] configured.lookups@[k]).holds(
                    w,
                    row,
                    height,
                ),
            (w.fixed)(self.q_enable.index as int, row) == 1,
            (w.advice)(self.copy_table.tag.bits@[0].index as int, row) == 0,
            (w.advice)(self.copy_table.tag.bits@[1].index as int, row) == 0,
            (w.advice)(self.copy_table.tag.bits@[2].index as int, row) == 1,
            (w.advice)(self.is_pad.index as int, row) == 0,
        ensures
            ({
                let record = seq![
                    (w.advice)(self.copy_table.id.index as int, row),
                    1,
                    (w.advice)(self.copy_table.addr.index as int, row),
                    (w.advice)(self.is_code.index as int, row),
                    (w.advice)(self.value.index as int, row),
                ];
                exists|t: int| #[trigger]
                    is_table_row(t, height) && forall|i: int|
                        0 <= i < 5 && i < bytecode_table.len() ==> congruent(
                            #[trigger] bytecode_table[i].eval(w, t),
                            record[i],
                        )
            }),
    {
        let record = seq![
            (w.advice)(self.copy_table.id.index as int, row),
            1,
            (w.advice)(self.copy_table.addr.index as int, row),
            (w.advice)(self.is_code.index as int, row),
            (w.advice)(self.value.index as int, row),
        ];
        let n = before.lookups@.len() as int;
        let lookup = configured.lookups@[n + 2];
        assert(lookup == configured.added_lookup(before, 2));
        assert(lookup.holds(w, row, height));
        let t = choose|t: int| #[trigger] lookup.matches_row(w, row, t) && 0 <= t < height;
        assert(record.len() == 5);
        assert forall|i: int| 0 <= i < 5 && i < bytecode_table.len() implies congruent(
            #[trigger] bytecode_table[i].eval(w, t),
            record[i],
        ) by {
            self.law_bytecode_lookup(
                tx_table,
                rw_table,
                bytecode_table,
                before,
                configured,
                w,
                row,
                i,
            );
            assert(lookup.pairs@[i].0.eval(w, row) == record[i]);
            lemma_congruent_sum(record[i], bytecode_table[i].eval(w, t), 0, 0);
        }
        assert(is_table_row(t, height));
    }

    /// On a row in use with the tag of TxCalldata, and no padding, the lookup in the
    /// transaction table is of a byte of calldata,
    /// and on every other row of zeros.
    pub proof fn law_calldata_lookup(
        self,
        tx_table: Seq<Expression>,
        rw_table: Seq<Expression>,
        bytecode_table: Seq<Expression>,
        before: ConstraintSystem,
        configured: ConstraintSystem,
        w: Witness,
        row: int,
        i: int,
    )
        requires
            self.adds_copy_lookups(tx_table, rw_table, bytecode_table, before, configured),
            (w.fixed)(self.q_enable.index as int, row) == 0 || (w.fixed)(
                self.q_enable.index as int,
                row,
            ) == 1,
            forall|j: int|
                0 <= j < 3 ==> 0 <= (w.advice)(
                    (#[trigger] self.copy_table.tag.bits@[j]).index as int,
                    row,
                ) <= 1,
            0 <= i < 4,
            i < tx_table.len(),
        ensures
            ({
                let pairs = configured.lookups@[before.lookups@.len() as int + 3].pairs@;
                let in_use = (w.fixed)(self.q_enable.index as int, row) == 1;
                let tagged = {
                    &&& (w.advice)(self.copy_table.tag.bits@[0].index as int, row) == 0
                    &&& (w.advice)(self.copy_table.tag.bits@[1].index as int, row) == 1
                    &&& (w.advice)(self.copy_table.tag.bits@[2].index as int, row) == 1
                };
                let record = seq![
                    (w.advice)(self.copy_table.id.index as int, row),
                    11,
                    (w.advice)(self.copy_table.addr.index as int, row),
                    (w.advice)(self.value.index as int, row),
                ];
                &&& configured.lookups@.len() == before.lookups@.len() + 4
                &&& i < pairs.len() <= 4
                &&& pairs[i].1 == tx_table[i]
                &&& in_use && tagged && (w.advice)(self.is_pad.index as int, row) == 0 ==> pairs[i].0.eval(
                    w,
                    row,
                ) == record[i]
                &&& !in_use || !tagged || (w.advice)(self.is_pad.index as int, row) == 1 ==> pairs[i].0.eval(
                    w,
                    row,
                ) == 0
            }),
    {
        let lookup = configured.added_lookup(before, 3);
        let x = self.row(w, row);
        let bits = self.copy_table.tag.bits@;
        assert(0 <= (w.advice)(bits[0].index as int, row) <= 1);
        assert(0 <= (w.advice)(bits[1].index as int, row) <= 1);
        assert(0 <= (w.advice)(bits[2].index as int, row) <= 1);
        law_type_bits(CopyDataType::TxCalldata);
        lemma_tag_is(x, CopyDataType::TxCalldata);
        let tag = x.tag_is(CopyDataType::TxCalldata);
        assert(tag == 0 || tag == 1);
        lemma_product_of_bits(x.q_enable, tag, 1);
        assert(x.q_enable * tag * 1 == x.q_enable * tag);
        let on = x.q_enable * tag;
        assert(on == 0 || on == 1);
        if on == 0 || x.is_pad == 1 {
            lemma_zero_product(on, 1 - x.is_pad);
        } else {
            assert(on * (1 - x.is_pad) == 1 - x.is_pad) by (nonlinear_arith)
                requires
                    on == 1,
            ;
        }
        assert(lookup_inputs(lookup.pairs@, w, row) == paired(
            self.calldata_inputs(w, row),
            tx_table.len() as int,
        ));
        assert(lookup.pairs@.len() == lookup_tables(lookup.pairs@).len());
        assert(lookup_tables(lookup.pairs@)[i] == tx_table[i]);
        assert(lookup_inputs(lookup.pairs@, w, row)[i] == self.calldata_inputs(w, row)[i]);
        lemma_switch(calldata_switch(x), calldata_record(x), i);
    }

    /// What a row in use with the tag of TxCalldata reads, unless it is padding, is
    /// recorded in the transaction table, column by column, where the lookups that
    /// `configure` adds hold.
    pub proof fn law_calldata_is_recorded(
        self,
        tx_table: Seq<Expression>,
        rw_table: Seq<Expression>,
        bytecode_table: Seq<Expression>,
        before: ConstraintSystem,
        configured: ConstraintSystem,
        w: Witness,
        row: int,
        height: int,
    )
        requires
            self.adds_copy_lookups(tx_table, rw_table, bytecode_table, before, configured),
            forall|k: int|
                0 <= k < configured.lookups@.len() ==> (#[trigger] configured.lookups@[k]).holds(
                    w,
                    row,
                    height,
                ),
            (w.fixed)(self.q_enable.index as int, row) == 1,
            (w.advice)(self.copy_table.tag.bits@[0].index as int, row) == 0,
            (w.advice)(self.copy_table.tag.bits@[1].index as int, row) == 1,
            (w.advice)(self.copy_table.tag.bits@[2].index as int, row) == 1,
            (w.advice)(self.is_pad.index as int, row) == 0,
        ensures
            ({
                let record = seq![
                    (w.advice)(self.copy_table.id.index as int, row),
                    11,
                    (w.advice)(self.copy_table.addr.index as int, row),
                    (w.advice)(self.value.index as int, row),
                ];
                exists|t: int| #[trigger]
                    is_table_row(t, height) && forall|i: int|
                        0 <= i < 4 && i < tx_table.len() ==> congruent(
                            #[trigger] tx_table[i].eval(w, t),
                            record[i],
                        )
            }),
    {
        let record = seq![
            (w.advice)(self.copy_table.id.index as int, row),
            11,
            (w.advice)(self.copy_table.addr.index as int, row),
            (w.advice)(self.value.index as int, row),
        ];
        let n = before.lookups@.len() as int;
        let lookup = configured.lookups@[n + 3];
        assert(lookup == configured.added_lookup(before, 3));
        assert(lookup.holds(w, row, height));
        let t = choose|t: int| #[trigger] lookup.matches_row(w, row, t) && 0 <= t < height;
        assert(record.len() == 4);
        assert forall|i: int| 0 <= i < 4 && i < tx_table.len() implies congruent(
            #[trigger] tx_table[i].eval(w, t),
            record[i],
        ) by {
            self.law_calldata_lookup(
                tx_table,
                rw_table,
                bytecode_table,
                before,
                configured,
                w,
                row,
                i,
            );
            assert(lookup.pairs@[i].0.eval(w, row) == record[i]);
            lemma_congruent_sum(record[i], tx_table[i].eval(w, t), 0, 0);
        }
        assert(is_table_row(t, height));
    }
}

} // verus!
