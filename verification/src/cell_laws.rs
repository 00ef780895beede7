//! What every cell of the copy circuit holds once a block is assigned, in terms
//! of the block's events.
use crate::assignment::{block_rows, cell_writes, lemma_block_rows_prefix};
use crate::copy_circuit::CopyCircuit;
use crate::copy_event::{CopyDataType, CopyEvent, NumberOrHash};
use crate::event_laws::{law_block_rows, law_type_bits};
use crate::expression::AdviceColumn;
use crate::field::modulus;
use crate::less_than::{byte_of, lt_diff};
use crate::region::{
    advice_cell, fixed_cell, selector_enabled, Annotation, Label, Write,
};
use crate::sum::{law_byte_of_number, lemma_sum_same, sum};
use vstd::arithmetic::div_mod::lemma_small_mod;
use vstd::arithmetic::power::pow;
use vstd::prelude::*;

verus! {

/// The first row of an event stands behind the rows of the events before it.
proof fn lemma_first_row(events: Seq<CopyEvent>, i: int)
    requires
        0 <= i <= events.len(),
    ensures
        block_rows(events.take(i)) == sum(|j: int| 2 * events[j].bytes@.len() as int, i),
{
    let before = events.take(i);
    law_block_rows(before);
    lemma_sum_same(
        |j: int| 2 * before[j].bytes@.len() as int,
        |j: int| 2 * events[j].bytes@.len() as int,
        i,
    );
}

/// A byte of the difference behind the comparison of two numbers of 64 bits.
proof fn lemma_comparison_byte(lhs: int, rhs: int, j: int)
    requires
        0 <= lhs < 0x1_0000_0000_0000_0000,
        0 <= rhs < 0x1_0000_0000_0000_0000,
        0 <= j,
    ensures
        byte_of(lt_diff(lhs, rhs), j) == ((if lhs < rhs {
            lhs - rhs + 0x1_0000_0000_0000_0000
        } else {
            lhs - rhs
        }) / pow(256, j as nat)) % 256,
{
    let n = if lhs < rhs {
        lhs - rhs + 0x1_0000_0000_0000_0000
    } else {
        lhs - rhs
    };
    lemma_small_mod(n as nat, modulus() as nat);
    law_byte_of_number(n, j);
}

impl CopyCircuit {
    /// The read row of byte `k` of event `i`, two rows for each byte of the
    /// events before it and of the bytes before it behind the first row. Every
    /// column of the circuit is assigned: the row is in use and a step, the
    /// value is the byte, and the counters count the operations of the event
    /// one by one.
    pub proof fn law_cells_of_a_read_row(
        self,
        events: Seq<CopyEvent>,
        randomness: int,
        i: int,
        k: int,
    )
        requires
            self.has_distinct_columns(),
            0 <= i < events.len(),
            events[i].well_formed(),
            0 <= k < events[i].bytes@.len(),
        ensures
            ({
                let writes = self.block_writes(events, randomness);
                let row = sum(|j: int| 2 * events[j].bytes@.len() as int, i) + 2 * k;
                let t = self.copy_table;
                let e = events[i];
                let n = e.bytes@.len() as int;
                &&& advice_cell(writes, t.is_first.index as int, row) == Some(
                    if k == 0 {
                        1int
                    } else {
                        0int
                    },
                )
                &&& advice_cell(writes, t.id.index as int, row) == Some(
                    match e.src_id {
                        NumberOrHash::Number(k) => k as int,
                        NumberOrHash::Hash(h) => sum(
                            |j: int| h@[31 - j] * pow(randomness, j as nat),
                            32,
                        ) % modulus(),
                    },
                )
                &&& advice_cell(writes, t.addr.index as int, row) == Some(e.src_addr + k)
                &&& advice_cell(writes, t.src_addr_end.index as int, row) == Some(e.src_addr_end as int)
                &&& advice_cell(writes, t.bytes_left.index as int, row) == Some(n - k)
                &&& advice_cell(writes, t.rlc_acc.index as int, row) == Some(
                    if e.dst_type == CopyDataType::RlcAcc {
                        sum(
                            |j: int| e.bytes@[j].0 * pow(randomness, (n - 1 - j) as nat),
                            n,
                        ) % modulus()
                    } else {
                        0
                    },
                )
                &&& advice_cell(writes, t.rw_counter.index as int, row) == Some(
                    e.rw_counter_start + sum(
                        |m: int|
                            if m % 2 == 0 {
                                if e.src_type == CopyDataType::Memory && e.src_addr + m / 2
                                    < e.src_addr_end {
                                    1
                                } else {
                                    0
                                }
                            } else {
                                if e.dst_type == CopyDataType::Memory || e.dst_type
                                    == CopyDataType::TxLog {
                                    1
                                } else {
                                    0
                                }
                            },
                        2 * k,
                    ),
                )
                &&& advice_cell(writes, t.rwc_inc_left.index as int, row) == Some(
                    sum(
                        |m: int|
                            if m % 2 == 0 {
                                if e.src_type == CopyDataType::Memory && e.src_addr + m / 2
                                    < e.src_addr_end {
                                    1
                                } else {
                                    0
                                }
                            } else {
                                if e.dst_type == CopyDataType::Memory || e.dst_type
                                    == CopyDataType::TxLog {
                                    1
                                } else {
                                    0
                                }
                            },
                        2 * n,
                    ) - sum(
                        |m: int|
                            if m % 2 == 0 {
                                if e.src_type == CopyDataType::Memory && e.src_addr + m / 2
                                    < e.src_addr_end {
                                    1
                                } else {
                                    0
                                }
                            } else {
                                if e.dst_type == CopyDataType::Memory || e.dst_type
                                    == CopyDataType::TxLog {
                                    1
                                } else {
                                    0
                                }
                            },
                        2 * k,
                    ),
                )
                &&& advice_cell(writes, t.tag.bits@[0].index as int, row) == Some(
                    if e.src_type == CopyDataType::TxLog || e.src_type == CopyDataType::RlcAcc {
                        1int
                    } else {
                        0int
                    },
                )
                &&& advice_cell(writes, t.tag.bits@[1].index as int, row) == Some(
                    if e.src_type == CopyDataType::Memory || e.src_type == CopyDataType::TxCalldata {
                        1int
                    } else {
                        0int
                    },
                )
                &&& advice_cell(writes, t.tag.bits@[2].index as int, row) == Some(
                    if e.src_type == CopyDataType::Bytecode || e.src_type == CopyDataType::TxCalldata
                        || e.src_type == CopyDataType::RlcAcc {
                        1int
                    } else {
                        0int
                    },
                )
                &&& advice_cell(writes, self.is_last.index as int, row) == Some(0int)
                &&& advice_cell(writes, self.value.index as int, row) == Some(e.bytes@[k].0 as int)
                &&& advice_cell(writes, self.is_pad.index as int, row) == Some(
                    if e.src_addr + k >= e.src_addr_end {
                        1int
                    } else {
                        0int
                    },
                )
                &&& advice_cell(writes, self.is_code.index as int, row) == Some(
                    if e.src_type == CopyDataType::Bytecode && e.bytes@[k].1 {
                        1int
                    } else {
                        0int
                    },
                )
                &&& advice_cell(writes, self.addr_lt_addr_end.lt.index as int, row) == Some(
                    if e.src_addr + k < e.src_addr_end {
                        1int
                    } else {
                        0int
                    },
                )
                &&& forall|j: int|
                    0 <= j < 8 ==> advice_cell(
                        writes,
                        (#[trigger] self.addr_lt_addr_end.diff@[j]).index as int,
                        row,
                    ) == Some(
                        ((if e.src_addr + k < e.src_addr_end {
                            e.src_addr + k - e.src_addr_end + 0x1_0000_0000_0000_0000
                        } else {
                            e.src_addr + k - e.src_addr_end
                        }) / pow(256, j as nat)) % 256,
                    )
                &&& fixed_cell(writes, self.q_enable.index as int, row) == Some(1int)
                &&& selector_enabled(writes, self.q_step.index as int, row)
            }),
    {
        let e = events[i];
        let n = e.bytes@.len() as int;
        lemma_first_row(events, i);
        self.lemma_assigned_step(events, randomness, i, 2 * k);
        self.lemma_column_places();
        e.law_read_row(k, randomness);
        e.law_rw_increase_counts_operations(2 * k);
        e.law_rw_increase_counts_operations(2 * n);
        law_type_bits(e.src_type);
        let columns = self.advice_columns();
        assert forall|j: int| 0 <= j < 8 implies advice_cell(
            self.block_writes(events, randomness),
            (#[trigger] self.addr_lt_addr_end.diff@[j]).index as int,
            block_rows(events.take(i)) + 2 * k,
        ) == Some(
            ((if e.src_addr + k < e.src_addr_end {
                e.src_addr + k - e.src_addr_end + 0x1_0000_0000_0000_0000
            } else {
                e.src_addr + k - e.src_addr_end
            }) / pow(256, j as nat)) % 256,
        ) by {
            assert(columns[16 + j] == self.addr_lt_addr_end.diff@[j]);
            lemma_comparison_byte(e.src_addr + k, e.src_addr_end as int, j);
        }
    }

    /// The write row of byte `k` of event `i`, behind its read row. The row is in
    /// use and no step, the value is the byte, or where bytes are accumulated
    /// the sum of the bytes so far, each times the power of the challenge for
    /// its distance; the end of the source, the bytes left and the comparison
    /// are not assigned.
    pub proof fn law_cells_of_a_write_row(
        self,
        events: Seq<CopyEvent>,
        randomness: int,
        i: int,
        k: int,
    )
        requires
            self.has_distinct_columns(),
            0 <= i < events.len(),
            events[i].well_formed(),
            0 <= k < events[i].bytes@.len(),
        ensures
            ({
                let writes = self.block_writes(events, randomness);
                let row = sum(|j: int| 2 * events[j].bytes@.len() as int, i) + 2 * k + 1;
                let t = self.copy_table;
                let e = events[i];
                let n = e.bytes@.len() as int;
                &&& advice_cell(writes, t.is_first.index as int, row) == Some(0int)
                &&& advice_cell(writes, t.id.index as int, row) == Some(
                    match e.dst_id {
                        NumberOrHash::Number(k) => k as int,
                        NumberOrHash::Hash(h) => sum(
                            |j: int| h@[31 - j] * pow(randomness, j as nat),
                            32,
                        ) % modulus(),
                    },
                )
                &&& advice_cell(writes, t.addr.index as int, row) == Some(
                    if e.dst_type == CopyDataType::TxLog {
                        e.dst_addr + k + 3 * 0x1_0000_0000 + e.log_id->0 * 0x1_0000_0000_0000
                    } else {
                        e.dst_addr + k
                    },
                )
                &&& advice_cell(writes, t.src_addr_end.index as int, row) is None
                &&& advice_cell(writes, t.bytes_left.index as int, row) is None
                &&& advice_cell(writes, t.rlc_acc.index as int, row) == Some(
                    if e.dst_type == CopyDataType::RlcAcc {
                        sum(
                            |j: int| e.bytes@[j].0 * pow(randomness, (n - 1 - j) as nat),
                            n,
                        ) % modulus()
                    } else {
                        0
                    },
                )
                &&& advice_cell(writes, t.rw_counter.index as int, row) == Some(
                    e.rw_counter_start + sum(
                        |m: int|
                            if m % 2 == 0 {
                                if e.src_type == CopyDataType::Memory && e.src_addr + m / 2
                                    < e.src_addr_end {
                                    1
                                } else {
                                    0
                                }
                            } else {
                                if e.dst_type == CopyDataType::Memory || e.dst_type
                                    == CopyDataType::TxLog {
                                    1
                                } else {
                                    0
                                }
                            },
                        2 * k + 1,
                    ),
                )
                &&& advice_cell(writes, t.rwc_inc_left.index as int, row) == Some(
                    sum(
                        |m: int|
                            if m % 2 == 0 {
                                if e.src_type == CopyDataType::Memory && e.src_addr + m / 2
                                    < e.src_addr_end {
                                    1
                                } else {
                                    0
                                }
                            } else {
                                if e.dst_type == CopyDataType::Memory || e.dst_type
                                    == CopyDataType::TxLog {
                                    1
                                } else {
                                    0
                                }
                            },
                        2 * n,
                    ) - sum(
                        |m: int|
                            if m % 2 == 0 {
                                if e.src_type == CopyDataType::Memory && e.src_addr + m / 2
                                    < e.src_addr_end {
                                    1
                                } else {
                                    0
                                }
                            } else {
                                if e.dst_type == CopyDataType::Memory || e.dst_type
                                    == CopyDataType::TxLog {
                                    1
                                } else {
                                    0
                                }
                            },
                        2 * k + 1,
                    ),
                )
                &&& advice_cell(writes, t.tag.bits@[0].index as int, row) == Some(
                    if e.dst_type == CopyDataType::TxLog || e.dst_type == CopyDataType::RlcAcc {
                        1int
                    } else {
                        0int
                    },
                )
                &&& advice_cell(writes, t.tag.bits@[1].index as int, row) == Some(
                    if e.dst_type == CopyDataType::Memory || e.dst_type == CopyDataType::TxCalldata {
                        1int
                    } else {
                        0int
                    },
                )
                &&& advice_cell(writes, t.tag.bits@[2].index as int, row) == Some(
                    if e.dst_type == CopyDataType::Bytecode || e.dst_type == CopyDataType::TxCalldata
                        || e.dst_type == CopyDataType::RlcAcc {
                        1int
                    } else {
                        0int
                    },
                )
                &&& advice_cell(writes, self.is_last.index as int, row) == Some(
                    if k == n - 1 {
                        1int
                    } else {
                        0int
                    },
                )
                &&& advice_cell(writes, self.value.index as int, row) == Some(
                    if e.dst_type == CopyDataType::RlcAcc {
                        sum(|j: int| e.bytes@[j].0 * pow(randomness, (k - j) as nat), k + 1)
                            % modulus()
                    } else {
                        e.bytes@[k].0 as int
                    },
                )
                &&& advice_cell(writes, self.is_pad.index as int, row) == Some(0int)
                &&& advice_cell(writes, self.is_code.index as int, row) == Some(
                    if e.dst_type == CopyDataType::Bytecode && e.bytes@[k].1 {
                        1int
                    } else {
                        0int
                    },
                )
                &&& advice_cell(writes, self.addr_lt_addr_end.lt.index as int, row) is None
                &&& forall|j: int|
                    0 <= j < 8 ==> advice_cell(
                        writes,
                        (#[trigger] self.addr_lt_addr_end.diff@[j]).index as int,
                        row,
                    ) is None
                &&& fixed_cell(writes, self.q_enable.index as int, row) == Some(1int)
                &&& !selector_enabled(writes, self.q_step.index as int, row)
            }),
    {
        let e = events[i];
        let n = e.bytes@.len() as int;
        lemma_first_row(events, i);
        self.lemma_assigned_step(events, randomness, i, 2 * k + 1);
        self.lemma_column_places();
        e.law_write_row(k, randomness);
        e.law_rw_increase_counts_operations(2 * k + 1);
        e.law_rw_increase_counts_operations(2 * n);
        law_type_bits(e.dst_type);
        let columns = self.advice_columns();
        assert forall|j: int| 0 <= j < 8 implies advice_cell(
            self.block_writes(events, randomness),
            (#[trigger] self.addr_lt_addr_end.diff@[j]).index as int,
            block_rows(events.take(i)) + 2 * k + 1,
        ) is None by {
            assert(columns[16 + j] == self.addr_lt_addr_end.diff@[j]);
        }
    }

    /// The two rows behind the events of a block are padding: not in use, no
    /// step, and zero but for the tag, which is that of memory.
    pub proof fn law_cells_of_a_padding_row(
        self,
        events: Seq<CopyEvent>,
        randomness: int,
        k: int,
    )
        requires
            self.has_distinct_columns(),
            0 <= k < 2,
        ensures
            ({
                let writes = self.block_writes(events, randomness);
                let rows = sum(
                    |j: int| 2 * events[j].bytes@.len() as int,
                    events.len() as int,
                );
                let row = rows + k;
                let t = self.copy_table;
                &&& advice_cell(writes, t.is_first.index as int, row) == Some(0int)
                &&& advice_cell(writes, t.id.index as int, row) == Some(0int)
                &&& advice_cell(writes, t.addr.index as int, row) == Some(0int)
                &&& advice_cell(writes, t.src_addr_end.index as int, row) == Some(0int)
                &&& advice_cell(writes, t.bytes_left.index as int, row) == Some(0int)
                &&& advice_cell(writes, t.rlc_acc.index as int, row) == Some(0int)
                &&& advice_cell(writes, t.rw_counter.index as int, row) == Some(0int)
                &&& advice_cell(writes, t.rwc_inc_left.index as int, row) == Some(0int)
                &&& advice_cell(writes, self.is_last.index as int, row) == Some(0int)
                &&& advice_cell(writes, self.value.index as int, row) == Some(0int)
                &&& advice_cell(writes, self.is_pad.index as int, row) == Some(0int)
                &&& advice_cell(writes, self.is_code.index as int, row) == Some(0int)
                &&& advice_cell(writes, t.tag.bits@[0].index as int, row) == Some(0int)
                &&& advice_cell(writes, t.tag.bits@[1].index as int, row) == Some(1int)
                &&& advice_cell(writes, t.tag.bits@[2].index as int, row) == Some(0int)
                &&& fixed_cell(writes, self.q_enable.index as int, row) == Some(0int)
                &&& !selector_enabled(writes, self.q_step.index as int, row)
            }),
    {
        law_block_rows(events);
        let row = block_rows(events) + k;
        let padding = self.padding_writes(row);
        let columns = self.advice_columns();
        self.law_padding_row_cells(seq![], row);
        assert(seq![] + padding =~= padding);
        self.lemma_column_places();
        self.lemma_assigned_elsewhere(events, randomness, row, self.q_enable.index as int);
        self.lemma_assigned_elsewhere(events, randomness, row, self.q_step.index as int);
        assert forall|j: int| 0 <= j < 12 implies advice_cell(
            self.block_writes(events, randomness),
            (#[trigger] columns[j]).index as int,
            row,
        ) == Some(0int) by {
            self.lemma_assigned_elsewhere(events, randomness, row, columns[j].index as int);
        }
        assert forall|j: int| 0 <= j < 3 implies advice_cell(
            self.block_writes(events, randomness),
            (#[trigger] self.copy_table.tag.bits@[j]).index as int,
            row,
        ) == Some(
            if j == 1 {
                1int
            } else {
                0int
            },
        ) by {
            let column = self.copy_table.tag.bits@[j].index as int;
            self.lemma_assigned_elsewhere(events, randomness, row, column);
            law_type_bits(CopyDataType::Memory);
        }
        assert(!selector_enabled(seq![], self.q_step.index as int, row));
    }

    /// Nothing else is assigned: no row but two for each byte and two more,
    /// and no column but those of the circuit.
    pub proof fn law_nothing_else_is_assigned(
        self,
        events: Seq<CopyEvent>,
        randomness: int,
        row: int,
        index: int,
    )
        ensures
            ({
                let writes = self.block_writes(events, randomness);
                let rows = sum(
                    |j: int| 2 * events[j].bytes@.len() as int,
                    events.len() as int,
                );
                let t = self.copy_table;
                let outside = row < 0 || row >= rows + 2;
                &&& outside || {
                    &&& index != t.is_first.index && index != t.id.index
                    &&& index != t.addr.index && index != t.src_addr_end.index
                    &&& index != t.bytes_left.index && index != t.rlc_acc.index
                    &&& index != t.rw_counter.index && index != t.rwc_inc_left.index
                    &&& index != self.is_last.index && index != self.value.index
                    &&& index != self.is_pad.index && index != self.is_code.index
                    &&& index != t.tag.bits@[0].index && index != t.tag.bits@[1].index
                    &&& index != t.tag.bits@[2].index
                    &&& index != self.addr_lt_addr_end.lt.index
                    &&& forall|j: int|
                        0 <= j < 8 ==> (#[trigger] self.addr_lt_addr_end.diff@[j]).index != index
                } ==> advice_cell(writes, index, row) is None
                &&& outside || index != self.q_enable.index ==> fixed_cell(
                    writes,
                    index,
                    row,
                ) is None
                &&& outside || index != self.q_step.index ==> !selector_enabled(
                    writes,
                    index,
                    row,
                )
            }),
    {
        law_block_rows(events);
        let rows = block_rows(events);
        lemma_block_rows_prefix(events, 0);
        if row < 0 || row >= rows + 2 {
            self.lemma_assigned_elsewhere(events, randomness, row, index);
        } else {
            self.lemma_other_columns(events, randomness, row, index);
            self.lemma_column_places();
            let columns = self.advice_columns();
            if advice_cell(self.block_writes(events, randomness), index, row) is Some {
                let j = choose|j: int| 0 <= j < 24 && (#[trigger] columns[j]).index == index;
                if j >= 16 {
                    assert(columns[j] == self.addr_lt_addr_end.diff@[j - 16]);
                }
            }
        }
    }
}

impl CopyCircuit {
    /// The column that a label names.
    pub open spec fn labelled_column(self, label: Label) -> AdviceColumn {
        match label {
            Label::IsFirst => self.copy_table.is_first,
            Label::Id => self.copy_table.id,
            Label::Addr => self.copy_table.addr,
            Label::SrcAddrEnd => self.copy_table.src_addr_end,
            Label::BytesLeft => self.copy_table.bytes_left,
            Label::RlcAcc => self.copy_table.rlc_acc,
            Label::RwCounter => self.copy_table.rw_counter,
            Label::RwcIncLeft => self.copy_table.rwc_inc_left,
            Label::IsLast => self.is_last,
            Label::Value => self.value,
            Label::IsPad => self.is_pad,
            Label::IsCode => self.is_code,
        }
    }

    /// Whether an assignment says of itself where it is made.
    pub open spec fn is_annotated(self, write: Write, of_event: bool) -> bool {
        match write {
            Write::Advice { annotation, column, .. } => match annotation {
                Annotation::AtRow(label) => of_event && column == self.labelled_column(label),
                Annotation::Assign(label) => !of_event && column == self.labelled_column(label),
                Annotation::QEnable => false,
                Annotation::Bit(j) => j < 3 && column == self.copy_table.tag.bits@[j as int],
                Annotation::Lt => column == self.addr_lt_addr_end.lt,
                Annotation::DiffByte(j) => j < 8 && column == self.addr_lt_addr_end.diff@[j as int],
            },
            Write::Fixed { annotation, column, .. } => annotation == Annotation::QEnable && column
                == self.q_enable,
            Write::Enable { selector, .. } => selector == self.q_step,
        }
    }

    proof fn lemma_cells_annotated(
        self,
        columns: Seq<AdviceColumn>,
        cells: Seq<(int, Label)>,
        is_read: bool,
        offset: int,
    )
        requires
            columns.len() == cells.len(),
            forall|j: int|
                0 <= j < cells.len() ==> #[trigger] columns[j] == self.labelled_column(cells[j].1),
        ensures
            forall|m: int|
                0 <= m < cell_writes(columns, cells, is_read, offset).len() ==> self.is_annotated(
                    #[trigger] cell_writes(columns, cells, is_read, offset)[m],
                    true,
                ),
        decreases cells.len(),
    {
        if cells.len() > 0 {
            self.lemma_cells_annotated(columns.drop_last(), cells.drop_last(), is_read, offset);
            assert(columns[cells.len() - 1] == self.labelled_column(cells.last().1));
            let before = cell_writes(columns.drop_last(), cells.drop_last(), is_read, offset);
            let all = cell_writes(columns, cells, is_read, offset);
            assert forall|m: int| 0 <= m < all.len() implies self.is_annotated(
                #[trigger] all[m],
                true,
            ) by {
                if m < before.len() {
                    assert(all[m] == before[m]);
                }
            }
        }
    }

    proof fn lemma_event_annotated(
        self,
        event: CopyEvent,
        randomness: int,
        steps: int,
        offset: int,
    )
        ensures
            forall|m: int|
                0 <= m < self.event_writes(event, randomness, steps, offset).len()
                    ==> self.is_annotated(
                    #[trigger] self.event_writes(event, randomness, steps, offset)[m],
                    true,
                ),
        decreases steps,
    {
        if steps > 0 {
            self.lemma_event_annotated(event, randomness, steps - 1, offset);
            let step = steps - 1;
            let is_read = event.is_read(step);
            self.lemma_cells_annotated(
                self.copy_table.column_list(),
                event.table_row(step, randomness),
                is_read,
                offset + step,
            );
            self.lemma_cells_annotated(
                self.column_list(),
                event.circuit_row(step, randomness),
                true,
                offset + step,
            );
            let before = self.event_writes(event, randomness, step, offset);
            let last = self.step_writes(event, randomness, step, offset + step);
            let all = self.event_writes(event, randomness, steps, offset);
            assert(all == before + last);
            assert forall|m: int| 0 <= m < last.len() implies self.is_annotated(
                #[trigger] last[m],
                true,
            ) by {}
            assert forall|m: int| 0 <= m < all.len() implies self.is_annotated(
                #[trigger] all[m],
                true,
            ) by {
                if m < before.len() {
                    assert(all[m] == before[m]);
                } else {
                    assert(all[m] == last[m - before.len()]);
                }
            }
        }
    }

    proof fn lemma_events_annotated(self, events: Seq<CopyEvent>, randomness: int)
        ensures
            forall|m: int|
                0 <= m < self.events_writes(events, randomness).len() ==> self.is_annotated(
                    #[trigger] self.events_writes(events, randomness)[m],
                    true,
                ),
        decreases events.len(),
    {
        if events.len() > 0 {
            self.lemma_events_annotated(events.drop_last(), randomness);
            self.lemma_event_annotated(
                events.last(),
                randomness,
                events.last().rows(),
                block_rows(events.drop_last()),
            );
            let before = self.events_writes(events.drop_last(), randomness);
            let last = self.event_writes(
                events.last(),
                randomness,
                events.last().rows(),
                block_rows(events.drop_last()),
            );
            let all = self.events_writes(events, randomness);
            assert forall|m: int| 0 <= m < all.len() implies self.is_annotated(
                #[trigger] all[m],
                true,
            ) by {
                if m < before.len() {
                    assert(all[m] == before[m]);
                } else {
                    assert(all[m] == last[m - before.len()]);
                }
            }
        }
    }

    /// Every assignment of a block says of itself where it is made: in a row of
    /// an event or in a padding row, by the name of its column, or as a bit of
    /// the tag, as a part of the comparison, or as the switch of the row.
    pub proof fn law_assignments_are_annotated(
        self,
        events: Seq<CopyEvent>,
        randomness: int,
        m: int,
    )
        requires
            0 <= m < self.block_writes(events, randomness).len(),
        ensures
            self.is_annotated(self.block_writes(events, randomness)[m], true)
                || self.is_annotated(self.block_writes(events, randomness)[m], false),
            m < self.block_writes(events, randomness).len() - 32 ==> self.is_annotated(
                self.block_writes(events, randomness)[m],
                true,
            ),
            m >= self.block_writes(events, randomness).len() - 32 ==> self.is_annotated(
                self.block_writes(events, randomness)[m],
                false,
            ),
    {
        self.lemma_events_annotated(events, randomness);
    }
}

} // verus!
