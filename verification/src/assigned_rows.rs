//! What the rows of the copy circuit hold once a block is assigned.
use crate::assignment::{block_rows, cell_write, cell_writes, left_empty, lemma_block_rows_prefix};
use crate::copy_circuit::CopyCircuit;
use crate::copy_event::{CopyDataType, CopyEvent};
use crate::copy_table::bit;
use crate::expression::{AdviceColumn, Witness};
use crate::less_than::{byte_of, lt_bit, lt_diff};
use crate::region::{
    advice_cell, advice_value, at_row, cell_value, fills_advice, fixed_cell,
    lemma_advice_filled, lemma_advice_only, lemma_advice_unfilled, lemma_at_row_concat,
    lemma_at_row_of_one, lemma_cells_at_row, lemma_cells_concat, moved, row_of,
    selector_enabled, Label,
    Write,
};
use crate::row::{type_tag, Row};
use vstd::prelude::*;

verus! {

impl CopyEvent {
    /// The row of a step. A write row has no end of the source, no number of
    /// bytes left and no comparison: those cells are zero.
    pub open spec fn row_at(self, step: int, randomness: int) -> Row {
        let table = self.table_row(step, randomness);
        let circuit = self.circuit_row(step, randomness);
        let is_read = self.is_read(step);
        let source = self.src_addr + step / 2;
        Row {
            q_enable: 1,
            q_step: bit(is_read),
            is_first: table[0].0,
            is_last: circuit[0].0,
            id: table[1].0,
            addr: table[2].0,
            src_addr_end: if is_read {
                table[3].0
            } else {
                0
            },
            bytes_left: if is_read {
                table[4].0
            } else {
                0
            },
            value: circuit[1].0,
            rlc_acc: table[5].0,
            is_code: circuit[3].0,
            is_pad: circuit[2].0,
            rw_counter: table[6].0,
            rwc_inc_left: table[7].0,
            tag: type_tag(self.tag_at(step)),
            lt: if is_read {
                lt_bit(source, self.src_addr_end as int)
            } else {
                0
            },
            diff: Seq::new(
                8,
                |j: int|
                    if is_read {
                        byte_of(lt_diff(source, self.src_addr_end as int), j)
                    } else {
                        0
                    },
            ),
        }
    }
}

/// A row of zeros, but for the tag.
pub open spec fn blank_row(tag: Seq<int>) -> Row {
    Row {
        q_enable: 0,
        q_step: 0,
        is_first: 0,
        is_last: 0,
        id: 0,
        addr: 0,
        src_addr_end: 0,
        bytes_left: 0,
        value: 0,
        rlc_acc: 0,
        is_code: 0,
        is_pad: 0,
        rw_counter: 0,
        rwc_inc_left: 0,
        tag,
        lt: 0,
        diff: Seq::new(8, |j: int| 0int),
    }
}

/// The row of a copy event at which a block's row stands: the event's index
/// and the step, for a row below `block_rows(events)`.
pub open spec fn step_of(events: Seq<CopyEvent>, row: int) -> (int, int)
    decreases events.len(),
{
    if events.len() == 0 {
        (0, 0)
    } else if row >= block_rows(events.drop_last()) {
        (events.len() - 1, row - block_rows(events.drop_last()))
    } else {
        step_of(events.drop_last(), row)
    }
}

/// The row that an assigned block has at a place: a step of a copy event, one
/// of the two padding rows behind the events, or nothing.
pub open spec fn block_row(events: Seq<CopyEvent>, randomness: int, row: int) -> Row {
    let rows = block_rows(events);
    if 0 <= row < rows {
        let (i, step) = step_of(events, row);
        events[i].row_at(step, randomness)
    } else if rows <= row < rows + 2 {
        blank_row(type_tag(CopyDataType::Memory))
    } else {
        blank_row(seq![0, 0, 0])
    }
}

/// Each row below `block_rows(events)` belongs to a step of an event.
pub proof fn lemma_step_of(events: Seq<CopyEvent>, row: int)
    requires
        0 <= row < block_rows(events),
    ensures
        ({
            let (i, step) = step_of(events, row);
            &&& 0 <= i < events.len()
            &&& 0 <= step < events[i].rows()
            &&& row == block_rows(events.take(i)) + step
        }),
    decreases events.len(),
{
    let before = events.drop_last();
    if row >= block_rows(before) {
        assert(events.take(events.len() - 1) =~= before);
    } else {
        lemma_step_of(before, row);
        let (i, step) = step_of(before, row);
        assert(before.take(i) =~= events.take(i));
    }
}

/// A row that is found from an event and a step is found back.
pub proof fn lemma_step_of_place(events: Seq<CopyEvent>, i: int, step: int)
    requires
        0 <= i < events.len(),
        0 <= step < events[i].rows(),
    ensures
        0 <= block_rows(events.take(i)) + step < block_rows(events),
        step_of(events, block_rows(events.take(i)) + step) == (i, step),
    decreases events.len(),
{
    let before = events.drop_last();
    if i == events.len() - 1 {
        assert(events.take(i) =~= before);
        lemma_block_rows_prefix(before, 0);
    } else {
        lemma_step_of_place(before, i, step);
        assert(before.take(i) =~= events.take(i));
        lemma_block_rows_prefix(events, events.len() - 1);
        assert(events.take(events.len() - 1) =~= before);
    }
}

impl CopyCircuit {
    /// Whether a witness holds at a row, in the columns of the circuit, what
    /// assignments fill in, and zero elsewhere.
    pub open spec fn is_row_filled(self, writes: Seq<Write>, w: Witness, row: int) -> bool {
        let columns = self.advice_columns();
        let q_enable = self.q_enable.index as int;
        let q_step = self.q_step.index as int;
        &&& forall|j: int|
            0 <= j < 24 ==> (w.advice)((#[trigger] columns[j]).index as int, row) == cell_value(
                advice_cell(writes, columns[j].index as int, row),
            )
        &&& (w.fixed)(q_enable, row) == cell_value(fixed_cell(writes, q_enable, row))
        &&& (w.selector)(q_step, row) == bit(selector_enabled(writes, q_step, row))
    }

    /// Whether a witness holds in the columns of the circuit what the
    /// assignment of a block fills in, and zero elsewhere.
    pub open spec fn is_filled(
        self,
        events: Seq<CopyEvent>,
        randomness: int,
        w: Witness,
    ) -> bool {
        let writes = self.block_writes(events, randomness);
        forall|row: int| #[trigger] self.is_row_filled(writes, w, row)
    }

    /// What a step puts into the advice column of a place in the list.
    pub open spec fn step_cell(
        self,
        event: CopyEvent,
        randomness: int,
        step: int,
        j: int,
    ) -> Option<int> {
        let is_read = event.is_read(step);
        let source = event.src_addr + step / 2;
        if j < 8 {
            let cell = event.table_row(step, randomness)[j];
            if left_empty(cell.1, is_read) {
                None
            } else {
                Some(cell.0)
            }
        } else if j < 12 {
            Some(event.circuit_row(step, randomness)[j - 8].0)
        } else if j < 15 {
            Some(bit(event.tag_at(step).bits()[j - 12]))
        } else if !is_read {
            None
        } else if j == 15 {
            Some(lt_bit(source, event.src_addr_end as int))
        } else {
            Some(byte_of(lt_diff(source, event.src_addr_end as int), j - 16))
        }
    }
}

/// The writes of cells are all made at one row, to columns of the list.
proof fn lemma_cell_writes_shape(
    columns: Seq<AdviceColumn>,
    cells: Seq<(int, Label)>,
    is_read: bool,
    offset: int,
)
    requires
        columns.len() == cells.len(),
    ensures
        forall|i: int|
            0 <= i < cell_writes(columns, cells, is_read, offset).len() ==> {
                let write = #[trigger] cell_writes(columns, cells, is_read, offset)[i];
                &&& write is Advice
                &&& row_of(write) == offset
            },
    decreases cells.len(),
{
    if cells.len() > 0 {
        lemma_cell_writes_shape(columns.drop_last(), cells.drop_last(), is_read, offset);
    }
}

/// A column that is not in the list is not filled.
proof fn lemma_cell_writes_none(
    columns: Seq<AdviceColumn>,
    cells: Seq<(int, Label)>,
    is_read: bool,
    offset: int,
    column: int,
)
    requires
        columns.len() == cells.len(),
        forall|j: int| 0 <= j < columns.len() ==> (#[trigger] columns[j]).index != column,
    ensures
        advice_cell(cell_writes(columns, cells, is_read, offset), column, offset) is None,
    decreases cells.len(),
{
    if cells.len() > 0 {
        let before = cell_writes(columns.drop_last(), cells.drop_last(), is_read, offset);
        lemma_cell_writes_none(columns.drop_last(), cells.drop_last(), is_read, offset, column);
        let write = cell_write(columns.last(), cells.last(), offset);
        assert(before.push(write).drop_last() =~= before);
    }
}

/// A column of the list is filled with its cell, unless it is left empty.
proof fn lemma_cell_writes_some(
    columns: Seq<AdviceColumn>,
    cells: Seq<(int, Label)>,
    is_read: bool,
    offset: int,
    j: int,
)
    requires
        columns.len() == cells.len(),
        0 <= j < cells.len(),
        forall|i: int|
            0 <= i < columns.len() && i != j ==> (#[trigger] columns[i]).index
                != columns[j].index,
    ensures
        advice_cell(
            cell_writes(columns, cells, is_read, offset),
            columns[j].index as int,
            offset,
        ) == (if left_empty(cells[j].1, is_read) {
            None
        } else {
            Some(cells[j].0)
        }),
    decreases cells.len(),
{
    let column = columns[j].index as int;
    let before = cell_writes(columns.drop_last(), cells.drop_last(), is_read, offset);
    let write = cell_write(columns.last(), cells.last(), offset);
    assert(before.push(write).drop_last() =~= before);
    if j == cells.len() - 1 {
        lemma_cell_writes_none(columns.drop_last(), cells.drop_last(), is_read, offset, column);
    } else {
        lemma_cell_writes_some(columns.drop_last(), cells.drop_last(), is_read, offset, j);
    }
}

impl CopyCircuit {
    /// The writes of a step are all made at its row.
    proof fn lemma_step_writes_shape(
        self,
        event: CopyEvent,
        randomness: int,
        step: int,
        offset: int,
    )
        ensures
            forall|i: int|
                0 <= i < self.step_writes(event, randomness, step, offset).len() ==> row_of(
                    #[trigger] self.step_writes(event, randomness, step, offset)[i],
                ) == offset,
    {
        let is_read = event.is_read(step);
        lemma_cell_writes_shape(
            self.copy_table.column_list(),
            event.table_row(step, randomness),
            is_read,
            offset,
        );
        lemma_cell_writes_shape(
            self.column_list(),
            event.circuit_row(step, randomness),
            true,
            offset,
        );
    }

    /// The writes of the first steps of an event, found by their rows.
    proof fn lemma_event_at_row(
        self,
        event: CopyEvent,
        randomness: int,
        steps: int,
        offset: int,
        row: int,
    )
        requires
            0 <= steps,
        ensures
            at_row(self.event_writes(event, randomness, steps, offset), row) == (if offset <= row
                < offset + steps {
                self.step_writes(event, randomness, row - offset, row)
            } else {
                seq![]
            }),
        decreases steps,
    {
        if steps > 0 {
            let before = self.event_writes(event, randomness, steps - 1, offset);
            let last = self.step_writes(event, randomness, steps - 1, offset + steps - 1);
            self.lemma_event_at_row(event, randomness, steps - 1, offset, row);
            self.lemma_step_writes_shape(event, randomness, steps - 1, offset + steps - 1);
            lemma_at_row_of_one(last, offset + steps - 1, row);
            lemma_at_row_concat(before, last, row);
            assert(at_row(before + last, row) =~= (if offset <= row < offset + steps {
                self.step_writes(event, randomness, row - offset, row)
            } else {
                seq![]
            }));
        }
    }

    /// The writes of a list of events, found by their rows.
    proof fn lemma_events_at_row(self, events: Seq<CopyEvent>, randomness: int, row: int)
        ensures
            at_row(self.events_writes(events, randomness), row) == (if 0 <= row < block_rows(
                events,
            ) {
                let (i, step) = step_of(events, row);
                self.step_writes(events[i], randomness, step, row)
            } else {
                seq![]
            }),
        decreases events.len(),
    {
        if events.len() > 0 {
            let before = events.drop_last();
            let start = block_rows(before);
            let rows = events.last().rows();
            lemma_block_rows_prefix(before, 0);
            self.lemma_events_at_row(before, randomness, row);
            self.lemma_event_at_row(events.last(), randomness, rows, start, row);
            let last = self.event_writes(events.last(), randomness, rows, start);
            lemma_at_row_concat(self.events_writes(before, randomness), last, row);
            if 0 <= row < start {
                lemma_step_of(before, row);
            }
            assert(at_row(self.events_writes(events, randomness), row) =~= (if 0 <= row
                < block_rows(events) {
                let (i, step) = step_of(events, row);
                self.step_writes(events[i], randomness, step, row)
            } else {
                seq![]
            }));
        }
    }

    /// The writes of a block, found by their rows.
    proof fn lemma_block_at_row(self, events: Seq<CopyEvent>, randomness: int, row: int)
        ensures
            at_row(self.block_writes(events, randomness), row) == (if 0 <= row < block_rows(
                events,
            ) {
                let (i, step) = step_of(events, row);
                self.step_writes(events[i], randomness, step, row)
            } else if block_rows(events) <= row < block_rows(events) + 2 {
                self.padding_writes(row)
            } else {
                seq![]
            }),
    {
        let rows = block_rows(events);
        lemma_block_rows_prefix(events, 0);
        let body = self.events_writes(events, randomness);
        let first = self.padding_writes(rows);
        let second = self.padding_writes(rows + 1);
        self.lemma_events_at_row(events, randomness, row);
        lemma_at_row_of_one(first, rows, row);
        lemma_at_row_of_one(second, rows + 1, row);
        lemma_at_row_concat(body, first, row);
        lemma_at_row_concat(body + first, second, row);
        assert(at_row(self.block_writes(events, randomness), row) =~= at_row(body, row)
            + at_row(first, row) + at_row(second, row));
        assert(at_row(self.block_writes(events, randomness), row) =~= (if 0 <= row < rows {
            let (i, step) = step_of(events, row);
            self.step_writes(events[i], randomness, step, row)
        } else if rows <= row < rows + 2 {
            self.padding_writes(row)
        } else {
            seq![]
        }));
    }
}

/// Writes to one row, each to the column of its place in a list without
/// duplicates: a column of the list is filled by its write.
proof fn lemma_placed_some(
    writes: Seq<Write>,
    columns: Seq<AdviceColumn>,
    first: int,
    j: int,
    row: int,
)
    requires
        0 <= first <= j < first + writes.len() <= columns.len(),
        forall|m: int|
            0 <= m < writes.len() ==> fills_advice(
                #[trigger] writes[m],
                columns[first + m].index as int,
                row,
            ),
        forall|a: int, b: int|
            #![trigger columns[a], columns[b]]
            0 <= a < b < columns.len() ==> columns[a].index != columns[b].index,
    ensures
        advice_cell(writes, columns[j].index as int, row) == Some(
            advice_value(writes[j - first]),
        ),
{
    let i = j - first;
    let column = columns[j].index as int;
    assert(columns[first + i] == columns[j]);
    assert(fills_advice(writes[i], column, row));
    assert forall|m: int| i < m < writes.len() implies !fills_advice(
        #[trigger] writes[m],
        column,
        row,
    ) by {
        assert(columns[first + m].index != columns[j].index);
    }
    lemma_advice_filled(writes, i, column, row);
}

/// Writes to one row, each to the column of its place in a list without
/// duplicates: a column at another place is not filled.
proof fn lemma_placed_none(
    writes: Seq<Write>,
    columns: Seq<AdviceColumn>,
    first: int,
    j: int,
    row: int,
)
    requires
        0 <= first,
        first + writes.len() <= columns.len(),
        0 <= j < first || first + writes.len() <= j < columns.len(),
        forall|m: int|
            0 <= m < writes.len() ==> fills_advice(
                #[trigger] writes[m],
                columns[first + m].index as int,
                row,
            ),
        forall|a: int, b: int|
            #![trigger columns[a], columns[b]]
            0 <= a < b < columns.len() ==> columns[a].index != columns[b].index,
    ensures
        advice_cell(writes, columns[j].index as int, row) is None,
{
    let column = columns[j].index as int;
    assert forall|m: int| 0 <= m < writes.len() implies !fills_advice(
        #[trigger] writes[m],
        column,
        row,
    ) by {
        assert(columns[first + m].index != columns[j].index);
    }
    lemma_advice_unfilled(writes, column, row);
}

impl CopyCircuit {
    /// What the writes of a step leave in an advice column.
    proof fn lemma_step_cell(
        self,
        event: CopyEvent,
        randomness: int,
        step: int,
        row: int,
        j: int,
    )
        requires
            self.has_distinct_columns(),
            0 <= j < 24,
        ensures
            advice_cell(
                self.step_writes(event, randomness, step, row),
                self.advice_columns()[j].index as int,
                row,
            ) == self.step_cell(event, randomness, step, j),
    {
        let is_read = event.is_read(step);
        let source = event.src_addr + step / 2;
        let columns = self.advice_columns();
        let column = columns[j].index as int;
        let table_columns = self.copy_table.column_list();
        let table_cells = event.table_row(step, randomness);
        let circuit_columns = self.column_list();
        let circuit_cells = event.circuit_row(step, randomness);
        let a = cell_writes(table_columns, table_cells, is_read, row);
        let s = if is_read {
            seq![Write::Enable { selector: self.q_step, offset: row }]
        } else {
            seq![]
        };
        let f = seq![self.enable_write(row, 1)];
        let b = cell_writes(circuit_columns, circuit_cells, true, row);
        let t = self.copy_table.tag.writes(row, event.tag_at(step));
        let l = if is_read {
            self.addr_lt_addr_end.writes(row, source, event.src_addr_end as int)
        } else {
            seq![]
        };
        assert(columns.len() == 24);
        assert forall|m: int| 0 <= m < 8 implies #[trigger] table_columns[m] == columns[m] by {}
        assert forall|m: int| 0 <= m < 4 implies #[trigger] circuit_columns[m]
            == columns[8 + m] by {}
        lemma_cells_concat(a, s, column, row);
        lemma_cells_concat(a + s, f, column, row);
        lemma_cells_concat(a + s + f, b, column, row);
        lemma_cells_concat(a + s + f + b, t, column, row);
        lemma_cells_concat(a + s + f + b + t, l, column, row);
        lemma_advice_unfilled(s, column, row);
        lemma_advice_unfilled(f, column, row);
        if j < 8 {
            lemma_cell_writes_some(table_columns, table_cells, is_read, row, j);
        } else {
            lemma_cell_writes_none(table_columns, table_cells, is_read, row, column);
        }
        if 8 <= j < 12 {
            assert(circuit_columns[j - 8] == columns[j]);
            lemma_cell_writes_some(circuit_columns, circuit_cells, true, row, j - 8);
        } else {
            lemma_cell_writes_none(circuit_columns, circuit_cells, true, row, column);
        }
        if 12 <= j < 15 {
            lemma_placed_some(t, columns, 12, j, row);
        } else {
            lemma_placed_none(t, columns, 12, j, row);
        }
        if is_read {
            assert(l.len() == 9);
            assert forall|m: int| 0 <= m < 9 implies fills_advice(
                #[trigger] l[m],
                columns[15 + m].index as int,
                row,
            ) by {}
            if 15 <= j {
                lemma_placed_some(l, columns, 15, j, row);
            } else {
                lemma_placed_none(l, columns, 15, j, row);
            }
        } else {
            lemma_advice_unfilled(l, column, row);
        }
    }
}

/// Writes of zeros leave zeros.
proof fn lemma_zero_writes(writes: Seq<Write>, column: int, row: int)
    requires
        forall|m: int| 0 <= m < writes.len() ==> advice_value(#[trigger] writes[m]) == 0,
    ensures
        cell_value(advice_cell(writes, column, row)) == 0,
    decreases writes.len(),
{
    if writes.len() > 0 {
        lemma_zero_writes(writes.drop_last(), column, row);
    }
}

impl CopyCircuit {
    /// What the writes of a padding row leave in an advice column.
    proof fn lemma_padding_cell(self, row: int, j: int)
        requires
            self.has_distinct_columns(),
            0 <= j < 24,
        ensures
            cell_value(
                advice_cell(
                    self.padding_writes(row),
                    self.advice_columns()[j].index as int,
                    row,
                ),
            ) == (if j == 13 {
                1int
            } else {
                0int
            }),
    {
        let columns = self.advice_columns();
        let column = columns[j].index as int;
        let t = self.copy_table.tag.writes(row, CopyDataType::Memory);
        let n = self.padding_writes(row).len() - 3;
        let zeros = self.padding_writes(row).take(n);
        assert(self.padding_writes(row) =~= zeros + t);
        lemma_zero_writes(zeros, column, row);
        lemma_cells_concat(zeros, t, column, row);
        assert(columns.len() == 24);
        if 12 <= j < 15 {
            lemma_placed_some(t, columns, 12, j, row);
        } else {
            lemma_placed_none(t, columns, 12, j, row);
        }
    }

    /// What the writes of a step leave in the switches of its row.
    proof fn lemma_step_switches(
        self,
        event: CopyEvent,
        randomness: int,
        step: int,
        row: int,
    )
        ensures
            fixed_cell(
                self.step_writes(event, randomness, step, row),
                self.q_enable.index as int,
                row,
            ) == Some(1int),
            selector_enabled(
                self.step_writes(event, randomness, step, row),
                self.q_step.index as int,
                row,
            ) == event.is_read(step),
    {
        let is_read = event.is_read(step);
        let source = event.src_addr + step / 2;
        let a = cell_writes(
            self.copy_table.column_list(),
            event.table_row(step, randomness),
            is_read,
            row,
        );
        let s = if is_read {
            seq![Write::Enable { selector: self.q_step, offset: row }]
        } else {
            seq![]
        };
        let f = seq![self.enable_write(row, 1)];
        let b = cell_writes(
            self.column_list(),
            event.circuit_row(step, randomness),
            true,
            row,
        );
        let t = self.copy_table.tag.writes(row, event.tag_at(step));
        let l = if is_read {
            self.addr_lt_addr_end.writes(row, source, event.src_addr_end as int)
        } else {
            seq![]
        };
        lemma_cell_writes_shape(
            self.copy_table.column_list(),
            event.table_row(step, randomness),
            is_read,
            row,
        );
        lemma_cell_writes_shape(
            self.column_list(),
            event.circuit_row(step, randomness),
            true,
            row,
        );
        self.lemma_switch_parts(a, s, f, b, t, l, self.q_enable.index as int, row);
        self.lemma_switch_parts(a, s, f, b, t, l, self.q_step.index as int, row);
        reveal_with_fuel(fixed_cell, 2);
        reveal_with_fuel(selector_enabled, 2);
    }

    proof fn lemma_switch_parts(
        self,
        a: Seq<Write>,
        s: Seq<Write>,
        f: Seq<Write>,
        b: Seq<Write>,
        t: Seq<Write>,
        l: Seq<Write>,
        index: int,
        row: int,
    )
        requires
            forall|m: int| 0 <= m < a.len() ==> #[trigger] a[m] is Advice,
            forall|m: int| 0 <= m < b.len() ==> #[trigger] b[m] is Advice,
            forall|m: int| 0 <= m < t.len() ==> #[trigger] t[m] is Advice,
            forall|m: int| 0 <= m < l.len() ==> #[trigger] l[m] is Advice,
        ensures
            fixed_cell(a + s + f + b + t + l, index, row) == fixed_cell(s + f, index, row),
            selector_enabled(a + s + f + b + t + l, index, row) == selector_enabled(
                s + f,
                index,
                row,
            ),
    {
        lemma_cells_concat(s, f, index, row);
        lemma_cells_concat(a, s, index, row);
        lemma_cells_concat(a + s, f, index, row);
        lemma_cells_concat(a + s + f, b, index, row);
        lemma_cells_concat(a + s + f + b, t, index, row);
        lemma_cells_concat(a + s + f + b + t, l, index, row);
        lemma_advice_only(a, index, row);
        lemma_advice_only(b, index, row);
        lemma_advice_only(t, index, row);
        lemma_advice_only(l, index, row);
    }
}

impl CopyCircuit {
    /// A witness that is filled by a block's assignments holds, row by row,
    /// the steps of the copy events, two padding rows, and zeros elsewhere.
    pub proof fn law_assigned_rows(
        self,
        events: Seq<CopyEvent>,
        randomness: int,
        w: Witness,
        row: int,
    )
        requires
            self.has_distinct_columns(),
            self.is_filled(events, randomness, w),
        ensures
            self.row(w, row) == block_row(events, randomness, row),
    {
        let writes = self.block_writes(events, randomness);
        let columns = self.advice_columns();
        let rows = block_rows(events);
        let here = at_row(writes, row);
        let (i, step) = step_of(events, row);
        assert(self.is_row_filled(writes, w, row));
        self.lemma_block_at_row(events, randomness, row);
        lemma_cells_at_row(writes, self.q_enable.index as int, row);
        lemma_cells_at_row(writes, self.q_step.index as int, row);
        if 0 <= row < rows {
            self.lemma_step_switches(events[i], randomness, step, row);
        } else if rows <= row < rows + 2 {
            self.lemma_padding_switches(row);
        }
        assert forall|j: int| 0 <= j < 24 implies (w.advice)(
            (#[trigger] columns[j]).index as int,
            row,
        ) == (if 0 <= row < rows {
            cell_value(self.step_cell(events[i], randomness, step, j))
        } else if rows <= row < rows + 2 && j == 13 {
            1
        } else {
            0
        }) by {
            let column = columns[j].index as int;
            lemma_cells_at_row(writes, column, row);
            assert((w.advice)(column, row) == cell_value(advice_cell(writes, column, row)));
            if 0 <= row < rows {
                self.lemma_step_cell(events[i], randomness, step, row, j);
            } else if rows <= row < rows + 2 {
                self.lemma_padding_cell(row, j);
            }
        }
        let x = self.row(w, row);
        let y = block_row(events, randomness, row);
        assert(fixed_cell(writes, self.q_enable.index as int, row) == fixed_cell(
            here,
            self.q_enable.index as int,
            row,
        ));
        assert(x.q_enable == y.q_enable);
        assert(x.q_step == y.q_step);
        self.lemma_column_places();
        assert(x.tag =~= y.tag);
        assert forall|m: int| 0 <= m < 8 implies #[trigger] x.diff[m] == y.diff[m] by {
            assert(columns[16 + m] == self.addr_lt_addr_end.diff@[m]);
        }
        assert(x.diff =~= y.diff);
        assert(x =~= y);
    }

    /// The places of the advice columns in the list.
    pub proof fn lemma_column_places(self)
        ensures
            self.advice_columns()[0] == self.copy_table.is_first,
            self.advice_columns()[1] == self.copy_table.id,
            self.advice_columns()[2] == self.copy_table.addr,
            self.advice_columns()[3] == self.copy_table.src_addr_end,
            self.advice_columns()[4] == self.copy_table.bytes_left,
            self.advice_columns()[5] == self.copy_table.rlc_acc,
            self.advice_columns()[6] == self.copy_table.rw_counter,
            self.advice_columns()[7] == self.copy_table.rwc_inc_left,
            self.advice_columns()[8] == self.is_last,
            self.advice_columns()[9] == self.value,
            self.advice_columns()[10] == self.is_pad,
            self.advice_columns()[11] == self.is_code,
            self.advice_columns()[12] == self.copy_table.tag.bits@[0],
            self.advice_columns()[13] == self.copy_table.tag.bits@[1],
            self.advice_columns()[14] == self.copy_table.tag.bits@[2],
            self.advice_columns()[15] == self.addr_lt_addr_end.lt,
    {
    }

    /// What the writes of a padding row leave in the switches of the row.
    proof fn lemma_padding_switches(self, row: int)
        ensures
            fixed_cell(self.padding_writes(row), self.q_enable.index as int, row) == Some(0int),
            !selector_enabled(self.padding_writes(row), self.q_step.index as int, row),
    {
        let f = seq![self.enable_write(row, 0)];
        let rest = self.padding_writes(row).skip(1);
        assert(self.padding_writes(row) =~= f + rest);
        lemma_cells_concat(f, rest, self.q_enable.index as int, row);
        lemma_cells_concat(f, rest, self.q_step.index as int, row);
        lemma_advice_only(rest, self.q_enable.index as int, row);
        lemma_advice_only(rest, self.q_step.index as int, row);
        reveal_with_fuel(selector_enabled, 2);
    }
}

impl CopyCircuit {
    /// A padding row fills the columns of the table, those beside it and the
    /// bits of the tag.
    proof fn lemma_padding_filled(self, row: int, j: int)
        requires
            self.has_distinct_columns(),
            0 <= j < 15,
        ensures
            advice_cell(
                self.padding_writes(row),
                self.advice_columns()[j].index as int,
                row,
            ) is Some,
    {
        let writes = self.padding_writes(row);
        let column = self.advice_columns()[j].index as int;
        self.lemma_column_places();
        let i: int = if j == 0 {
            1
        } else if j == 1 {
            3
        } else if j < 5 {
            j + 2
        } else if j == 5 {
            8
        } else if j == 6 {
            11
        } else if j == 7 {
            12
        } else if j == 8 {
            2
        } else if j == 9 {
            7
        } else if j == 10 {
            10
        } else if j == 11 {
            9
        } else {
            j + 1
        };
        assert(fills_advice(writes[i], column, row));
        lemma_advice_filled_somewhere(writes, i, column, row);
    }

    /// On every row that is a step, the cells that the constraints refer to
    /// are assigned: all advice columns of the row; of the row behind it those
    /// of a write row; and of the next one those of the table, those beside it
    /// and the bits of the tag.
    pub proof fn law_cells_of_steps_are_assigned(
        self,
        events: Seq<CopyEvent>,
        randomness: int,
        row: int,
        j: int,
    )
        requires
            self.has_distinct_columns(),
            selector_enabled(
                self.block_writes(events, randomness),
                self.q_step.index as int,
                row,
            ),
            0 <= j < 24,
        ensures
            ({
                let writes = self.block_writes(events, randomness);
                let column = self.advice_columns()[j].index as int;
                &&& advice_cell(writes, column, row) is Some
                &&& j < 15 && j != 3 && j != 4 ==> advice_cell(writes, column, row + 1) is Some
                &&& j < 15 ==> advice_cell(writes, column, row + 2) is Some
            }),
    {
        let writes = self.block_writes(events, randomness);
        let column = self.advice_columns()[j].index as int;
        let rows = block_rows(events);
        self.lemma_block_at_row(events, randomness, row);
        self.lemma_block_at_row(events, randomness, row + 1);
        self.lemma_block_at_row(events, randomness, row + 2);
        lemma_cells_at_row(writes, self.q_step.index as int, row);
        lemma_cells_at_row(writes, column, row);
        lemma_cells_at_row(writes, column, row + 1);
        lemma_cells_at_row(writes, column, row + 2);
        if rows <= row < rows + 2 {
            self.lemma_padding_switches(row);
        }
        assert(0 <= row < rows);
        lemma_step_of(events, row);
        let (i, step) = step_of(events, row);
        self.lemma_step_switches(events[i], randomness, step, row);
        self.lemma_step_cell(events[i], randomness, step, row, j);
        // The write row of the step follows its read row.
        lemma_step_of_place(events, i, step + 1);
        self.lemma_step_cell(events[i], randomness, step + 1, row + 1, j);
        if row + 2 < rows {
            lemma_step_of(events, row + 2);
            let (k, next) = step_of(events, row + 2);
            if step + 2 < events[i].rows() {
                lemma_step_of_place(events, i, step + 2);
            } else if next > 0 {
                // The step before would be the one at the row before.
                lemma_step_of_place(events, k, next - 1);
                assert(step_of(events, row + 1) == (k, next - 1));
            }
            self.lemma_step_cell(events[k], randomness, next, row + 2, j);
        } else if j < 15 {
            self.lemma_padding_filled(row + 2, j);
        }
    }
}

/// Two lists of assignments that differ in their rows alone leave the same in
/// those rows.
proof fn lemma_same_cells(a: Seq<Write>, b: Seq<Write>, from: int, to: int, index: int)
    requires
        a.len() == b.len(),
        forall|i: int|
            0 <= i < a.len() ==> row_of(#[trigger] a[i]) == from && b[i] == moved(a[i], to),
    ensures
        advice_cell(a, index, from) == advice_cell(b, index, to),
        fixed_cell(a, index, from) == fixed_cell(b, index, to),
        selector_enabled(a, index, from) == selector_enabled(b, index, to),
    decreases a.len(),
{
    if a.len() > 0 {
        assert(b.last() == moved(a.last(), to)) by {
            assert(row_of(a[a.len() - 1]) == from);
        }
        assert forall|i: int| 0 <= i < a.drop_last().len() implies row_of(
            #[trigger] a.drop_last()[i],
        ) == from && b.drop_last()[i] == moved(a.drop_last()[i], to) by {
            assert(row_of(a[i]) == from);
        }
        lemma_same_cells(a.drop_last(), b.drop_last(), from, to, index);
    }
}

impl CopyCircuit {
    /// The assignments of a padding row do not depend on where it stands: at
    /// another row they are the same, moved there, and they leave the same in
    /// every advice column, every fixed column and every selector.
    pub proof fn law_padding_rows_are_alike(self, from: int, to: int, index: int)
        ensures
            self.padding_writes(to) == self.padding_writes(from).map_values(
                |write: Write| moved(write, to),
            ),
            advice_cell(self.padding_writes(from), index, from) == advice_cell(
                self.padding_writes(to),
                index,
                to,
            ),
            fixed_cell(self.padding_writes(from), index, from) == fixed_cell(
                self.padding_writes(to),
                index,
                to,
            ),
            selector_enabled(self.padding_writes(from), index, from) == selector_enabled(
                self.padding_writes(to),
                index,
                to,
            ),
    {
        let a = self.padding_writes(from);
        let b = self.padding_writes(to);
        assert(b =~= a.map_values(|write: Write| moved(write, to)));
        lemma_same_cells(a, b, from, to, index);
    }

    /// To assign a padding row once more changes no cell, whatever was
    /// assigned before.
    pub proof fn law_padding_again_changes_nothing(
        self,
        before: Seq<Write>,
        offset: int,
        index: int,
        row: int,
    )
        ensures
            ({
                let once = before + self.padding_writes(offset);
                let twice = once + self.padding_writes(offset);
                &&& advice_cell(twice, index, row) == advice_cell(once, index, row)
                &&& fixed_cell(twice, index, row) == fixed_cell(once, index, row)
                &&& selector_enabled(twice, index, row) == selector_enabled(once, index, row)
            }),
    {
        let padding = self.padding_writes(offset);
        lemma_cells_concat(before, padding, index, row);
        lemma_cells_concat(before + padding, padding, index, row);
    }

    /// A padding row holds what it is assigned, whatever was assigned before:
    /// it is switched off, the columns of the table and those beside it hold
    /// zero, and the tag stands for the default type. It switches no step on
    /// or off.
    pub proof fn law_padding_row_cells(self, before: Seq<Write>, row: int)
        requires
            self.has_distinct_columns(),
        ensures
            ({
                let writes = before + self.padding_writes(row);
                let q_step = self.q_step.index as int;
                &&& fixed_cell(writes, self.q_enable.index as int, row) == Some(0int)
                &&& forall|j: int|
                    0 <= j < 12 ==> advice_cell(
                        writes,
                        (#[trigger] self.advice_columns()[j]).index as int,
                        row,
                    ) == Some(0int)
                &&& forall|j: int|
                    0 <= j < 3 ==> advice_cell(
                        writes,
                        (#[trigger] self.copy_table.tag.bits@[j]).index as int,
                        row,
                    ) == Some(type_tag(CopyDataType::Memory)[j])
                &&& selector_enabled(writes, q_step, row) == selector_enabled(before, q_step, row)
            }),
    {
        let padding = self.padding_writes(row);
        let columns = self.advice_columns();
        let writes = before + padding;
        self.lemma_padding_switches(row);
        lemma_cells_concat(before, padding, self.q_enable.index as int, row);
        lemma_cells_concat(before, padding, self.q_step.index as int, row);
        assert forall|j: int| 0 <= j < 15 implies advice_cell(
            writes,
            (#[trigger] columns[j]).index as int,
            row,
        ) == Some(bit(j == 13)) by {
            lemma_cells_concat(before, padding, columns[j].index as int, row);
            self.lemma_padding_filled(row, j);
            self.lemma_padding_cell(row, j);
        }
        assert forall|j: int| 0 <= j < 3 implies advice_cell(
            writes,
            (#[trigger] self.copy_table.tag.bits@[j]).index as int,
            row,
        ) == Some(type_tag(CopyDataType::Memory)[j]) by {
            assert(columns[12 + j] == self.copy_table.tag.bits@[j]);
        }
    }
}

impl CopyCircuit {
    /// What the assignment of a block leaves at a step of one of its events.
    pub proof fn lemma_assigned_step(
        self,
        events: Seq<CopyEvent>,
        randomness: int,
        i: int,
        step: int,
    )
        requires
            self.has_distinct_columns(),
            0 <= i < events.len(),
            0 <= step < events[i].rows(),
        ensures
            ({
                let writes = self.block_writes(events, randomness);
                let row = block_rows(events.take(i)) + step;
                &&& fixed_cell(writes, self.q_enable.index as int, row) == Some(1int)
                &&& selector_enabled(writes, self.q_step.index as int, row)
                    == events[i].is_read(step)
                &&& forall|j: int|
                    0 <= j < 24 ==> advice_cell(
                        writes,
                        (#[trigger] self.advice_columns()[j]).index as int,
                        row,
                    ) == self.step_cell(events[i], randomness, step, j)
            }),
    {
        let writes = self.block_writes(events, randomness);
        let row = block_rows(events.take(i)) + step;
        lemma_step_of_place(events, i, step);
        self.lemma_block_at_row(events, randomness, row);
        lemma_cells_at_row(writes, self.q_enable.index as int, row);
        lemma_cells_at_row(writes, self.q_step.index as int, row);
        self.lemma_step_switches(events[i], randomness, step, row);
        assert forall|j: int| 0 <= j < 24 implies advice_cell(
            writes,
            (#[trigger] self.advice_columns()[j]).index as int,
            row,
        ) == self.step_cell(events[i], randomness, step, j) by {
            lemma_cells_at_row(writes, self.advice_columns()[j].index as int, row);
            self.lemma_step_cell(events[i], randomness, step, row, j);
        }
    }

    /// What the assignment of a block leaves at a row that belongs to no event.
    pub proof fn lemma_assigned_elsewhere(
        self,
        events: Seq<CopyEvent>,
        randomness: int,
        row: int,
        index: int,
    )
        requires
            row < 0 || row >= block_rows(events),
        ensures
            ({
                let writes = self.block_writes(events, randomness);
                let rest = if block_rows(events) <= row < block_rows(events) + 2 {
                    self.padding_writes(row)
                } else {
                    seq![]
                };
                &&& advice_cell(writes, index, row) == advice_cell(rest, index, row)
                &&& fixed_cell(writes, index, row) == fixed_cell(rest, index, row)
                &&& selector_enabled(writes, index, row) == selector_enabled(rest, index, row)
            }),
    {
        let writes = self.block_writes(events, randomness);
        lemma_block_rows_prefix(events, 0);
        self.lemma_block_at_row(events, randomness, row);
        lemma_cells_at_row(writes, index, row);
    }

    /// The assignment of a block fills none but the columns of the circuit.
    pub proof fn lemma_other_columns(
        self,
        events: Seq<CopyEvent>,
        randomness: int,
        row: int,
        index: int,
    )
        ensures
            ({
                let writes = self.block_writes(events, randomness);
                &&& (forall|j: int|
                    0 <= j < 24 ==> (#[trigger] self.advice_columns()[j]).index != index)
                    ==> advice_cell(writes, index, row) is None
                &&& index != self.q_enable.index ==> fixed_cell(writes, index, row) is None
                &&& index != self.q_step.index ==> !selector_enabled(writes, index, row)
            }),
    {
        let writes = self.block_writes(events, randomness);
        self.lemma_block_at_row(events, randomness, row);
        lemma_cells_at_row(writes, index, row);
        if 0 <= row < block_rows(events) {
            let (i, step) = step_of(events, row);
            self.lemma_step_other_columns(events[i], randomness, step, row, index);
        } else if block_rows(events) <= row < block_rows(events) + 2 {
            self.lemma_padding_other_columns(row, index);
        }
    }

    proof fn lemma_step_other_columns(
        self,
        event: CopyEvent,
        randomness: int,
        step: int,
        row: int,
        index: int,
    )
        ensures
            ({
                let writes = self.step_writes(event, randomness, step, row);
                &&& (forall|j: int|
                    0 <= j < 24 ==> (#[trigger] self.advice_columns()[j]).index != index)
                    ==> advice_cell(writes, index, row) is None
                &&& index != self.q_enable.index ==> fixed_cell(writes, index, row) is None
                &&& index != self.q_step.index ==> !selector_enabled(writes, index, row)
            }),
    {
        let is_read = event.is_read(step);
        let source = event.src_addr + step / 2;
        let columns = self.advice_columns();
        let table_columns = self.copy_table.column_list();
        let table_cells = event.table_row(step, randomness);
        let circuit_columns = self.column_list();
        let circuit_cells = event.circuit_row(step, randomness);
        let a = cell_writes(table_columns, table_cells, is_read, row);
        let s = if is_read {
            seq![Write::Enable { selector: self.q_step, offset: row }]
        } else {
            seq![]
        };
        let f = seq![self.enable_write(row, 1)];
        let b = cell_writes(circuit_columns, circuit_cells, true, row);
        let t = self.copy_table.tag.writes(row, event.tag_at(step));
        let l = if is_read {
            self.addr_lt_addr_end.writes(row, source, event.src_addr_end as int)
        } else {
            seq![]
        };
        lemma_cell_writes_shape(table_columns, table_cells, is_read, row);
        lemma_cell_writes_shape(circuit_columns, circuit_cells, true, row);
        self.lemma_switch_parts(a, s, f, b, t, l, index, row);
        reveal_with_fuel(fixed_cell, 3);
        reveal_with_fuel(selector_enabled, 3);
        if forall|j: int| 0 <= j < 24 ==> (#[trigger] columns[j]).index != index {
            lemma_cells_concat(a, s, index, row);
            lemma_cells_concat(a + s, f, index, row);
            lemma_cells_concat(a + s + f, b, index, row);
            lemma_cells_concat(a + s + f + b, t, index, row);
            lemma_cells_concat(a + s + f + b + t, l, index, row);
            lemma_advice_unfilled(s, index, row);
            lemma_advice_unfilled(f, index, row);
            assert forall|m: int| 0 <= m < 8 implies (#[trigger] table_columns[m]).index
                != index by {
                assert(table_columns[m] == columns[m]);
            }
            assert forall|m: int| 0 <= m < 4 implies (#[trigger] circuit_columns[m]).index
                != index by {
                assert(circuit_columns[m] == columns[8 + m]);
            }
            lemma_cell_writes_none(table_columns, table_cells, is_read, row, index);
            lemma_cell_writes_none(circuit_columns, circuit_cells, true, row, index);
            assert forall|m: int| 0 <= m < t.len() implies !fills_advice(
                #[trigger] t[m],
                index,
                row,
            ) by {
                assert(fills_advice(t[m], columns[12 + m].index as int, row));
            }
            lemma_advice_unfilled(t, index, row);
            assert forall|m: int| 0 <= m < l.len() implies !fills_advice(
                #[trigger] l[m],
                index,
                row,
            ) by {
                assert(fills_advice(l[m], columns[15 + m].index as int, row));
            }
            lemma_advice_unfilled(l, index, row);
        }
    }

    proof fn lemma_padding_other_columns(self, row: int, index: int)
        ensures
            ({
                let writes = self.padding_writes(row);
                &&& (forall|j: int|
                    0 <= j < 24 ==> (#[trigger] self.advice_columns()[j]).index != index)
                    ==> advice_cell(writes, index, row) is None
                &&& index != self.q_enable.index ==> fixed_cell(writes, index, row) is None
                &&& !selector_enabled(writes, index, row)
            }),
    {
        let writes = self.padding_writes(row);
        let f = seq![self.enable_write(row, 0)];
        let rest = writes.skip(1);
        assert(writes =~= f + rest);
        lemma_cells_concat(f, rest, index, row);
        lemma_advice_only(rest, index, row);
        reveal_with_fuel(fixed_cell, 2);
        reveal_with_fuel(selector_enabled, 2);
        let columns = self.advice_columns();
        if forall|j: int| 0 <= j < 24 ==> (#[trigger] columns[j]).index != index {
            self.lemma_column_places();
            assert forall|m: int| 0 <= m < writes.len() implies !fills_advice(
                #[trigger] writes[m],
                index,
                row,
            ) by {
                assert(columns[0].index != index && columns[1].index != index && columns[2].index
                    != index && columns[3].index != index && columns[4].index != index
                    && columns[5].index != index && columns[6].index != index
                    && columns[7].index != index && columns[8].index != index
                    && columns[9].index != index && columns[10].index != index
                    && columns[11].index != index && columns[12].index != index
                    && columns[13].index != index && columns[14].index != index);
            }
            lemma_advice_unfilled(writes, index, row);
        }
    }
}

/// A cell that an assignment fills holds something.
proof fn lemma_advice_filled_somewhere(writes: Seq<Write>, i: int, column: int, row: int)
    requires
        0 <= i < writes.len(),
        fills_advice(writes[i], column, row),
    ensures
        advice_cell(writes, column, row) is Some,
    decreases writes.len(),
{
    if i < writes.len() - 1 {
        lemma_advice_filled_somewhere(writes.drop_last(), i, column, row);
    }
}

} // verus!
