//! The assignment of a block's copy events to the columns of the circuit.
use crate::copy_circuit::CopyCircuit;
use crate::copy_event::{Block, CopyDataType, CopyEvent};
use crate::copy_table::{row_cells, CopyTable};
use crate::expression::AdviceColumn;
use crate::field::Felt;
use crate::region::{Annotation, Label, Region, Write};
use vstd::prelude::*;

verus! {

/// `itertools::zip_eq`, collected: the elements of two lists of one length in
/// pairs, in order. It panics on lists of different lengths, which are left
/// out here.
#[verifier::external_body]
fn zip_eq<A: Copy, B: Copy>(a: &[A], b: &[B]) -> (r: Vec<(A, B)>)
    requires
        a@.len() == b@.len(),
    ensures
        r@.len() == a@.len(),
        forall|i: int| 0 <= i < r@.len() ==> #[trigger] r@[i] == (a@[i], b@[i]),
{
    itertools::zip_eq(a.iter().copied(), b.iter().copied()).collect()
}

/// Whether a row leaves a column empty: a write row does not fill the end of
/// the source and the number of bytes left.
pub open spec fn left_empty(label: Label, is_read: bool) -> bool {
    !is_read && (label is SrcAddrEnd || label is BytesLeft)
}

/// The write of one cell of a row.
pub open spec fn cell_write(column: AdviceColumn, cell: (int, Label), offset: int) -> Write {
    Write::Advice { annotation: Annotation::AtRow(cell.1), column, offset, value: cell.0 }
}

/// The writes of the cells of a row, but for those that it leaves empty.
pub open spec fn cell_writes(
    columns: Seq<AdviceColumn>,
    cells: Seq<(int, Label)>,
    is_read: bool,
    offset: int,
) -> Seq<Write>
    decreases cells.len(),
{
    if cells.len() == 0 {
        seq![]
    } else {
        let before = cell_writes(columns.drop_last(), cells.drop_last(), is_read, offset);
        if left_empty(cells.last().1, is_read) {
            before
        } else {
            before.push(cell_write(columns.last(), cells.last(), offset))
        }
    }
}

/// The number of rows of a list of copy events.
pub open spec fn block_rows(events: Seq<CopyEvent>) -> int
    decreases events.len(),
{
    if events.len() == 0 {
        0
    } else {
        block_rows(events.drop_last()) + events.last().rows()
    }
}

impl Block {
    /// Whether the copy events are well-formed, and their rows and two more
    /// can be counted.
    pub open spec fn is_assignable(self) -> bool {
        &&& forall|i: int|
            0 <= i < self.copy_events@.len() ==> (#[trigger] self.copy_events@[i]).well_formed()
        &&& block_rows(self.copy_events@) + 2 <= usize::MAX
    }

    /// Whether the block can be assigned.
    pub fn can_be_assigned(&self) -> (r: bool)
        ensures
            r == self.is_assignable(),
    {
        let ghost events = self.copy_events@;
        let mut rows: usize = 0;
        let n: usize = self.copy_events.len();
        let mut i: usize = 0;
        while i < n
            invariant
                i <= n,
                n == events.len(),
                events == self.copy_events@,
                forall|j: int| 0 <= j < i ==> (#[trigger] events[j]).well_formed(),
                rows == block_rows(events.take(i as int)),
                rows + 2 <= usize::MAX,
            decreases n - i,
        {
            let event = &self.copy_events[i];
            if !event.is_well_formed() {
                return false;
            }
            proof {
                lemma_block_rows_prefix(events, i + 1);
                assert(events.take(i + 1).drop_last() =~= events.take(i as int));
            }
            if event.bytes.len() * 2 > usize::MAX - 2 - rows {
                return false;
            }
            rows = rows + event.bytes.len() * 2;
            i = i + 1;
        }
        assert(events.take(n as int) =~= events);
        true
    }
}

/// The write of zero to a cell of a padding row.
pub open spec fn zero_write(column: AdviceColumn, label: Label, offset: int) -> Write {
    Write::Advice { annotation: Annotation::Assign(label), column, offset, value: 0 }
}

impl CopyCircuit {
    /// The write that switches a row on or off.
    pub open spec fn enable_write(self, offset: int, value: int) -> Write {
        Write::Fixed { annotation: Annotation::QEnable, column: self.q_enable, offset, value }
    }

    /// The writes of one step of a copy event.
    pub open spec fn step_writes(
        self,
        event: CopyEvent,
        randomness: int,
        step: int,
        offset: int,
    ) -> Seq<Write> {
        let is_read = event.is_read(step);
        cell_writes(
            self.copy_table.column_list(),
            event.table_row(step, randomness),
            is_read,
            offset,
        ) + (if is_read {
            seq![Write::Enable { selector: self.q_step, offset }]
        } else {
            seq![]
        }) + seq![self.enable_write(offset, 1)] + cell_writes(
            self.column_list(),
            event.circuit_row(step, randomness),
            true,
            offset,
        ) + self.copy_table.tag.writes(offset, event.tag_at(step)) + (if is_read {
            self.addr_lt_addr_end.writes(
                offset,
                event.src_addr + step / 2,
                event.src_addr_end as int,
            )
        } else {
            seq![]
        })
    }

    /// The writes of the first `steps` steps of a copy event.
    pub open spec fn event_writes(
        self,
        event: CopyEvent,
        randomness: int,
        steps: int,
        offset: int,
    ) -> Seq<Write>
        decreases steps,
    {
        if steps <= 0 {
            seq![]
        } else {
            self.event_writes(event, randomness, steps - 1, offset) + self.step_writes(
                event,
                randomness,
                steps - 1,
                offset + steps - 1,
            )
        }
    }

    /// The writes of a list of copy events, one behind the other.
    pub open spec fn events_writes(self, events: Seq<CopyEvent>, randomness: int) -> Seq<Write>
        decreases events.len(),
    {
        if events.len() == 0 {
            seq![]
        } else {
            self.events_writes(events.drop_last(), randomness) + self.event_writes(
                events.last(),
                randomness,
                events.last().rows(),
                block_rows(events.drop_last()),
            )
        }
    }

    /// The writes of a padding row: every column is zero, but for the tag,
    /// which stands for the default type.
    pub open spec fn padding_writes(self, offset: int) -> Seq<Write> {
        let t = self.copy_table;
        seq![
            self.enable_write(offset, 0),
            zero_write(t.is_first, Label::IsFirst, offset),
            zero_write(self.is_last, Label::IsLast, offset),
            zero_write(t.id, Label::Id, offset),
            zero_write(t.addr, Label::Addr, offset),
            zero_write(t.src_addr_end, Label::SrcAddrEnd, offset),
            zero_write(t.bytes_left, Label::BytesLeft, offset),
            zero_write(self.value, Label::Value, offset),
            zero_write(t.rlc_acc, Label::RlcAcc, offset),
            zero_write(self.is_code, Label::IsCode, offset),
            zero_write(self.is_pad, Label::IsPad, offset),
            zero_write(t.rw_counter, Label::RwCounter, offset),
            zero_write(t.rwc_inc_left, Label::RwcIncLeft, offset),
        ] + t.tag.writes(offset, CopyDataType::Memory)
    }

    /// The writes of a block: its copy events from the first row on, and two
    /// padding rows behind them.
    pub open spec fn block_writes(self, events: Seq<CopyEvent>, randomness: int) -> Seq<Write> {
        self.events_writes(events, randomness) + self.padding_writes(block_rows(events))
            + self.padding_writes(block_rows(events) + 1)
    }

    /// Fills the cells of a row, but for those that it leaves empty.
    fn assign_cells(
        columns: &[AdviceColumn],
        row: &[(Felt, Label)],
        is_read: bool,
        region: &mut Region,
        offset: usize,
    )
        requires
            columns@.len() == row@.len(),
        ensures
            final(region)@ == old(region)@ + cell_writes(
                columns@,
                row_cells(row@),
                is_read,
                offset as int,
            ),
    {
        let pairs = zip_eq(columns, row);
        let ghost cells = row_cells(row@);
        let n: usize = pairs.len();
        let mut j: usize = 0;
        assert(region@ =~= old(region)@ + cell_writes(
            columns@.take(0),
            cells.take(0),
            is_read,
            offset as int,
        ));
        while j < n
            invariant
                j <= n,
                n == pairs@.len(),
                n == columns@.len(),
                n == row@.len(),
                cells == row_cells(row@),
                forall|i: int| 0 <= i < n ==> #[trigger] pairs@[i] == (columns@[i], row@[i]),
                region@ == old(region)@ + cell_writes(
                    columns@.take(j as int),
                    cells.take(j as int),
                    is_read,
                    offset as int,
                ),
            decreases n - j,
        {
            let (column, (value, label)) = pairs[j];
            if !is_read && (label == Label::SrcAddrEnd || label == Label::BytesLeft) {
            } else {
                region.assign_advice(Annotation::AtRow(label), column, offset, value);
            }
            proof {
                let columns_next = columns@.take(j + 1);
                let cells_next = cells.take(j + 1);
                assert(columns_next.drop_last() =~= columns@.take(j as int));
                assert(cells_next.drop_last() =~= cells.take(j as int));
                assert(cells_next.last() == (value@, label));
                assert(region@ =~= old(region)@ + cell_writes(
                    columns_next,
                    cells_next,
                    is_read,
                    offset as int,
                ));
            }
            j = j + 1;
        }
        assert(columns@.take(n as int) =~= columns@);
        assert(cells.take(n as int) =~= cells);
    }

    /// Assigns a block's copy events, and two padding rows behind them so that
    /// the last rows have rows to refer to.
    pub fn assign_block(&self, region: &mut Region, block: &Block, randomness: Felt)
        requires
            block.is_assignable(),
        ensures
            final(region)@ == old(region)@ + self.block_writes(
                block.copy_events@,
                randomness@,
            ),
    {
        let ghost events = block.copy_events@;
        let n: usize = block.copy_events.len();
        let mut offset: usize = 0;
        let mut i: usize = 0;
        assert(region@ =~= old(region)@ + self.events_writes(events.take(0), randomness@));
        while i < n
            invariant
                i <= n,
                n == events.len(),
                events == block.copy_events@,
                forall|i: int| 0 <= i < events.len() ==> (#[trigger] events[i]).well_formed(),
                block_rows(events) + 2 <= usize::MAX,
                offset == block_rows(events.take(i as int)),
                region@ == old(region)@ + self.events_writes(
                    events.take(i as int),
                    randomness@,
                ),
            decreases n - i,
        {
            proof {
                lemma_block_rows_prefix(events, i + 1);
                assert(events.take(i + 1).drop_last() =~= events.take(i as int));
            }
            self.assign_event(region, &block.copy_events[i], randomness, offset);
            offset = offset + block.copy_events[i].bytes.len() * 2;
            i = i + 1;
            assert(region@ =~= old(region)@ + self.events_writes(
                events.take(i as int),
                randomness@,
            ));
        }
        assert(events.take(n as int) =~= events);
        self.assign_padding_row(region, offset);
        self.assign_padding_row(region, offset + 1);
        assert(region@ =~= old(region)@ + self.block_writes(events, randomness@));
    }

    /// Assigns the rows of one copy event.
    fn assign_event(
        &self,
        region: &mut Region,
        copy_event: &CopyEvent,
        randomness: Felt,
        offset: usize,
    )
        requires
            copy_event.well_formed(),
            offset + copy_event.rows() <= usize::MAX,
        ensures
            final(region)@ == old(region)@ + self.event_writes(
                *copy_event,
                randomness@,
                copy_event.rows(),
                offset as int,
            ),
    {
        let rows = CopyTable::assignments(copy_event, randomness);
        let columns = self.copy_table.columns();
        let circuit_columns = [self.is_last, self.value, self.is_pad, self.is_code];
        assert(circuit_columns@ =~= self.column_list());
        let n: usize = rows.len();
        let mut step: usize = 0;
        assert(region@ =~= old(region)@ + self.event_writes(
            *copy_event,
            randomness@,
            0,
            offset as int,
        ));
        while step < n
            invariant
                step <= n,
                n == rows@.len(),
                n == copy_event.rows(),
                copy_event.well_formed(),
                offset + n <= usize::MAX,
                columns@ == self.copy_table.column_list(),
                circuit_columns@ == self.column_list(),
                forall|k: int|
                    #![trigger rows@[k]]
                    0 <= k < rows@.len() ==> {
                        &&& rows@[k].0 == copy_event.tag_at(k)
                        &&& row_cells(rows@[k].1@) == copy_event.table_row(k, randomness@)
                        &&& row_cells(rows@[k].2@) == copy_event.circuit_row(k, randomness@)
                    },
                region@ == old(region)@ + self.event_writes(
                    *copy_event,
                    randomness@,
                    step as int,
                    offset as int,
                ),
            decreases n - step,
        {
            let ghost before = region@;
            let ghost k = step as int;
            let ghost at = offset + step;
            let is_read = step % 2 == 0;
            let (tag, table_row, circuit_row) = rows[step];
            assert(rows@[k].0 == tag);
            Self::assign_cells(&columns, &table_row, is_read, region, offset + step);
            if is_read {
                region.enable_selector(self.q_step, offset + step);
            }
            region.assign_fixed(
                Annotation::QEnable,
                self.q_enable,
                offset + step,
                Felt::from_u64(1),
            );
            Self::assign_cells(&circuit_columns, &circuit_row, true, region, offset + step);
            self.copy_table.tag.assign(region, offset + step, &tag);
            if is_read {
                self.addr_lt_addr_end.assign(
                    region,
                    offset + step,
                    Felt::from_u64(copy_event.src_addr + (step / 2) as u64),
                    Felt::from_u64(copy_event.src_addr_end),
                );
            }
            proof {
                assert(region@ =~= before + self.step_writes(*copy_event, randomness@, k, at));
                assert(region@ =~= old(region)@ + self.event_writes(
                    *copy_event,
                    randomness@,
                    k + 1,
                    offset as int,
                ));
            }
            step = step + 1;
        }
    }

    /// Assigns a padding row.
    fn assign_padding_row(&self, region: &mut Region, offset: usize)
        ensures
            final(region)@ == old(region)@ + self.padding_writes(offset as int),
    {
        let t = self.copy_table;
        let zero = Felt::from_u64(0);
        region.assign_fixed(Annotation::QEnable, self.q_enable, offset, zero);
        region.assign_advice(Annotation::Assign(Label::IsFirst), t.is_first, offset, zero);
        region.assign_advice(Annotation::Assign(Label::IsLast), self.is_last, offset, zero);
        region.assign_advice(Annotation::Assign(Label::Id), t.id, offset, zero);
        region.assign_advice(Annotation::Assign(Label::Addr), t.addr, offset, zero);
        region.assign_advice(Annotation::Assign(Label::SrcAddrEnd), t.src_addr_end, offset, zero);
        region.assign_advice(Annotation::Assign(Label::BytesLeft), t.bytes_left, offset, zero);
        region.assign_advice(Annotation::Assign(Label::Value), self.value, offset, zero);
        region.assign_advice(Annotation::Assign(Label::RlcAcc), t.rlc_acc, offset, zero);
        region.assign_advice(Annotation::Assign(Label::IsCode), self.is_code, offset, zero);
        region.assign_advice(Annotation::Assign(Label::IsPad), self.is_pad, offset, zero);
        region.assign_advice(Annotation::Assign(Label::RwCounter), t.rw_counter, offset, zero);
        region.assign_advice(Annotation::Assign(Label::RwcIncLeft), t.rwc_inc_left, offset, zero);
        t.tag.assign(region, offset, &CopyDataType::default());
        assert(region@ =~= old(region)@ + self.padding_writes(offset as int));
    }
}

/// The rows of a prefix of a block are no more than those of the block.
pub proof fn lemma_block_rows_prefix(events: Seq<CopyEvent>, n: int)
    requires
        0 <= n <= events.len(),
    ensures
        0 <= block_rows(events.take(n)) <= block_rows(events),
    decreases events.len(),
{
    if n == events.len() {
        assert(events.take(n) =~= events);
        if n > 0 {
            lemma_block_rows_prefix(events.drop_last(), n - 1);
        }
    } else {
        lemma_block_rows_prefix(events.drop_last(), n);
        assert(events.drop_last().take(n) =~= events.take(n));
    }
}

} // verus!
