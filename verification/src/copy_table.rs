//! The table that other circuits look copies up in, and its rows.
use crate::binary_number::BinaryNumberConfig;
use crate::binary_number::{bit_gate_values, range_gate_values};
use crate::constraint_system::ConstraintSystem;
use crate::copy_circuit::{id_value, number_or_hash_to_field};
use crate::copy_event::{CopyDataType, CopyEvent};
use crate::expression::{AdviceColumn, FixedColumn, Witness};
use crate::field::{modulus, Felt};
use crate::region::Label;
use crate::rlc::{accumulate, horner_step};
use vstd::prelude::*;

verus! {

/// The columns of the table.
#[derive(Clone, Copy, Debug, PartialEq, Eq)]
pub struct CopyTable {
    /// Whether the row is the first of a copy event.
    pub is_first: AdviceColumn,
    /// What identifies the source on a read row, and the destination on a
    /// write row.
    pub id: AdviceColumn,
    /// The address of the byte.
    pub addr: AdviceColumn,
    /// The end of the source.
    pub src_addr_end: AdviceColumn,
    /// The number of bytes still to copy.
    pub bytes_left: AdviceColumn,
    /// The combination of all bytes, where they are accumulated.
    pub rlc_acc: AdviceColumn,
    /// The read-write counter.
    pub rw_counter: AdviceColumn,
    /// The number of read-write operations still to come.
    pub rwc_inc_left: AdviceColumn,
    /// The type of the source on a read row, and of the destination on a
    /// write row.
    pub tag: BinaryNumberConfig,
}

/// The cells of the table columns of a row, each with its name.
pub type CopyTableRow = [(Felt, Label); 8];

/// The cells of the other columns of a row, each with its name.
pub type CopyCircuitRow = [(Felt, Label); 4];

/// The numbers and names of the cells of a row.
pub open spec fn row_cells(row: Seq<(Felt, Label)>) -> Seq<(int, Label)> {
    Seq::new(row.len(), |j: int| (row[j].0@, row[j].1))
}

/// A bit as a number.
pub open spec fn bit(b: bool) -> int {
    if b {
        1
    } else {
        0
    }
}

/// The address of a byte of a log: its index, the field that it belongs to
/// (the data of the log), and the number of the log.
pub open spec fn log_address(index: int, log_id: int) -> int {
    index + 3 * 0x1_0000_0000 + log_id * 0x1_0000_0000_0000
}

/// The address of a byte of a log.
pub fn build_tx_log_address(index: u64, log_id: u64) -> (r: Felt)
    ensures
        r@ == log_address(index as int, log_id as int),
        r@ == index + 3 * 0x1_0000_0000 + log_id * 0x1_0000_0000_0000,
{
    let field = Felt::from_u64(3).mul(Felt::from_u64(0x1_0000_0000));
    let log = Felt::from_u64(log_id).mul(Felt::from_u64(0x1_0000_0000_0000));
    Felt::from_u64(index).add(field).add(log)
}

impl CopyEvent {
    /// The values of the bytes.
    pub open spec fn values(self) -> Seq<u8> {
        Seq::new(self.bytes@.len(), |i: int| self.bytes@[i].0)
    }

    /// Whether a step reads: even steps do, odd ones write.
    pub open spec fn is_read(self, step: int) -> bool {
        step % 2 == 0
    }

    /// The type of the place that a step reads or writes.
    pub open spec fn tag_at(self, step: int) -> CopyDataType {
        if self.is_read(step) {
            self.src_type
        } else {
            self.dst_type
        }
    }

    /// The address that a step reads or writes, within its place.
    pub open spec fn addr_at(self, step: int) -> int {
        (if self.is_read(step) {
            self.src_addr as int
        } else {
            self.dst_addr as int
        }) + step / 2
    }

    /// Whether a step reads beyond the end of the source.
    pub open spec fn is_pad_at(self, step: int) -> bool {
        self.is_read(step) && self.addr_at(step) >= self.src_addr_end
    }

    /// The combination of all bytes, where they are accumulated.
    pub open spec fn rlc_acc(self, randomness: int) -> int {
        if self.dst_type is RlcAcc {
            accumulate(self.values(), randomness) % modulus()
        } else {
            0
        }
    }

    /// The value of a step: the byte, or on a write row that accumulates the
    /// combination of the bytes so far.
    pub open spec fn value_at(self, step: int, randomness: int) -> int {
        if self.dst_type is RlcAcc && !self.is_read(step) {
            accumulate(self.values().take(step / 2 + 1), randomness) % modulus()
        } else {
            self.bytes@[step / 2].0 as int
        }
    }

    /// The cells of the table columns at a step.
    pub open spec fn table_row(self, step: int, randomness: int) -> Seq<(int, Label)> {
        seq![
            (bit(step == 0), Label::IsFirst),
            (
                id_value(
                    if self.is_read(step) {
                        self.src_id
                    } else {
                        self.dst_id
                    },
                    randomness,
                ),
                Label::Id,
            ),
            (
                if self.tag_at(step) is TxLog {
                    log_address(self.addr_at(step), self.log_id->0 as int)
                } else {
                    self.addr_at(step)
                },
                Label::Addr,
            ),
            (self.src_addr_end as int, Label::SrcAddrEnd),
            ((self.rows() - step) / 2, Label::BytesLeft),
            (self.rlc_acc(randomness), Label::RlcAcc),
            (self.rw_counter_start + self.rw_increase(step), Label::RwCounter),
            (self.rw_increase(self.rows()) - self.rw_increase(step), Label::RwcIncLeft),
        ]
    }

    /// The cells of the other columns at a step.
    pub open spec fn circuit_row(self, step: int, randomness: int) -> Seq<(int, Label)> {
        seq![
            (bit(step == self.rows() - 1), Label::IsLast),
            (self.value_at(step, randomness), Label::Value),
            (bit(self.is_pad_at(step)), Label::IsPad),
            (bit(self.tag_at(step) is Bytecode && self.bytes@[step / 2].1), Label::IsCode),
        ]
    }
}

impl CopyTable {
    /// Whether `after` is `before` with the gates on the tag, on the rows that
    /// `q_enable` switches on.
    pub open spec fn adds_tag_gates(
        self,
        q_enable: FixedColumn,
        before: ConstraintSystem,
        after: ConstraintSystem,
    ) -> bool {
        &&& after.adds_gates(before, 4)
        &&& forall|j: int|
            0 <= j < 3 ==> (#[trigger] after.added_gate(before, j)).is(
                "bit column is 0 or 1"@,
                seq![""@],
                |w: Witness, row: int|
                    bit_gate_values(
                        (w.fixed)(q_enable.index as int, row),
                        self.tag.bits_at(w, row)[j],
                    ),
            )
        &&& after.added_gate(before, 3).is(
            "binary number value in range"@,
            seq![""@, ""@, ""@],
            |w: Witness, row: int|
                range_gate_values(
                    (w.fixed)(q_enable.index as int, row),
                    self.tag.bits_at(w, row),
                ),
        )
    }

    /// Whether the columns are among the first `n` advice columns, and no two
    /// of them are one.
    pub open spec fn is_allocated(self, n: int) -> bool {
        let columns = self.column_list() + self.tag.bits@;
        &&& forall|i: int| 0 <= i < 11 ==> (#[trigger] columns[i]).index < n
        &&& forall|i: int, j: int|
            #![trigger columns[i], columns[j]]
            0 <= i < j < 11 ==> columns[i].index != columns[j].index
    }

    /// Allocates the columns, and constrains the tag on the rows that
    /// `q_enable` switches on.
    pub fn construct(meta: &mut ConstraintSystem, q_enable: FixedColumn) -> (r: CopyTable)
        requires
            old(meta).num_advice + 11 <= usize::MAX,
        ensures
            r.is_first.index == old(meta).num_advice,
            r.id.index == old(meta).num_advice + 1,
            r.tag.bits@[0].index == old(meta).num_advice + 2,
            r.tag.bits@[1].index == old(meta).num_advice + 3,
            r.tag.bits@[2].index == old(meta).num_advice + 4,
            r.addr.index == old(meta).num_advice + 5,
            r.src_addr_end.index == old(meta).num_advice + 6,
            r.bytes_left.index == old(meta).num_advice + 7,
            r.rlc_acc.index == old(meta).num_advice + 8,
            r.rw_counter.index == old(meta).num_advice + 9,
            r.rwc_inc_left.index == old(meta).num_advice + 10,
            final(meta).extends_columns(*old(meta), 11),
            final(meta).lookups == old(meta).lookups,
            r.adds_tag_gates(q_enable, *old(meta), *final(meta)),
            r.is_allocated(final(meta).num_advice as int),
    {
        let is_first = meta.advice_column();
        let id = meta.advice_column();
        let ghost before_tag = *meta;
        let tag = BinaryNumberConfig::configure(meta, q_enable);
        let ghost after_tag = *meta;
        let addr = meta.advice_column();
        let src_addr_end = meta.advice_column();
        let bytes_left = meta.advice_column();
        let rlc_acc = meta.advice_column();
        let rw_counter = meta.advice_column();
        let rwc_inc_left = meta.advice_column();
        assert forall|j: int| 0 <= j < 4 implies #[trigger] meta.added_gate(*old(meta), j)
            == after_tag.added_gate(before_tag, j) by {}
        CopyTable {
            is_first,
            id,
            addr,
            src_addr_end,
            bytes_left,
            rlc_acc,
            rw_counter,
            rwc_inc_left,
            tag,
        }
    }

    /// The columns but for the tag, in the order of a table row.
    pub open spec fn column_list(self) -> Seq<AdviceColumn> {
        seq![
            self.is_first,
            self.id,
            self.addr,
            self.src_addr_end,
            self.bytes_left,
            self.rlc_acc,
            self.rw_counter,
            self.rwc_inc_left,
        ]
    }

    /// The columns but for the tag, in the order of a table row.
    pub fn columns(&self) -> (r: [AdviceColumn; 8])
        ensures
            r@ == self.column_list(),
            r@ == seq![
                self.is_first,
                self.id,
                self.addr,
                self.src_addr_end,
                self.bytes_left,
                self.rlc_acc,
                self.rw_counter,
                self.rwc_inc_left,
            ],
    {
        let r = [
            self.is_first,
            self.id,
            self.addr,
            self.src_addr_end,
            self.bytes_left,
            self.rlc_acc,
            self.rw_counter,
            self.rwc_inc_left,
        ];
        assert(r@ =~= self.column_list());
        r
    }

    /// The rows of a copy event: for each byte a read row and a write row.
    pub fn assignments(copy_event: &CopyEvent, randomness: Felt) -> (r: Vec<
        (CopyDataType, CopyTableRow, CopyCircuitRow),
    >)
        requires
            copy_event.well_formed(),
        ensures
            r@.len() == copy_event.rows(),
            forall|k: int|
                #![trigger r@[k]]
                0 <= k < r@.len() ==> {
                    &&& r@[k].0 == copy_event.tag_at(k)
                    &&& row_cells(r@[k].1@) == copy_event.table_row(k, randomness@)
                    &&& row_cells(r@[k].2@) == copy_event.circuit_row(k, randomness@)
                },
            r@.len() == 2 * copy_event.bytes@.len(),
            forall|k: int|
                0 <= k < r@.len() ==> {
                    &&& (#[trigger] r@[k]).1[0].0@ == (if k == 0 {
                        1int
                    } else {
                        0int
                    })
                    &&& r@[k].2[0].0@ == (if k == r@.len() - 1 {
                        1int
                    } else {
                        0int
                    })
                    &&& k % 2 == 0 || copy_event.dst_type != CopyDataType::RlcAcc ==> r@[k].2[1].0@
                        == copy_event.bytes@[k / 2].0
                },
    {
        let mut r: Vec<(CopyDataType, CopyTableRow, CopyCircuitRow)> = Vec::new();
        let rlc_acc = Self::accumulated(copy_event, randomness);
        let mut value_acc = Felt::from_u64(0);
        let n: usize = copy_event.bytes.len();
        let mut i: usize = 0;
        assert(copy_event.values().take(0) =~= Seq::<u8>::empty());
        while i < n
            invariant
                n == copy_event.bytes@.len(),
                i <= n,
                copy_event.well_formed(),
                r@.len() == 2 * i,
                rlc_acc@ == copy_event.rlc_acc(randomness@),
                value_acc@ == accumulate(copy_event.values().take(i as int), randomness@)
                    % modulus(),
                forall|k: int|
                    #![trigger r@[k]]
                    0 <= k < r@.len() ==> {
                        &&& r@[k].0 == copy_event.tag_at(k)
                        &&& row_cells(r@[k].1@) == copy_event.table_row(k, randomness@)
                        &&& row_cells(r@[k].2@) == copy_event.circuit_row(k, randomness@)
                    },
            decreases n - i,
        {
            let byte = copy_event.bytes[i].0;
            let ghost before = copy_event.values().take(i as int);
            let value = Felt::from_u64(byte as u64);
            value_acc = horner_step(value_acc, randomness, byte);
            proof {
                assert(copy_event.values().take(i + 1).drop_last() =~= before);
                assert((accumulate(before, randomness@) * randomness@ + byte) % modulus()
                    == value_acc@);
            }
            let written = match copy_event.dst_type {
                CopyDataType::RlcAcc => value_acc,
                _ => value,
            };
            let read_row = Self::row(copy_event, randomness, 2 * i, rlc_acc, value);
            r.push(read_row);
            let write_row = Self::row(copy_event, randomness, 2 * i + 1, rlc_acc, written);
            r.push(write_row);
            i = i + 1;
        }
        proof {
            assert forall|k: int| 0 <= k < r@.len() implies {
                &&& (#[trigger] r@[k]).1[0].0@ == (if k == 0 {
                    1int
                } else {
                    0int
                })
                &&& r@[k].2[0].0@ == (if k == r@.len() - 1 {
                    1int
                } else {
                    0int
                })
                &&& k % 2 == 0 || copy_event.dst_type != CopyDataType::RlcAcc ==> r@[k].2[1].0@
                    == copy_event.bytes@[k / 2].0
            } by {
                let i = k / 2;
                copy_event.law_read_row(i, randomness@);
                copy_event.law_write_row(i, randomness@);
                let table = row_cells(r@[k].1@);
                let circuit = row_cells(r@[k].2@);
                assert(table[0].0 == r@[k].1@[0].0@);
                assert(circuit[0].0 == r@[k].2@[0].0@);
                assert(circuit[1].0 == r@[k].2@[1].0@);
                assert(k == 2 * i || k == 2 * i + 1);
            }
        }
        r
    }

    /// The combination of all bytes, where they are accumulated.
    fn accumulated(copy_event: &CopyEvent, randomness: Felt) -> (r: Felt)
        ensures
            r@ == copy_event.rlc_acc(randomness@),
    {
        let mut acc = Felt::from_u64(0);
        match copy_event.dst_type {
            CopyDataType::RlcAcc => {
                let n: usize = copy_event.bytes.len();
                let mut i: usize = 0;
                assert(copy_event.values().take(0) =~= Seq::<u8>::empty());
                while i < n
                    invariant
                        n == copy_event.bytes@.len(),
                        i <= n,
                        acc@ == accumulate(copy_event.values().take(i as int), randomness@)
                            % modulus(),
                    decreases n - i,
                {
                    let byte = copy_event.bytes[i].0;
                    let ghost before = copy_event.values().take(i as int);
                    acc = horner_step(acc, randomness, byte);
                    proof {
                        assert(copy_event.values().take(i + 1).drop_last() =~= before);
                        assert((accumulate(before, randomness@) * randomness@ + byte) % modulus()
                            == acc@);
                    }
                    i = i + 1;
                }
                assert(copy_event.values().take(n as int) =~= copy_event.values());
            },
            _ => {},
        }
        acc
    }

    /// The row of a step, given its value.
    fn row(
        copy_event: &CopyEvent,
        randomness: Felt,
        step: usize,
        rlc_acc: Felt,
        value: Felt,
    ) -> (r: (CopyDataType, CopyTableRow, CopyCircuitRow))
        requires
            copy_event.well_formed(),
            step < copy_event.rows(),
            rlc_acc@ == copy_event.rlc_acc(randomness@),
            value@ == copy_event.value_at(step as int, randomness@),
        ensures
            r.0 == copy_event.tag_at(step as int),
            row_cells(r.1@) == copy_event.table_row(step as int, randomness@),
            row_cells(r.2@) == copy_event.circuit_row(step as int, randomness@),
    {
        let is_read = step % 2 == 0;
        let tag = if is_read {
            copy_event.src_type
        } else {
            copy_event.dst_type
        };
        let id = if is_read {
            number_or_hash_to_field(&copy_event.src_id, randomness)
        } else {
            number_or_hash_to_field(&copy_event.dst_id, randomness)
        };
        let copied: u64 = (step / 2) as u64;
        let step_addr: u64 = if is_read {
            copy_event.src_addr + copied
        } else {
            copy_event.dst_addr + copied
        };
        let addr = match (tag, copy_event.log_id) {
            (CopyDataType::TxLog, Some(log_id)) => build_tx_log_address(step_addr, log_id),
            _ => Felt::from_u64(step_addr),
        };
        let rows: usize = copy_event.bytes.len() * 2;
        let is_pad = is_read && step_addr >= copy_event.src_addr_end;
        let is_code = match tag {
            CopyDataType::Bytecode => copy_event.bytes[step / 2].1,
            _ => false,
        };
        let table_row = [
            (Felt::from_bool(step == 0), Label::IsFirst),
            (id, Label::Id),
            (addr, Label::Addr),
            (Felt::from_u64(copy_event.src_addr_end), Label::SrcAddrEnd),
            (Felt::from_u64(((rows - step) / 2) as u64), Label::BytesLeft),
            (rlc_acc, Label::RlcAcc),
            (Felt::from_u64(copy_event.rw_counter(step)), Label::RwCounter),
            (Felt::from_u64(copy_event.rw_counter_increase_left(step)), Label::RwcIncLeft),
        ];
        let circuit_row = [
            (Felt::from_bool(step == rows - 1), Label::IsLast),
            (value, Label::Value),
            (Felt::from_bool(is_pad), Label::IsPad),
            (Felt::from_bool(is_code), Label::IsCode),
        ];
        assert(row_cells(table_row@) =~= copy_event.table_row(step as int, randomness@));
        assert(row_cells(circuit_row@) =~= copy_event.circuit_row(step as int, randomness@));
        (tag, table_row, circuit_row)
    }
}

} // verus!
