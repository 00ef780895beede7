//! What the rows of a copy event hold, in terms of the event itself.
use crate::assignment::block_rows;
use crate::copy_event::{Block, CopyDataType, CopyEvent, NumberOrHash};
use crate::field::modulus;
use crate::region::Label;
use crate::rlc::accumulate;
use crate::sum::{
    law_accumulation_is_sum_of_powers, law_identity_value, lemma_sum_same, sum,
};
use vstd::arithmetic::power::pow;
use vstd::prelude::*;

verus! {

/// The numbers by which types are told apart in the tag columns, and their
/// bits, the highest first.
pub proof fn law_type_bits(t: CopyDataType)
    ensures
        t.bits() == (match t {
            CopyDataType::Bytecode => seq![false, false, true],
            CopyDataType::Memory => seq![false, true, false],
            CopyDataType::TxCalldata => seq![false, true, true],
            CopyDataType::TxLog => seq![true, false, false],
            CopyDataType::RlcAcc => seq![true, false, true],
        }),
{
    assert(t.bits() =~= (match t {
        CopyDataType::Bytecode => seq![false, false, true],
        CopyDataType::Memory => seq![false, true, false],
        CopyDataType::TxCalldata => seq![false, true, true],
        CopyDataType::TxLog => seq![true, false, false],
        CopyDataType::RlcAcc => seq![true, false, true],
    }));
}

impl CopyEvent {
    /// The operations of an event are counted one by one: on an even step a
    /// read of memory before the end of the source, and on an odd step a write
    /// to memory or to a log.
    pub proof fn law_rw_increase_counts_operations(self, step: int)
        requires
            step >= 0,
        ensures
            self.rw_increase(step) == sum(
                |k: int|
                    if k % 2 == 0 {
                        if self.src_type == CopyDataType::Memory && self.src_addr + k / 2
                            < self.src_addr_end {
                            1
                        } else {
                            0
                        }
                    } else {
                        if self.dst_type == CopyDataType::Memory || self.dst_type
                            == CopyDataType::TxLog {
                            1
                        } else {
                            0
                        }
                    },
                step,
            ),
        decreases step,
    {
        if step > 0 {
            self.law_rw_increase_counts_operations(step - 1);
        }
    }

    /// An event is well-formed if and only if, as far as it has bytes, they
    /// come from a bytecode, memory or calldata and go to a bytecode, memory,
    /// a log with a number or an accumulator, every address fits 64 bits, and
    /// so does the read-write counter behind all operations; and its rows can
    /// be counted.
    pub proof fn law_well_formed(self)
        ensures
            self.well_formed() <==> {
                &&& forall|i: int|
                    0 <= i < self.bytes@.len() ==> {
                        &&& #[trigger] self.bytes@[i] == self.bytes@[i]
                        &&& self.src_type != CopyDataType::TxLog
                        &&& self.src_type != CopyDataType::RlcAcc
                        &&& self.dst_type != CopyDataType::TxCalldata
                        &&& self.dst_type == CopyDataType::TxLog ==> self.log_id is Some
                        &&& self.src_addr + i < 0x1_0000_0000_0000_0000
                        &&& self.dst_addr + i < 0x1_0000_0000_0000_0000
                    }
                &&& 2 * self.bytes@.len() <= usize::MAX
                &&& self.rw_counter_start + sum(
                    |k: int|
                        if k % 2 == 0 {
                            if self.src_type == CopyDataType::Memory && self.src_addr + k / 2
                                < self.src_addr_end {
                                1
                            } else {
                                0
                            }
                        } else {
                            if self.dst_type == CopyDataType::Memory || self.dst_type
                                == CopyDataType::TxLog {
                                1
                            } else {
                                0
                            }
                        },
                    2 * self.bytes@.len() as int,
                ) < 0x1_0000_0000_0000_0000
            },
    {
        self.law_rw_increase_counts_operations(2 * self.bytes@.len() as int);
        let n = self.bytes@.len() as int;
        if n > 0 {
            assert(self.bytes@[n - 1] == self.bytes@[n - 1]);
        }
    }

    /// The read row of a byte. It names the source, the address and the end of
    /// the source, counts the bytes left with this one, holds the byte as it
    /// is, and is padding if the address is at or beyond the end; it is the
    /// first row if the byte is the first one, and never the last.
    pub proof fn law_read_row(self, i: int, randomness: int)
        requires
            self.well_formed(),
            0 <= i < self.bytes@.len(),
        ensures
            self.tag_at(2 * i) == self.src_type,
            self.table_row(2 * i, randomness) == seq![
                (
                    if i == 0 {
                        1int
                    } else {
                        0int
                    },
                    Label::IsFirst,
                ),
                (
                    match self.src_id {
                        NumberOrHash::Number(n) => n as int,
                        NumberOrHash::Hash(h) => sum(
                            |j: int| h@[31 - j] * pow(randomness, j as nat),
                            32,
                        ) % modulus(),
                    },
                    Label::Id,
                ),
                (self.src_addr + i, Label::Addr),
                (self.src_addr_end as int, Label::SrcAddrEnd),
                (self.bytes@.len() - i, Label::BytesLeft),
                (
                    if self.dst_type == CopyDataType::RlcAcc {
                        sum(
                            |j: int|
                                self.bytes@[j].0 * pow(
                                    randomness,
                                    (self.bytes@.len() - 1 - j) as nat,
                                ),
                            self.bytes@.len() as int,
                        ) % modulus()
                    } else {
                        0
                    },
                    Label::RlcAcc,
                ),
                (self.rw_counter_start + self.rw_increase(2 * i), Label::RwCounter),
                (
                    self.rw_increase(2 * self.bytes@.len() as int) - self.rw_increase(2 * i),
                    Label::RwcIncLeft,
                ),
            ],
            self.circuit_row(2 * i, randomness) == seq![
                (0int, Label::IsLast),
                (self.bytes@[i].0 as int, Label::Value),
                (
                    if self.src_addr + i >= self.src_addr_end {
                        1int
                    } else {
                        0int
                    },
                    Label::IsPad,
                ),
                (
                    if self.src_type == CopyDataType::Bytecode && self.bytes@[i].1 {
                        1int
                    } else {
                        0int
                    },
                    Label::IsCode,
                ),
            ],
    {
        law_identity_value(self.src_id, randomness);
        self.lemma_all_bytes(randomness);
    }

    /// The write row of a byte. It names the destination and the address, in a
    /// log together with the field and the number of the log, and holds the
    /// byte as it is, or where bytes are accumulated their sum so far, each
    /// times the power of the challenge for its distance; it is no padding, it
    /// is the last row if the byte is the last one, and never the first.
    pub proof fn law_write_row(self, i: int, randomness: int)
        requires
            self.well_formed(),
            0 <= i < self.bytes@.len(),
        ensures
            self.tag_at(2 * i + 1) == self.dst_type,
            self.table_row(2 * i + 1, randomness) == seq![
                (0int, Label::IsFirst),
                (
                    match self.dst_id {
                        NumberOrHash::Number(n) => n as int,
                        NumberOrHash::Hash(h) => sum(
                            |j: int| h@[31 - j] * pow(randomness, j as nat),
                            32,
                        ) % modulus(),
                    },
                    Label::Id,
                ),
                (
                    if self.dst_type == CopyDataType::TxLog {
                        self.dst_addr + i + 3 * 0x1_0000_0000 + self.log_id->0
                            * 0x1_0000_0000_0000
                    } else {
                        self.dst_addr + i
                    },
                    Label::Addr,
                ),
                (self.src_addr_end as int, Label::SrcAddrEnd),
                (self.bytes@.len() - i - 1, Label::BytesLeft),
                (
                    if self.dst_type == CopyDataType::RlcAcc {
                        sum(
                            |j: int|
                                self.bytes@[j].0 * pow(
                                    randomness,
                                    (self.bytes@.len() - 1 - j) as nat,
                                ),
                            self.bytes@.len() as int,
                        ) % modulus()
                    } else {
                        0
                    },
                    Label::RlcAcc,
                ),
                (self.rw_counter_start + self.rw_increase(2 * i + 1), Label::RwCounter),
                (
                    self.rw_increase(2 * self.bytes@.len() as int) - self.rw_increase(2 * i + 1),
                    Label::RwcIncLeft,
                ),
            ],
            self.circuit_row(2 * i + 1, randomness) == seq![
                (
                    if i == self.bytes@.len() - 1 {
                        1int
                    } else {
                        0int
                    },
                    Label::IsLast,
                ),
                (
                    if self.dst_type == CopyDataType::RlcAcc {
                        sum(
                            |j: int| self.bytes@[j].0 * pow(randomness, (i - j) as nat),
                            i + 1,
                        ) % modulus()
                    } else {
                        self.bytes@[i].0 as int
                    },
                    Label::Value,
                ),
                (0int, Label::IsPad),
                (
                    if self.dst_type == CopyDataType::Bytecode && self.bytes@[i].1 {
                        1int
                    } else {
                        0int
                    },
                    Label::IsCode,
                ),
            ],
    {
        law_identity_value(self.dst_id, randomness);
        self.lemma_all_bytes(randomness);
        let so_far = self.values().take(i + 1);
        law_accumulation_is_sum_of_powers(so_far, randomness);
        lemma_sum_same(
            |j: int| so_far[j] * pow(randomness, (so_far.len() - 1 - j) as nat),
            |j: int| self.bytes@[j].0 * pow(randomness, (i - j) as nat),
            i + 1,
        );
    }

    /// The combination of all bytes.
    proof fn lemma_all_bytes(self, randomness: int)
        ensures
            accumulate(self.values(), randomness) == sum(
                |j: int|
                    self.bytes@[j].0 * pow(randomness, (self.bytes@.len() - 1 - j) as nat),
                self.bytes@.len() as int,
            ),
    {
        let values = self.values();
        law_accumulation_is_sum_of_powers(values, randomness);
        lemma_sum_same(
            |j: int| values[j] * pow(randomness, (values.len() - 1 - j) as nat),
            |j: int| self.bytes@[j].0 * pow(randomness, (self.bytes@.len() - 1 - j) as nat),
            values.len() as int,
        );
    }

    /// The bytes beyond the end of the source are zero if and only if each is.
    pub proof fn law_padded_with_zeros(self)
        ensures
            self.padded_with_zeros() <==> !exists|i: int|
                0 <= i < self.bytes@.len() && (#[trigger] self.bytes@[i]).0 != 0 && self.src_addr
                    + i >= self.src_addr_end,
    {
    }
}

/// The rows of a block are two for each byte of its events.
pub proof fn law_block_rows(events: Seq<CopyEvent>)
    ensures
        block_rows(events) == sum(
            |i: int| 2 * events[i].bytes@.len() as int,
            events.len() as int,
        ),
    decreases events.len(),
{
    if events.len() > 0 {
        let before = events.drop_last();
        law_block_rows(before);
        lemma_sum_same(
            |i: int| 2 * before[i].bytes@.len() as int,
            |i: int| 2 * events[i].bytes@.len() as int,
            before.len() as int,
        );
    }
}

impl Block {
    /// A block can be assigned if and only if all its events are well-formed,
    /// and two rows for each byte and two more can be counted.
    pub proof fn law_assignable(self)
        ensures
            self.is_assignable() <==> {
                &&& forall|i: int|
                    0 <= i < self.copy_events@.len() ==> (
                    #[trigger] self.copy_events@[i]).well_formed()
                &&& sum(
                    |i: int| 2 * self.copy_events@[i].bytes@.len() as int,
                    self.copy_events@.len() as int,
                ) + 2 <= usize::MAX
            },
    {
        law_block_rows(self.copy_events@);
    }
}

} // verus!
