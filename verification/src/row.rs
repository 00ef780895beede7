//! The polynomials of the copy circuit, as functions of consecutive rows.
use crate::binary_number::{bits_equal, bits_value, literal};
use crate::constraint_builder::or_value;
use crate::copy_event::CopyDataType;
use crate::copy_table::bit;
use vstd::prelude::*;

verus! {

/// What a row of the copy circuit holds.
#[verifier::ext_equal]
pub struct Row {
    pub q_enable: int,
    pub q_step: int,
    pub is_first: int,
    pub is_last: int,
    pub id: int,
    pub addr: int,
    pub src_addr_end: int,
    pub bytes_left: int,
    pub value: int,
    pub rlc_acc: int,
    pub is_code: int,
    pub is_pad: int,
    pub rw_counter: int,
    pub rwc_inc_left: int,
    /// The three bits of the tag, the highest first.
    pub tag: Seq<int>,
    /// The outcome of the comparison of the address with the source's end.
    pub lt: int,
    /// The eight bytes behind the comparison, the lowest first.
    pub diff: Seq<int>,
}

impl Row {
    /// One if the tag stands for `t`, and zero if it stands for another type.
    pub open spec fn tag_is(self, t: CopyDataType) -> int {
        bits_equal(self.tag, t.bits())
    }

    /// One if the row is a read-write operation, and zero if it is not.
    pub open spec fn rw_diff(self) -> int {
        or_value(self.tag_is(CopyDataType::Memory), self.tag_is(CopyDataType::TxLog)) * (1
            - self.is_pad)
    }
}

/// Every value multiplied by a selector.
pub open spec fn switched(selector: int, values: Seq<int>) -> Seq<int> {
    values.map_values(|v: int| selector * v)
}

/// The names of the constraints on every row.
pub open spec fn row_names() -> Seq<Seq<char>> {
    seq![
        "is_first is boolean"@,
        "is_last is boolean"@,
        "is_first == 0 when q_step == 0"@,
        "is_last == 0 when q_step == 1"@,
        "rows[0].id == rows[2].id"@,
        "rows[0].tag == rows[2].tag"@,
        "rows[0].addr + 1 == rows[2].addr"@,
        "rows[0].src_addr_end == rows[2].src_addr_end for non-last step"@,
        "rows[0].rw_counter + rw_diff == rows[1].rw_counter"@,
        "rows[0].rwc_inc_left - rw_diff == rows[1].rwc_inc_left"@,
        "rows[0].rlc_acc == rows[1].rlc_acc"@,
        "rwc_inc_left == rw_diff for last row in the copy slot"@,
        "value == rlc_acc at the last row for RlcAcc"@,
    ]
}

/// The values of the constraints on every enabled row, given the row and the
/// two behind it.
pub open spec fn row_polys(x: Row, y: Row, z: Row) -> Seq<int> {
    let not_last_two_rows = 1 - x.is_last - y.is_last;
    let not_last = 1 - x.is_last;
    seq![
        x.is_first * (1 - x.is_first),
        x.is_last * (1 - x.is_last),
        (1 - x.q_step) * x.is_first,
        x.is_last * x.q_step,
        not_last_two_rows * (x.id - z.id),
        not_last_two_rows * (bits_value(x.tag) - bits_value(z.tag)),
        not_last_two_rows * (x.addr + 1 - z.addr),
        not_last_two_rows * (x.src_addr_end - z.src_addr_end),
        not_last * (x.rw_counter + x.rw_diff() - y.rw_counter),
        not_last * (x.rwc_inc_left - x.rw_diff() - y.rwc_inc_left),
        not_last * (x.rlc_acc - y.rlc_acc),
        x.is_last * (x.rwc_inc_left - x.rw_diff()),
        x.is_last * x.tag_is(CopyDataType::RlcAcc) * (x.value - x.rlc_acc),
    ]
}

/// The names of the constraints on a read row and the write row behind it.
pub open spec fn step_names() -> Seq<Seq<char>> {
    seq![
        "bytes_left == 1 for last step"@,
        "bytes_left == bytes_left_next + 1 for non-last step"@,
        "write value == read value (if not rlc acc)"@,
        "write value == read value (is_first == 1)"@,
        "value == 0 when is_pad == 1 for read"@,
        "is_pad == 1 - (src_addr < src_addr_end) for read row"@,
        "is_pad == 0 for write row"@,
    ]
}

/// The values of the constraints on a read row, the write row behind it, and
/// the next read row.
pub open spec fn step_polys(x: Row, y: Row, z: Row) -> Seq<int> {
    seq![
        y.is_last * (1 - x.bytes_left),
        (1 - y.is_last) * (x.bytes_left - (z.bytes_left + 1)),
        (1 - y.tag_is(CopyDataType::RlcAcc)) * (x.value - y.value),
        x.is_first * (x.value - y.value),
        x.is_pad * x.value,
        1 - x.lt - x.is_pad,
        y.is_pad,
    ]
}

/// The names of the constraints on an accumulating write row.
pub open spec fn acc_names() -> Seq<Seq<char>> {
    seq!["rows[2].value == rows[0].value * r + rows[1].value"@]
}

/// One on a write row that accumulates and is not the last, zero elsewhere.
pub open spec fn acc_switch(x: Row) -> int {
    x.q_enable * (1 - x.q_step) * (1 - x.is_last) * x.tag_is(CopyDataType::RlcAcc) * (1 - x.is_pad)
}

/// The values of the constraints on an accumulating write row, the read row
/// behind it, and the next write row.
pub open spec fn acc_polys(x: Row, y: Row, z: Row, randomness: int) -> Seq<int> {
    seq![z.value - (x.value * randomness + y.value)]
}

/// The number that stands for memory in the read-write table.
pub open spec fn rw_tag_memory() -> int {
    3
}

/// The number that stands for the log of a transaction in the read-write
/// table.
pub open spec fn rw_tag_tx_log() -> int {
    11
}

/// The number that stands for a byte in the bytecode table.
pub open spec fn bytecode_tag_byte() -> int {
    1
}

/// The number that stands for calldata in the transaction table.
pub open spec fn tx_tag_calldata() -> int {
    11
}

/// One on a row that is a memory operation.
pub open spec fn memory_switch(x: Row) -> int {
    x.q_enable * x.tag_is(CopyDataType::Memory) * (1 - x.is_pad)
}

/// The record of a memory operation in the read-write table.
pub open spec fn memory_record(x: Row) -> Seq<int> {
    seq![x.rw_counter, 1 - x.q_step, rw_tag_memory(), x.id, x.addr, 0, 0, x.value, 0, 0, 0]
}

/// One on a row that writes to a log.
pub open spec fn tx_log_switch(x: Row) -> int {
    x.q_enable * x.tag_is(CopyDataType::TxLog)
}

/// The record of a write to a log in the read-write table.
pub open spec fn tx_log_record(x: Row) -> Seq<int> {
    seq![x.rw_counter, 1, rw_tag_tx_log(), x.id, x.addr, 0, 0, x.value, 0, 0, 0]
}

/// One on a row that reads or writes a byte of a bytecode.
pub open spec fn bytecode_switch(x: Row) -> int {
    x.q_enable * x.tag_is(CopyDataType::Bytecode) * (1 - x.is_pad)
}

/// The record of a byte in the bytecode table.
pub open spec fn bytecode_record(x: Row) -> Seq<int> {
    seq![x.id, bytecode_tag_byte(), x.addr, x.is_code, x.value]
}

/// One on a row that reads a byte of a transaction's calldata.
pub open spec fn calldata_switch(x: Row) -> int {
    x.q_enable * x.tag_is(CopyDataType::TxCalldata) * (1 - x.is_pad)
}

/// The record of a byte of calldata in the transaction table.
pub open spec fn calldata_record(x: Row) -> Seq<int> {
    seq![x.id, tx_tag_calldata(), x.addr, x.value]
}

/// The tag of a type, as a row holds it.
pub open spec fn type_tag(t: CopyDataType) -> Seq<int> {
    t.bits().map_values(|b: bool| bit(b))
}

/// A product with a factor of zero is zero.
pub proof fn lemma_zero_product(a: int, b: int)
    by (nonlinear_arith)
    requires
        a == 0 || b == 0,
    ensures
        a * b == 0,
{
}

/// A product of bits is one if they all are.
pub proof fn lemma_product_of_bits(a: int, b: int, c: int)
    by (nonlinear_arith)
    requires
        a == 0 || a == 1,
        b == 0 || b == 1,
        c == 0 || c == 1,
    ensures
        a * b * c == (if a == 1 && b == 1 && c == 1 {
            1int
        } else {
            0int
        }),
{
}

/// The bits of a type match the pattern of that type and of no other.
pub proof fn lemma_tag_bits(t: CopyDataType, u: CopyDataType)
    ensures
        bits_equal(type_tag(t), u.bits()) == bit(t == u),
        bits_value(type_tag(t)) == t.code(),
{
    let bits = type_tag(t);
    lemma_product_of_bits(
        literal(bits[0], u.bits()[0]),
        literal(bits[1], u.bits()[1]),
        literal(bits[2], u.bits()[2]),
    );
}

} // verus!
