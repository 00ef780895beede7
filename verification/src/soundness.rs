//! What the constraints say of a copy: the meaning of rows that satisfy them.
use crate::assigned_rows::{lemma_step_of, lemma_step_of_place, step_of};
use crate::assignment::block_rows;
use crate::binary_number::{bit_gate_values, bits_value, range_gate_values};
use crate::congruence::{
    congruent, in_field, lemma_boolean, lemma_congruent_in_field, lemma_congruent_product,
    lemma_congruent_sum, lemma_small_value_vanishes,
};
use crate::completeness::{holds_record, is_recorded, step_is_recorded};
use crate::constraint_builder::or_value;
use crate::constraint_system::{
    all_vanish, lookup_inputs, lookup_tables, ConstraintSystem, Lookup,
};
use crate::copy_circuit::{paired, CopyCircuit};
use crate::copy_event::{min_of, CopyDataType, CopyEvent};
use crate::copy_table::bit;
use crate::expression::{Expression, Witness};
use crate::field::modulus;
use crate::less_than::{law_comparison_is_sound, byte_of, lt_diff, lt_gate_values, lt_range};
use crate::rlc::{accumulate, rlc};
use crate::row::{
    acc_polys, acc_switch, bytecode_record, bytecode_switch, calldata_record, calldata_switch,
    lemma_product_of_bits, lemma_tag_bits, memory_record, memory_switch, row_polys, step_polys,
    switched, tx_log_record, tx_log_switch, type_tag, Row,
};
use vstd::arithmetic::div_mod::lemma_mod_bound;
use vstd::prelude::*;

verus! {

impl Row {
    /// Whether every cell holds a canonical field element.
    pub open spec fn is_over_field(self) -> bool {
        &&& in_field(self.is_first)
        &&& in_field(self.is_last)
        &&& in_field(self.id)
        &&& in_field(self.addr)
        &&& in_field(self.src_addr_end)
        &&& in_field(self.bytes_left)
        &&& in_field(self.value)
        &&& in_field(self.rlc_acc)
        &&& in_field(self.is_code)
        &&& in_field(self.is_pad)
        &&& in_field(self.rw_counter)
        &&& in_field(self.rwc_inc_left)
        &&& in_field(self.lt)
        &&& self.tag.len() == 3
        &&& forall|j: int| 0 <= j < 3 ==> in_field(#[trigger] self.tag[j])
        &&& self.diff.len() == 8
        &&& forall|j: int| 0 <= j < 8 ==> in_field(#[trigger] self.diff[j])
    }

    /// Whether the row is a read-write operation: one on memory or on a log,
    /// and no padding.
    pub open spec fn is_operation(self) -> bool {
        &&& self.tag == type_tag(CopyDataType::Memory) || self.tag == type_tag(
            CopyDataType::TxLog,
        )
        &&& self.is_pad == 0
    }
}

/// A product with a factor of one is the other factor.
proof fn lemma_one_product(a: int, b: int)
    by (nonlinear_arith)
    requires
        a == 1,
    ensures
        a * b == b,
{
}

/// What a constraint that is switched on says.
proof fn lemma_switched_on(selector: int, values: Seq<int>, i: int)
    requires
        selector == 1,
        0 <= i < values.len(),
        all_vanish(switched(selector, values)),
    ensures
        values[i] % modulus() == 0,
{
    assert(switched(selector, values)[i] % modulus() == 0);
    lemma_one_product(selector, values[i]);
}

/// A tag that satisfies its constraints is that of a type.
proof fn lemma_tag_type(x: Row) -> (t: CopyDataType)
    requires
        x.q_enable == 1,
        x.is_over_field(),
        forall|j: int|
            0 <= j < 3 ==> all_vanish(bit_gate_values(x.q_enable, #[trigger] x.tag[j])),
        all_vanish(range_gate_values(x.q_enable, x.tag)),
    ensures
        x.tag == type_tag(t),
{
    assert forall|j: int| 0 <= j < 3 implies #[trigger] x.tag[j] == 0 || x.tag[j] == 1 by {
        let values = bit_gate_values(x.q_enable, x.tag[j]);
        assert(values[0] % modulus() == 0);
        lemma_one_product(x.q_enable, x.tag[j]);
        lemma_boolean(x.tag[j]);
    }
    let a = x.tag[0];
    let b = x.tag[1];
    let c = x.tag[2];
    let values = range_gate_values(x.q_enable, x.tag);
    assert(values[0] % modulus() == 0);
    assert(values[1] % modulus() == 0);
    assert(values[2] % modulus() == 0);
    lemma_product_of_bits(1 - a, 1 - b, 1 - c);
    lemma_product_of_bits(a, b, 1 - c);
    lemma_product_of_bits(a, b, c);
    lemma_one_product(x.q_enable, (1 - a) * (1 - b) * (1 - c));
    lemma_one_product(x.q_enable, a * b * (1 - c));
    lemma_one_product(x.q_enable, a * b * c);
    let t = if a == 0 {
        if b == 0 {
            CopyDataType::Bytecode
        } else if c == 0 {
            CopyDataType::Memory
        } else {
            CopyDataType::TxCalldata
        }
    } else if c == 0 {
        CopyDataType::TxLog
    } else {
        CopyDataType::RlcAcc
    };
    assert(x.tag =~= type_tag(t));
    t
}

/// What the constraints on every row say of three consecutive rows.
proof fn lemma_row_meaning(x: Row, y: Row, z: Row)
    requires
        x.q_enable == 1,
        x.is_over_field(),
        y.is_over_field(),
        z.is_over_field(),
        all_vanish(switched(x.q_enable, row_polys(x, y, z))),
    ensures
        x.is_first == 0 || x.is_first == 1,
        x.is_last == 0 || x.is_last == 1,
        x.is_last == 0 && y.is_last == 0 ==> {
            &&& x.id == z.id
            &&& congruent(bits_value(x.tag), bits_value(z.tag))
            &&& congruent(x.addr + 1, z.addr)
            &&& x.src_addr_end == z.src_addr_end
        },
        x.is_last == 0 ==> {
            &&& congruent(x.rw_counter + x.rw_diff(), y.rw_counter)
            &&& congruent(x.rwc_inc_left - x.rw_diff(), y.rwc_inc_left)
            &&& x.rlc_acc == y.rlc_acc
        },
        x.is_last == 1 ==> congruent(x.rwc_inc_left, x.rw_diff()),
        x.is_last == 1 && x.tag_is(CopyDataType::RlcAcc) == 1 ==> x.value == x.rlc_acc,
{
    let polys = row_polys(x, y, z);
    lemma_switched_on(x.q_enable, polys, 0);
    lemma_switched_on(x.q_enable, polys, 1);
    lemma_switched_on(x.q_enable, polys, 4);
    lemma_switched_on(x.q_enable, polys, 5);
    lemma_switched_on(x.q_enable, polys, 6);
    lemma_switched_on(x.q_enable, polys, 7);
    lemma_switched_on(x.q_enable, polys, 8);
    lemma_switched_on(x.q_enable, polys, 9);
    lemma_switched_on(x.q_enable, polys, 10);
    lemma_switched_on(x.q_enable, polys, 11);
    lemma_switched_on(x.q_enable, polys, 12);
    lemma_boolean(x.is_first);
    lemma_boolean(x.is_last);
    if x.is_last == 0 && y.is_last == 0 {
        let inside = 1 - x.is_last - y.is_last;
        lemma_one_product(inside, x.id - z.id);
        lemma_one_product(inside, bits_value(x.tag) - bits_value(z.tag));
        lemma_one_product(inside, x.addr + 1 - z.addr);
        lemma_one_product(inside, x.src_addr_end - z.src_addr_end);
        lemma_congruent_in_field(x.id, z.id);
        lemma_congruent_in_field(x.src_addr_end, z.src_addr_end);
    }
    if x.is_last == 0 {
        let inside = 1 - x.is_last;
        lemma_one_product(inside, x.rw_counter + x.rw_diff() - y.rw_counter);
        lemma_one_product(inside, x.rwc_inc_left - x.rw_diff() - y.rwc_inc_left);
        lemma_one_product(inside, x.rlc_acc - y.rlc_acc);
        lemma_congruent_in_field(x.rlc_acc, y.rlc_acc);
    } else {
        lemma_one_product(x.is_last, x.rwc_inc_left - x.rw_diff());
        if x.tag_is(CopyDataType::RlcAcc) == 1 {
            lemma_one_product(x.is_last, x.tag_is(CopyDataType::RlcAcc));
            lemma_one_product(
                x.is_last * x.tag_is(CopyDataType::RlcAcc),
                x.value - x.rlc_acc,
            );
            lemma_congruent_in_field(x.value, x.rlc_acc);
        }
    }
}

/// What the constraints on a step say of a read row, its write row and the
/// next read row.
proof fn lemma_step_meaning(x: Row, y: Row, z: Row)
    requires
        x.q_step == 1,
        x.is_over_field(),
        y.is_over_field(),
        z.is_over_field(),
        x.lt == 0 || x.lt == 1,
        all_vanish(switched(x.q_step, step_polys(x, y, z))),
    ensures
        y.is_last == 1 ==> x.bytes_left == 1,
        y.is_last == 0 ==> congruent(x.bytes_left, z.bytes_left + 1),
        y.tag_is(CopyDataType::RlcAcc) == 0 ==> x.value == y.value,
        x.is_first == 1 ==> x.value == y.value,
        x.is_pad == 1 - x.lt,
        x.is_pad == 1 ==> x.value == 0,
        y.is_pad == 0,
{
    let polys = step_polys(x, y, z);
    lemma_switched_on(x.q_step, polys, 0);
    lemma_switched_on(x.q_step, polys, 1);
    lemma_switched_on(x.q_step, polys, 2);
    lemma_switched_on(x.q_step, polys, 3);
    lemma_switched_on(x.q_step, polys, 4);
    lemma_switched_on(x.q_step, polys, 5);
    lemma_switched_on(x.q_step, polys, 6);
    if y.is_last == 1 {
        lemma_one_product(y.is_last, 1 - x.bytes_left);
        lemma_congruent_in_field(1, x.bytes_left);
    }
    if y.is_last == 0 {
        lemma_one_product(1 - y.is_last, x.bytes_left - (z.bytes_left + 1));
    }
    if y.tag_is(CopyDataType::RlcAcc) == 0 {
        lemma_one_product(1 - y.tag_is(CopyDataType::RlcAcc), x.value - y.value);
        lemma_congruent_in_field(x.value, y.value);
    }
    if x.is_first == 1 {
        lemma_one_product(x.is_first, x.value - y.value);
        lemma_congruent_in_field(x.value, y.value);
    }
    lemma_congruent_in_field(1 - x.lt, x.is_pad);
    if x.is_pad == 1 {
        lemma_one_product(x.is_pad, x.value);
        lemma_small_value_vanishes(x.value);
    }
    lemma_small_value_vanishes(y.is_pad);
}

impl CopyCircuit {
    /// Whether a row belongs to a copy of `n` bytes from row `first` on: it is
    /// in use, a read row or a write row by turns, flagged as the last one if
    /// and only if it is, and it satisfies the constraints.
    pub open spec fn is_copy_row(
        self,
        randomness: Expression,
        w: Witness,
        first: int,
        n: int,
        row: int,
    ) -> bool {
        let x = self.row(w, row);
        &&& x.q_enable == 1
        &&& x.q_step == bit((row - first) % 2 == 0)
        &&& x.is_last == 1 <==> row == first + 2 * n - 1
        &&& self.constraints_hold(randomness, w, row)
    }

    /// Whether a witness over the field holds a copy of `n` bytes from row
    /// `first` on.
    pub open spec fn is_copy(
        self,
        randomness: Expression,
        w: Witness,
        first: int,
        n: int,
    ) -> bool {
        &&& n > 0
        &&& forall|row: int|
            first <= row < first + 2 * n ==> #[trigger] self.is_copy_row(
                randomness,
                w,
                first,
                n,
                row,
            )
        &&& forall|row: int| (#[trigger] self.row(w, row)).is_over_field()
    }

    /// The number of read-write operations on the rows from `from` to `to`.
    pub open spec fn operations(self, w: Witness, from: int, to: int) -> int
        decreases to - from,
    {
        if to <= from {
            0
        } else {
            self.operations(w, from, to - 1) + bit(self.row(w, to - 1).is_operation())
        }
    }

    /// The combination of the values on the first `count` read rows, as it
    /// grows byte by byte.
    pub open spec fn accumulated_reads(
        self,
        w: Witness,
        first: int,
        count: int,
        challenge: int,
    ) -> int
        decreases count,
    {
        if count <= 0 {
            0
        } else {
            self.accumulated_reads(w, first, count - 1, challenge) * challenge + self.row(
                w,
                first + 2 * (count - 1),
            ).value
        }
    }

    /// What the constraints say of a row of a copy.
    proof fn lemma_copy_row(
        self,
        randomness: Expression,
        w: Witness,
        first: int,
        n: int,
        row: int,
    )
        requires
            self.is_copy(randomness, w, first, n),
            first <= row < first + 2 * n,
        ensures
            ({
                let x = self.row(w, row);
                let y = self.row(w, row + 1);
                let z = self.row(w, row + 2);
                &&& x.is_last == bit(row == first + 2 * n - 1)
                &&& row + 2 < first + 2 * n ==> {
                    &&& x.id == z.id
                    &&& congruent(bits_value(x.tag), bits_value(z.tag))
                    &&& congruent(x.addr + 1, z.addr)
                    &&& x.src_addr_end == z.src_addr_end
                }
                &&& row + 1 < first + 2 * n ==> {
                    &&& congruent(x.rw_counter + x.rw_diff(), y.rw_counter)
                    &&& congruent(x.rwc_inc_left - x.rw_diff(), y.rwc_inc_left)
                    &&& x.rlc_acc == y.rlc_acc
                }
                &&& row + 1 == first + 2 * n ==> congruent(x.rwc_inc_left, x.rw_diff())
                &&& row + 1 == first + 2 * n && x.tag_is(CopyDataType::RlcAcc) == 1 ==> x.value
                    == x.rlc_acc
            }),
    {
        let x = self.row(w, row);
        let y = self.row(w, row + 1);
        let z = self.row(w, row + 2);
        assert(self.is_copy_row(randomness, w, first, n, row));
        lemma_row_meaning(x, y, z);
        if row + 1 < first + 2 * n {
            assert(self.is_copy_row(randomness, w, first, n, row + 1));
            lemma_row_meaning(y, z, self.row(w, row + 3));
        }
    }

    /// What the constraints say of a step of a copy.
    proof fn lemma_copy_step(
        self,
        randomness: Expression,
        w: Witness,
        first: int,
        n: int,
        i: int,
    )
        requires
            self.is_copy(randomness, w, first, n),
            0 <= i < n,
        ensures
            ({
                let x = self.row(w, first + 2 * i);
                let y = self.row(w, first + 2 * i + 1);
                let z = self.row(w, first + 2 * i + 2);
                &&& i == n - 1 ==> x.bytes_left == 1
                &&& i < n - 1 ==> congruent(x.bytes_left, z.bytes_left + 1)
                &&& y.tag_is(CopyDataType::RlcAcc) == 0 ==> x.value == y.value
                &&& x.is_first == 1 ==> x.value == y.value
                &&& x.lt == 0 || x.lt == 1
                &&& x.is_pad == 1 - x.lt
                &&& x.is_pad == 1 ==> x.value == 0
                &&& y.is_pad == 0
                &&& all_vanish(lt_gate_values(1, x.addr, x.src_addr_end, x.lt, x.diff))
            }),
    {
        let row = first + 2 * i;
        let x = self.row(w, row);
        let y = self.row(w, row + 1);
        let z = self.row(w, row + 2);
        assert(self.is_copy_row(randomness, w, first, n, row));
        self.lemma_copy_row(randomness, w, first, n, row + 1);
        let values = lt_gate_values(x.q_step, x.addr, x.src_addr_end, x.lt, x.diff);
        assert(all_vanish(values));
        assert(values[1] % modulus() == 0);
        lemma_one_product(x.q_step, x.lt * (1 - x.lt));
        lemma_boolean(x.lt);
        lemma_step_meaning(x, y, z);
    }

    /// The type of the place that a row of a copy reads or writes.
    proof fn lemma_copy_type(
        self,
        randomness: Expression,
        w: Witness,
        first: int,
        n: int,
        row: int,
    ) -> (t: CopyDataType)
        requires
            self.is_copy(randomness, w, first, n),
            first <= row < first + 2 * n,
        ensures
            self.row(w, row).tag == type_tag(t),
    {
        assert(self.is_copy_row(randomness, w, first, n, row));
        lemma_tag_type(self.row(w, row))
    }

    /// A copy stays with one source and one destination, each with an identity
    /// and a type, and moves through consecutive addresses of both; the end of
    /// the source stays, on read rows and on write rows, and the bytes left are
    /// counted down to one.
    pub proof fn law_copy_is_consecutive(
        self,
        randomness: Expression,
        w: Witness,
        first: int,
        n: int,
        i: int,
    )
        requires
            self.is_copy(randomness, w, first, n),
            0 <= i < n,
        ensures
            ({
                let read = self.row(w, first + 2 * i);
                let write = self.row(w, first + 2 * i + 1);
                let first_read = self.row(w, first);
                let first_write = self.row(w, first + 1);
                &&& read.id == first_read.id
                &&& write.id == first_write.id
                &&& read.tag == first_read.tag
                &&& write.tag == first_write.tag
                &&& congruent(read.addr, first_read.addr + i)
                &&& congruent(write.addr, first_write.addr + i)
                &&& read.src_addr_end == first_read.src_addr_end
                &&& write.src_addr_end == first_write.src_addr_end
                &&& congruent(read.bytes_left, n - i)
                &&& exists|t: CopyDataType| #[trigger] type_tag(t) == read.tag
                &&& exists|t: CopyDataType| #[trigger] type_tag(t) == write.tag
            }),
        decreases i,
    {
        self.lemma_copy_type(randomness, w, first, n, first + 2 * i);
        self.lemma_copy_type(randomness, w, first, n, first + 2 * i + 1);
        self.lemma_bytes_left(randomness, w, first, n, i);
        if i > 0 {
            self.law_copy_is_consecutive(randomness, w, first, n, i - 1);
            self.lemma_same_place(randomness, w, first, n, first + 2 * i - 2);
            self.lemma_same_place(randomness, w, first, n, first + 2 * i - 1);
            let a = self.row(w, first + 2 * i - 2);
            let b = self.row(w, first + 2 * i - 1);
            let first_read = self.row(w, first);
            let first_write = self.row(w, first + 1);
            lemma_moved(a.addr, first_read.addr + (i - 1), self.row(w, first + 2 * i).addr);
            lemma_moved(b.addr, first_write.addr + (i - 1), self.row(w, first + 2 * i + 1).addr);
        }
    }

    /// Two rows on, a copy is at the same place, one address further.
    proof fn lemma_same_place(
        self,
        randomness: Expression,
        w: Witness,
        first: int,
        n: int,
        row: int,
    )
        requires
            self.is_copy(randomness, w, first, n),
            first <= row,
            row + 2 < first + 2 * n,
        ensures
            self.row(w, row).id == self.row(w, row + 2).id,
            self.row(w, row).tag == self.row(w, row + 2).tag,
            self.row(w, row).src_addr_end == self.row(w, row + 2).src_addr_end,
            congruent(self.row(w, row).addr + 1, self.row(w, row + 2).addr),
    {
        self.lemma_copy_row(randomness, w, first, n, row);
        let t = self.lemma_copy_type(randomness, w, first, n, row);
        let u = self.lemma_copy_type(randomness, w, first, n, row + 2);
        lemma_tag_bits(t, u);
        lemma_tag_bits(u, t);
        lemma_small_value_vanishes(t.code() - u.code());
        assert(t == u);
    }

    /// The bytes left on a read row.
    proof fn lemma_bytes_left(
        self,
        randomness: Expression,
        w: Witness,
        first: int,
        n: int,
        i: int,
    )
        requires
            self.is_copy(randomness, w, first, n),
            0 <= i < n,
        ensures
            congruent(self.row(w, first + 2 * i).bytes_left, n - i),
        decreases n - i,
    {
        self.lemma_copy_step(randomness, w, first, n, i);
        if i < n - 1 {
            self.lemma_bytes_left(randomness, w, first, n, i + 1);
            let here = self.row(w, first + 2 * i).bytes_left;
            let next = self.row(w, first + 2 * (i + 1)).bytes_left;
            lemma_congruent_sum(here, next + 1, next, n - i - 1);
        }
    }

    /// Each byte that is copied to a place is written as it was read.
    pub proof fn law_copy_writes_what_it_reads(
        self,
        randomness: Expression,
        w: Witness,
        first: int,
        n: int,
        i: int,
    )
        requires
            self.is_copy(randomness, w, first, n),
            self.row(w, first + 1).tag != type_tag(CopyDataType::RlcAcc),
            0 <= i < n,
        ensures
            self.row(w, first + 2 * i + 1).value == self.row(w, first + 2 * i).value,
    {
        self.law_copy_is_consecutive(randomness, w, first, n, i);
        self.lemma_copy_step(randomness, w, first, n, i);
        let t = self.lemma_copy_type(randomness, w, first, n, first + 2 * i + 1);
        lemma_tag_bits(t, CopyDataType::RlcAcc);
    }
}

/// One address further.
proof fn lemma_moved(from: int, expected: int, to: int)
    requires
        congruent(from, expected),
        congruent(from + 1, to),
    ensures
        congruent(to, expected + 1),
{
    lemma_added(from, expected, to, 1);
}

/// A sum that moves on.
proof fn lemma_added(a: int, b: int, c: int, d: int)
    requires
        congruent(a, b),
        congruent(a + d, c),
    ensures
        congruent(c, b + d),
{
    lemma_congruent_sum(a + d, c, a, b);
    assert(c - (b + d) == (c - (a + d)) + (a - b));
    lemma_congruent_sum(c - (a + d), 0, a - b, 0);
}

impl CopyCircuit {
    /// On a row of a copy, what is added to the read-write counter is one if
    /// the row is a read-write operation, on memory or on a log and no
    /// padding, and zero if it is not.
    pub proof fn law_copy_row_counts_as_operation(
        self,
        randomness: Expression,
        w: Witness,
        first: int,
        n: int,
        row: int,
    )
        requires
            self.is_copy(randomness, w, first, n),
            first <= row < first + 2 * n,
        ensures
            self.row(w, row).is_pad == 0 || self.row(w, row).is_pad == 1,
            self.row(w, row).rw_diff() == bit(self.row(w, row).is_operation()),
    {
        let x = self.row(w, row);
        let t = self.lemma_copy_type(randomness, w, first, n, row);
        self.lemma_copy_step(randomness, w, first, n, (row - first) / 2);
        lemma_tag_bits(t, CopyDataType::Memory);
        lemma_tag_bits(t, CopyDataType::TxLog);
        lemma_tag_bits(CopyDataType::Memory, t);
        lemma_tag_bits(CopyDataType::TxLog, t);
        let memory = x.tag_is(CopyDataType::Memory);
        let log = x.tag_is(CopyDataType::TxLog);
        lemma_product_of_bits(1 - memory, 1 - log, 1);
        lemma_product_of_bits(or_value(memory, log), 1 - x.is_pad, 1);
    }

    /// The read-write counter grows by the operations of the rows passed, and
    /// the operations left are those of the rows to come.
    pub proof fn law_copy_counts_operations(
        self,
        randomness: Expression,
        w: Witness,
        first: int,
        n: int,
        row: int,
    )
        requires
            self.is_copy(randomness, w, first, n),
            first <= row < first + 2 * n,
        ensures
            congruent(
                self.row(w, row).rw_counter,
                self.row(w, first).rw_counter + self.operations(w, first, row),
            ),
            congruent(
                self.row(w, row).rwc_inc_left,
                self.operations(w, first, first + 2 * n) - self.operations(w, first, row),
            ),
    {
        self.lemma_counted(randomness, w, first, n, row);
        let last = first + 2 * n - 1;
        self.lemma_counted(randomness, w, first, n, last);
        self.lemma_copy_row(randomness, w, first, n, last);
        self.law_copy_row_counts_as_operation(randomness, w, first, n, last);
        let x = self.row(w, row);
        let start = self.row(w, first).rwc_inc_left;
        let end = self.row(w, last);
        let done = self.operations(w, first, row);
        let all_but_one = self.operations(w, first, last);
        let total = self.operations(w, first, first + 2 * n);
        assert(total == all_but_one + end.rw_diff());
        // start - all_but_one is end.rwc_inc_left, which is end.rw_diff().
        lemma_congruent_sum(
            end.rwc_inc_left,
            start - all_but_one,
            end.rwc_inc_left,
            end.rw_diff(),
        );
        assert(x.rwc_inc_left - (total - done) == (x.rwc_inc_left - (start - done)) + ((start
            - all_but_one) - end.rw_diff()));
        assert(congruent(0, (start - all_but_one) - end.rw_diff()));
        lemma_congruent_sum(0, (start - all_but_one) - end.rw_diff(), 0, 0);
        lemma_congruent_sum(
            x.rwc_inc_left - (start - done),
            0,
            (start - all_but_one) - end.rw_diff(),
            0,
        );
    }

    /// The two counters, by what the rows passed have done.
    proof fn lemma_counted(
        self,
        randomness: Expression,
        w: Witness,
        first: int,
        n: int,
        row: int,
    )
        requires
            self.is_copy(randomness, w, first, n),
            first <= row < first + 2 * n,
        ensures
            congruent(
                self.row(w, row).rw_counter,
                self.row(w, first).rw_counter + self.operations(w, first, row),
            ),
            congruent(
                self.row(w, row).rwc_inc_left,
                self.row(w, first).rwc_inc_left - self.operations(w, first, row),
            ),
        decreases row - first,
    {
        if row > first {
            self.lemma_counted(randomness, w, first, n, row - 1);
            self.lemma_copy_row(randomness, w, first, n, row - 1);
            self.law_copy_row_counts_as_operation(randomness, w, first, n, row - 1);
            let x = self.row(w, row - 1);
            let y = self.row(w, row);
            let start = self.row(w, first);
            let done = self.operations(w, first, row - 1);
            assert(self.operations(w, first, row) == done + x.rw_diff());
            lemma_added(x.rw_counter, start.rw_counter + done, y.rw_counter, x.rw_diff());
            lemma_added(
                x.rwc_inc_left,
                start.rwc_inc_left - done,
                y.rwc_inc_left,
                -x.rw_diff(),
            );
        }
    }

    /// Where bytes are accumulated, each write row holds the combination of
    /// the bytes read so far, and every row names the combination of them all.
    pub proof fn law_copy_accumulates_what_it_reads(
        self,
        randomness: Expression,
        challenge: int,
        w: Witness,
        first: int,
        n: int,
        i: int,
    )
        requires
            self.is_copy(randomness, w, first, n),
            self.row(w, first).is_first == 1,
            self.row(w, first + 1).tag == type_tag(CopyDataType::RlcAcc),
            forall|row: int| congruent(#[trigger] randomness.eval(w, row), challenge),
            0 <= i < n,
        ensures
            congruent(
                self.row(w, first + 2 * i + 1).value,
                self.accumulated_reads(w, first, i + 1, challenge),
            ),
            congruent(
                self.row(w, first + 2 * i).rlc_acc,
                self.accumulated_reads(w, first, n, challenge),
            ),
            congruent(
                self.row(w, first + 2 * i + 1).rlc_acc,
                self.accumulated_reads(w, first, n, challenge),
            ),
    {
        self.lemma_accumulated(randomness, challenge, w, first, n, i);
        self.lemma_accumulated(randomness, challenge, w, first, n, n - 1);
        let last = first + 2 * n - 1;
        self.law_copy_is_consecutive(randomness, w, first, n, n - 1);
        self.lemma_copy_row(randomness, w, first, n, last);
        lemma_tag_bits(CopyDataType::RlcAcc, CopyDataType::RlcAcc);
        assert(self.row(w, last).value == self.row(w, last).rlc_acc);
        self.lemma_one_rlc_acc(randomness, w, first, n, first + 2 * i);
        self.lemma_one_rlc_acc(randomness, w, first, n, first + 2 * i + 1);
    }

    /// Every row of a copy names one combination.
    proof fn lemma_one_rlc_acc(
        self,
        randomness: Expression,
        w: Witness,
        first: int,
        n: int,
        row: int,
    )
        requires
            self.is_copy(randomness, w, first, n),
            first <= row < first + 2 * n,
        ensures
            self.row(w, row).rlc_acc == self.row(w, first + 2 * n - 1).rlc_acc,
        decreases first + 2 * n - row,
    {
        if row < first + 2 * n - 1 {
            self.lemma_copy_row(randomness, w, first, n, row);
            self.lemma_one_rlc_acc(randomness, w, first, n, row + 1);
        }
    }

    /// The values of accumulating write rows.
    proof fn lemma_accumulated(
        self,
        randomness: Expression,
        challenge: int,
        w: Witness,
        first: int,
        n: int,
        i: int,
    )
        requires
            self.is_copy(randomness, w, first, n),
            self.row(w, first).is_first == 1,
            self.row(w, first + 1).tag == type_tag(CopyDataType::RlcAcc),
            forall|row: int| congruent(#[trigger] randomness.eval(w, row), challenge),
            0 <= i < n,
        ensures
            congruent(
                self.row(w, first + 2 * i + 1).value,
                self.accumulated_reads(w, first, i + 1, challenge),
            ),
        decreases i,
    {
        if i == 0 {
            self.lemma_copy_step(randomness, w, first, n, 0);
            assert(self.accumulated_reads(w, first, 0, challenge) == 0);
            assert(0 * challenge == 0) by (nonlinear_arith);
            assert(self.accumulated_reads(w, first, 1, challenge) == self.row(w, first).value);
        } else {
            self.lemma_accumulated(randomness, challenge, w, first, n, i - 1);
            self.law_copy_is_consecutive(randomness, w, first, n, i - 1);
            self.lemma_copy_step(randomness, w, first, n, i - 1);
            let row = first + 2 * (i - 1) + 1;
            let x = self.row(w, row);
            let y = self.row(w, row + 1);
            let z = self.row(w, row + 2);
            let r = randomness.eval(w, row);
            assert(self.is_copy_row(randomness, w, first, n, row));
            self.lemma_copy_row(randomness, w, first, n, row);
            lemma_tag_bits(CopyDataType::RlcAcc, CopyDataType::RlcAcc);
            let tag = x.tag_is(CopyDataType::RlcAcc);
            lemma_one_product(x.q_enable, 1 - x.q_step);
            lemma_one_product(x.q_enable * (1 - x.q_step), 1 - x.is_last);
            lemma_one_product(x.q_enable * (1 - x.q_step) * (1 - x.is_last), tag);
            lemma_one_product(
                x.q_enable * (1 - x.q_step) * (1 - x.is_last) * tag,
                1 - x.is_pad,
            );
            assert(acc_switch(x) == 1);
            let polys = acc_polys(x, y, z, r);
            lemma_switched_on(acc_switch(x), polys, 0);
            assert(congruent(z.value, x.value * r + y.value));
            let before = self.accumulated_reads(w, first, i, challenge);
            assert(self.accumulated_reads(w, first, i + 1, challenge) == before * challenge
                + y.value);
            lemma_congruent_product(x.value, before, challenge);
            lemma_congruent_product(r, challenge, x.value);
            assert(x.value * r == r * x.value) by (nonlinear_arith);
            assert(x.value * challenge == challenge * x.value) by (nonlinear_arith);
            let a = z.value - (x.value * r + y.value);
            let b = x.value * r - x.value * challenge;
            let c = x.value * challenge - before * challenge;
            lemma_congruent_sum(a, 0, b, 0);
            lemma_congruent_sum(a + b, 0, c, 0);
            assert(z.value - (before * challenge + y.value) == a + b + c);
        }
    }

    /// A read row is padding if and only if its address is at or beyond the
    /// end of the source, for addresses of eight bytes and where the bytes
    /// behind the comparison are bytes. Padding reads zero, and a write row is
    /// no padding.
    pub proof fn law_copy_pads_beyond_the_source(
        self,
        randomness: Expression,
        w: Witness,
        first: int,
        n: int,
        i: int,
    )
        requires
            self.is_copy(randomness, w, first, n),
            0 <= i < n,
            self.row(w, first + 2 * i).addr < lt_range(),
            self.row(w, first + 2 * i).src_addr_end < lt_range(),
            forall|j: int|
                0 <= j < 8 ==> 0 <= #[trigger] self.row(w, first + 2 * i).diff[j] < 256,
        ensures
            ({
                let read = self.row(w, first + 2 * i);
                let write = self.row(w, first + 2 * i + 1);
                &&& read.is_pad == bit(read.addr >= read.src_addr_end)
                &&& read.is_pad == 1 ==> read.value == 0
                &&& write.is_pad == 0
            }),
    {
        self.lemma_copy_step(randomness, w, first, n, i);
        let x = self.row(w, first + 2 * i);
        assert(x.is_over_field());
        law_comparison_is_sound(x.addr, x.src_addr_end, x.lt, x.diff);
    }
}

/// A lookup that holds where it is switched on finds its record.
proof fn lemma_lookup_finds(
    lookup: Lookup,
    columns: Seq<Expression>,
    switch: int,
    record: Seq<int>,
    w: Witness,
    height: int,
    row: int,
)
    requires
        lookup_tables(lookup.pairs@) == paired(columns, record.len() as int),
        lookup_inputs(lookup.pairs@, w, row) == paired(
            switched(switch, record),
            columns.len() as int,
        ),
        switch == 1,
        lookup.holds(w, row, height),
    ensures
        is_recorded(w, height, columns, record),
{
    let t = choose|t: int| #[trigger] lookup.matches_row(w, row, t) && 0 <= t < height;
    assert(lookup.pairs@.len() == lookup_tables(lookup.pairs@).len());
    assert(lookup.pairs@.len() == min_of(columns.len() as int, record.len() as int));
    assert forall|i: int| 0 <= i < record.len() && i < columns.len() implies (
    #[trigger] record[i] - columns[i].eval(w, t)) % modulus() == 0 by {
        assert(lookup_tables(lookup.pairs@)[i] == columns[i]);
        assert(lookup_inputs(lookup.pairs@, w, row)[i] == switched(switch, record)[i]);
        lemma_one_product(switch, record[i]);
        assert(lookup.pairs@[i].0.eval(w, row) == record[i]);
    }
    assert(holds_record(w, columns, record, t));
}

impl CopyCircuit {
    /// What a row in use reads or writes is recorded in the tables, where the
    /// lookups that `configure` adds hold: operations on memory and logs in
    /// the read-write table, bytes of bytecode in the bytecode table, and
    /// bytes of calldata in the transaction table.
    pub proof fn law_looked_up_row_is_recorded(
        self,
        before: ConstraintSystem,
        configured: ConstraintSystem,
        tx_table: Seq<Expression>,
        rw_table: Seq<Expression>,
        bytecode_table: Seq<Expression>,
        w: Witness,
        height: int,
        row: int,
        t: CopyDataType,
    )
        requires
            self.adds_copy_lookups(tx_table, rw_table, bytecode_table, before, configured),
            self.row(w, row).q_enable == 1,
            self.row(w, row).tag == type_tag(t),
            forall|i: int|
                0 <= i < 4 ==> (#[trigger] configured.added_lookup(before, i)).holds(
                    w,
                    row,
                    height,
                ),
        ensures
            step_is_recorded(
                self.row(w, row),
                t,
                w,
                height,
                tx_table,
                rw_table,
                bytecode_table,
            ),
    {
        let x = self.row(w, row);
        lemma_tag_bits(t, t);
        lemma_one_product(x.q_enable, x.tag_is(t));
        lemma_one_product(x.q_enable * x.tag_is(t), 1 - x.is_pad);
        let rw_columns = rw_table.len() as int;
        if t is Memory && x.is_pad == 0 {
            let lookup = configured.added_lookup(before, 0);
            assert(lookup_inputs(lookup.pairs@, w, row) == paired(
                self.memory_inputs(w, row),
                rw_columns,
            ));
            lemma_lookup_finds(
                lookup,
                rw_table,
                memory_switch(x),
                memory_record(x),
                w,
                height,
                row,
            );
        }
        if t is TxLog {
            let lookup = configured.added_lookup(before, 1);
            assert(lookup_inputs(lookup.pairs@, w, row) == paired(
                self.tx_log_inputs(w, row),
                rw_columns,
            ));
            lemma_lookup_finds(
                lookup,
                rw_table,
                tx_log_switch(x),
                tx_log_record(x),
                w,
                height,
                row,
            );
        }
        if t is Bytecode && x.is_pad == 0 {
            let lookup = configured.added_lookup(before, 2);
            assert(lookup_inputs(lookup.pairs@, w, row) == paired(
                self.bytecode_inputs(w, row),
                bytecode_table.len() as int,
            ));
            lemma_lookup_finds(
                lookup,
                bytecode_table,
                bytecode_switch(x),
                bytecode_record(x),
                w,
                height,
                row,
            );
        }
        if t is TxCalldata && x.is_pad == 0 {
            let lookup = configured.added_lookup(before, 3);
            assert(lookup_inputs(lookup.pairs@, w, row) == paired(
                self.calldata_inputs(w, row),
                tx_table.len() as int,
            ));
            lemma_lookup_finds(
                lookup,
                tx_table,
                calldata_switch(x),
                calldata_record(x),
                w,
                height,
                row,
            );
        }
    }
}

/// A byte of a number is a byte.
proof fn lemma_byte_range(n: int, i: int)
    ensures
        0 <= byte_of(n, i) < 256,
    decreases i,
{
    if i > 0 {
        lemma_byte_range(n / 256, i - 1);
    }
}

impl CopyEvent {
    /// The rows of an event hold field elements, and bytes behind the
    /// comparison.
    proof fn lemma_row_over_field(self, step: int, randomness: int)
        requires
            self.well_formed(),
            0 <= step < self.rows(),
        ensures
            self.row_at(step, randomness).is_over_field(),
            forall|j: int|
                0 <= j < 8 ==> 0 <= #[trigger] self.row_at(step, randomness).diff[j] < 256,
    {
        let x = self.row_at(step, randomness);
        let m = modulus();
        lemma_mod_bound(rlc(self.src_id->Hash_0@.reverse(), randomness), m);
        lemma_mod_bound(rlc(self.dst_id->Hash_0@.reverse(), randomness), m);
        lemma_mod_bound(accumulate(self.values(), randomness), m);
        lemma_mod_bound(accumulate(self.values().take(step / 2 + 1), randomness), m);
        assert forall|j: int| 0 <= j < 8 implies 0 <= #[trigger] x.diff[j] < 256 by {
            lemma_byte_range(lt_diff(self.src_addr + step / 2, self.src_addr_end as int), j);
        }
    }
}

impl CopyCircuit {
    /// The rows of a copy event in a block that is assigned are a copy of its
    /// bytes, whose comparisons are backed by bytes.
    pub proof fn law_assigned_event_is_a_copy(
        self,
        events: Seq<CopyEvent>,
        challenge: int,
        randomness: Expression,
        w: Witness,
        i: int,
    )
        requires
            self.has_distinct_columns(),
            forall|j: int|
                0 <= j < events.len() ==> (#[trigger] events[j]).well_formed()
                    && events[j].padded_with_zeros(),
            self.is_filled(events, challenge, w),
            forall|row: int| congruent(#[trigger] randomness.eval(w, row), challenge),
            0 <= i < events.len(),
            events[i].bytes@.len() > 0,
        ensures
            self.is_copy(
                randomness,
                w,
                block_rows(events.take(i)),
                events[i].bytes@.len() as int,
            ),
            forall|row: int, j: int|
                0 <= j < 8 ==> 0 <= #[trigger] self.row(w, row).diff[j] < 256,
            self.row(w, block_rows(events.take(i))).is_first == 1,
            (w.advice)(
                self.copy_table.is_first.index as int,
                block_rows(events.take(i)),
            ) == 1,
    {
        let first = block_rows(events.take(i));
        lemma_step_of_place(events, i, 0);
        self.law_assigned_rows(events, challenge, w, first);
        events[i].law_read_row(0, challenge);
        let n = events[i].bytes@.len() as int;
        assert forall|row: int| (#[trigger] self.row(w, row)).is_over_field() && forall|j: int|
            0 <= j < 8 ==> 0 <= #[trigger] self.row(w, row).diff[j] < 256 by {
            self.law_assigned_rows(events, challenge, w, row);
            if 0 <= row < block_rows(events) {
                lemma_step_of(events, row);
                let (k, step) = step_of(events, row);
                events[k].lemma_row_over_field(step, challenge);
            }
        }
        assert forall|row: int| first <= row < first + 2 * n implies #[trigger] self.is_copy_row(
            randomness,
            w,
            first,
            n,
            row,
        ) by {
            lemma_step_of_place(events, i, row - first);
            self.law_assigned_rows(events, challenge, w, row);
            assert(congruent(randomness.eval(w, row), challenge));
            self.law_assigned_block_satisfies_constraints(
                events,
                challenge,
                randomness,
                w,
                row,
            );
        }
        assert forall|row: int, j: int| 0 <= j < 8 implies 0 <= #[trigger] self.row(
            w,
            row,
        ).diff[j] < 256 by {
            assert(self.row(w, row).is_over_field());
        }
    }
}

} // verus!
