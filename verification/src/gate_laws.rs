//! What the gates of the copy circuit demand of the cells, condition by
//! condition.
use crate::binary_number::{bit_gate_values, bits_equal, bits_value, literal, range_gate_values};
use crate::congruence::{
    congruent, in_field, lemma_congruent_sum, lemma_multiple_vanishes, lemma_small_value_vanishes, lemma_vanishing_multiple,
};
use crate::constraint_builder::or_value;
use crate::constraint_system::{all_vanish, ConstraintSystem};
use crate::copy_circuit::CopyCircuit;
use crate::copy_event::CopyDataType;
use crate::event_laws::law_type_bits;
use crate::expression::{AdviceColumn, Expression, Witness};
use crate::field::modulus;
use crate::less_than::{bytes_value, lt_gate_values, lt_range};
use crate::modulus_prime::lemma_modulus_is_prime;
use crate::prime::lemma_prime_divides_product;
use crate::row::{
    acc_names, acc_polys, acc_switch, lemma_product_of_bits, row_names, row_polys, step_names,
    step_polys, switched, Row,
};
use crate::sum::{law_bytes_value, lemma_sum_same, sum};
use vstd::arithmetic::power::pow;
use vstd::prelude::*;

verus! {

/// A product vanishes in the field if and only if one of its factors does.
pub proof fn lemma_product_vanishes(a: int, b: int)
    ensures
        (a * b) % modulus() == 0 <==> a % modulus() == 0 || b % modulus() == 0,
{
    let m = modulus();
    if (a * b) % m == 0 {
        lemma_modulus_is_prime();
        lemma_prime_divides_product(m, a, b);
    }
    if a % m == 0 {
        let k = lemma_vanishing_multiple(a);
        assert(a * b == m * (k * b)) by (nonlinear_arith)
            requires
                a == m * k,
        ;
        lemma_multiple_vanishes(k * b);
    }
    if b % m == 0 {
        let k = lemma_vanishing_multiple(b);
        assert(a * b == m * (a * k)) by (nonlinear_arith)
            requires
                b == m * k,
        ;
        lemma_multiple_vanishes(a * k);
    }
}

/// A small number vanishes in the field if and only if it is zero.
proof fn lemma_small_vanishes(a: int)
    requires
        -modulus() < a < modulus(),
    ensures
        a % modulus() == 0 <==> a == 0,
{
    if a % modulus() == 0 {
        lemma_small_value_vanishes(a);
    }
}

/// Equality in the field goes both ways.
proof fn lemma_congruent_symmetric(a: int, b: int)
    ensures
        congruent(a, b) <==> congruent(b, a),
{
    if congruent(a, b) {
        lemma_congruent_sum(a, b, 0, 0);
    }
    if congruent(b, a) {
        lemma_congruent_sum(b, a, 0, 0);
    }
}

/// A list of switched values vanishes if and only if each value does, or the
/// switch.
proof fn lemma_switched(selector: int, values: Seq<int>)
    ensures
        all_vanish(switched(selector, values)) <==> selector % modulus() == 0 || forall|i: int|
            0 <= i < values.len() ==> #[trigger] values[i] % modulus() == 0,
{
    let s = switched(selector, values);
    assert forall|i: int| 0 <= i < values.len() implies (#[trigger] s[i] % modulus() == 0 <==> (
    selector % modulus() == 0 || values[i] % modulus() == 0)) by {
        lemma_product_vanishes(selector, values[i]);
    }
    if all_vanish(s) && selector % modulus() != 0 {
        assert forall|i: int| 0 <= i < values.len() implies #[trigger] values[i] % modulus()
            == 0 by {
            assert(s[i] % modulus() == 0);
        }
    }
    if selector % modulus() == 0 || forall|i: int|
        0 <= i < values.len() ==> #[trigger] values[i] % modulus() == 0 {
        assert forall|i: int| 0 <= i < s.len() implies #[trigger] s[i] % modulus() == 0 by {
            if selector % modulus() != 0 {
                assert(values[i] % modulus() == 0);
            }
        }
    }
}

/// Three bits match a pattern if and only if each of them does.
proof fn lemma_bits_equal(bits: Seq<int>, pattern: Seq<bool>)
    requires
        bits[0] == 0 || bits[0] == 1,
        bits[1] == 0 || bits[1] == 1,
        bits[2] == 0 || bits[2] == 1,
    ensures
        bits_equal(bits, pattern) == (if (bits[0] == 1) == pattern[0] && (bits[1] == 1)
            == pattern[1] && (bits[2] == 1) == pattern[2] {
            1int
        } else {
            0int
        }),
{
    lemma_product_of_bits(
        literal(bits[0], pattern[0]),
        literal(bits[1], pattern[1]),
        literal(bits[2], pattern[2]),
    );
}

/// The gates on a bit demand a bit.
proof fn lemma_bit_gate(enabled: int, b: int)
    requires
        enabled == 0 || enabled == 1,
        0 <= b < modulus(),
    ensures
        all_vanish(bit_gate_values(enabled, b)) <==> enabled == 0 || b == 0 || b == 1,
{
    let values = bit_gate_values(enabled, b);
    let v = enabled * b * (1 - b);
    assert(values[0] == v);
    lemma_product_vanishes(enabled * b, 1 - b);
    lemma_product_vanishes(enabled, b);
    lemma_small_vanishes(enabled);
    lemma_small_vanishes(b);
    lemma_small_vanishes(1 - b);
    if v % modulus() == 0 {
        assert(all_vanish(values));
    }
}

/// The range gates rule out the numbers zero, six and seven.
proof fn lemma_range_gate(enabled: int, bits: Seq<int>)
    requires
        enabled == 0 || enabled == 1,
        bits[0] == 0 || bits[0] == 1,
        bits[1] == 0 || bits[1] == 1,
        bits[2] == 0 || bits[2] == 1,
    ensures
        all_vanish(range_gate_values(enabled, bits)) <==> enabled == 0 || 1 <= 4 * bits[0] + 2
            * bits[1] + bits[2] <= 5,
{
    let values = range_gate_values(enabled, bits);
    let a = seq![false, false, false];
    let b = seq![true, true, false];
    let c = seq![true, true, true];
    lemma_bits_equal(bits, a);
    lemma_bits_equal(bits, b);
    lemma_bits_equal(bits, c);
    lemma_product_of_bits(enabled, bits_equal(bits, a), 1);
    lemma_product_of_bits(enabled, bits_equal(bits, b), 1);
    lemma_product_of_bits(enabled, bits_equal(bits, c), 1);
    lemma_small_vanishes(values[0]);
    lemma_small_vanishes(values[1]);
    lemma_small_vanishes(values[2]);
    if all_vanish(values) {
        assert(values[0] % modulus() == 0);
        assert(values[1] % modulus() == 0);
        assert(values[2] % modulus() == 0);
    }
}

/// The gates on a comparison demand that its outcome is a bit, and that the
/// difference, moved up by 2^64 where that bit is one, is the sum of the cells
/// behind it, each times the power of 256 for its place.
pub proof fn law_comparison_gates(enabled: int, lhs: int, rhs: int, lt: int, diff: Seq<int>)
    requires
        enabled == 0 || enabled == 1,
        0 <= lt < modulus(),
        diff.len() == 8,
    ensures
        all_vanish(lt_gate_values(enabled, lhs, rhs, lt, diff)) <==> (enabled == 1 ==> {
            &&& lt == 0 || lt == 1
            &&& congruent(
                lhs - rhs + lt * 0x1_0000_0000_0000_0000,
                sum(|j: int| diff[j] * pow(256, j as nat), 8),
            )
        }),
{
    let values = lt_gate_values(enabled, lhs, rhs, lt, diff);
    let gap = lhs - rhs - bytes_value(diff) + lt * lt_range();
    law_bytes_value(diff);
    assert(values[0] == enabled * gap);
    assert(values[1] == enabled * (lt * (1 - lt)));
    lemma_product_vanishes(enabled, gap);
    lemma_product_vanishes(enabled, lt * (1 - lt));
    lemma_product_vanishes(lt, 1 - lt);
    lemma_small_vanishes(enabled);
    lemma_small_vanishes(lt);
    lemma_small_vanishes(1 - lt);
    assert(gap == (lhs - rhs + lt * 0x1_0000_0000_0000_0000) - bytes_value(diff));
    if all_vanish(values) {
        assert(values[0] % modulus() == 0);
        assert(values[1] % modulus() == 0);
    }
}

/// Whether the bits of a tag are these.
spec fn has_bits(tag: Seq<int>, a: int, b: int, c: int) -> bool {
    tag[0] == a && tag[1] == b && tag[2] == c
}

/// Whether the bits of a tag are bits.
spec fn is_bits(tag: Seq<int>) -> bool {
    &&& tag[0] == 0 || tag[0] == 1
    &&& tag[1] == 0 || tag[1] == 1
    &&& tag[2] == 0 || tag[2] == 1
}

/// The row is one of memory or of a log, and counts unless it is padding.
proof fn lemma_rw_diff_value(x: Row)
    requires
        is_bits(x.tag),
    ensures
        x.rw_diff() == (if has_bits(x.tag, 0, 1, 0) || has_bits(x.tag, 1, 0, 0) {
            1 - x.is_pad
        } else {
            0
        }),
{
    law_type_bits(CopyDataType::Memory);
    law_type_bits(CopyDataType::TxLog);
    lemma_bits_equal(x.tag, CopyDataType::Memory.bits());
    lemma_bits_equal(x.tag, CopyDataType::TxLog.bits());
    let memory = x.tag_is(CopyDataType::Memory);
    let log = x.tag_is(CopyDataType::TxLog);
    lemma_product_of_bits(1 - memory, 1 - log, 1);
    let either = or_value(memory, log);
    assert(either == 0 || either == 1);
    assert(either * (1 - x.is_pad) == (if either == 1 {
        1 - x.is_pad
    } else {
        0
    })) by (nonlinear_arith)
        requires
            either == 0 || either == 1,
    ;
}

/// The row is one that accumulates.
proof fn lemma_accumulates(x: Row)
    requires
        is_bits(x.tag),
    ensures
        x.tag_is(CopyDataType::RlcAcc) == (if has_bits(x.tag, 1, 0, 1) {
            1int
        } else {
            0int
        }),
{
    law_type_bits(CopyDataType::RlcAcc);
    lemma_bits_equal(x.tag, CopyDataType::RlcAcc.bits());
}

/// What the constraints on every row demand.
spec fn row_demands(x: Row, y: Row, z: Row) -> bool {
    let rw = if has_bits(x.tag, 0, 1, 0) || has_bits(x.tag, 1, 0, 0) {
        1 - x.is_pad
    } else {
        0
    };
    &&& x.is_first == 0 || x.is_first == 1
    &&& x.is_last == 0 || x.is_last == 1
    &&& x.q_step == 0 ==> x.is_first == 0
    &&& x.q_step == 1 ==> x.is_last == 0
    &&& congruent(x.is_last + y.is_last, 1) || {
        &&& x.id == z.id
        &&& congruent(
            4 * x.tag[0] + 2 * x.tag[1] + x.tag[2],
            4 * z.tag[0] + 2 * z.tag[1] + z.tag[2],
        )
        &&& congruent(x.addr + 1, z.addr)
        &&& x.src_addr_end == z.src_addr_end
    }
    &&& x.is_last == 0 ==> {
        &&& congruent(x.rw_counter + rw, y.rw_counter)
        &&& congruent(x.rwc_inc_left - rw, y.rwc_inc_left)
        &&& x.rlc_acc == y.rlc_acc
    }
    &&& x.is_last == 1 ==> congruent(x.rwc_inc_left, rw)
    &&& x.is_last == 1 && has_bits(x.tag, 1, 0, 1) ==> x.value == x.rlc_acc
}

proof fn lemma_row_demands(x: Row, y: Row, z: Row)
    requires
        x.is_over_field(),
        y.is_over_field(),
        z.is_over_field(),
        x.q_enable == 1,
        x.q_step == 0 || x.q_step == 1,
        is_bits(x.tag),
    ensures
        all_vanish(switched(x.q_enable, row_polys(x, y, z))) <==> row_demands(x, y, z),
{
    let polys = row_polys(x, y, z);
    let m = modulus();
    let two = 1 - x.is_last - y.is_last;
    let one = 1 - x.is_last;
    let rw = x.rw_diff();
    let acc = x.tag_is(CopyDataType::RlcAcc);
    lemma_switched(x.q_enable, polys);
    lemma_small_vanishes(x.q_enable);
    lemma_rw_diff_value(x);
    lemma_accumulates(x);
    lemma_product_vanishes(x.is_first, 1 - x.is_first);
    lemma_product_vanishes(x.is_last, 1 - x.is_last);
    lemma_product_vanishes(1 - x.q_step, x.is_first);
    lemma_product_vanishes(x.is_last, x.q_step);
    lemma_product_vanishes(two, x.id - z.id);
    lemma_product_vanishes(two, bits_value(x.tag) - bits_value(z.tag));
    lemma_product_vanishes(two, x.addr + 1 - z.addr);
    lemma_product_vanishes(two, x.src_addr_end - z.src_addr_end);
    lemma_product_vanishes(one, x.rw_counter + rw - y.rw_counter);
    lemma_product_vanishes(one, x.rwc_inc_left - rw - y.rwc_inc_left);
    lemma_product_vanishes(one, x.rlc_acc - y.rlc_acc);
    lemma_product_vanishes(x.is_last, x.rwc_inc_left - rw);
    lemma_product_vanishes(x.is_last * acc, x.value - x.rlc_acc);
    lemma_product_vanishes(x.is_last, acc);
    lemma_small_vanishes(x.is_first);
    lemma_small_vanishes(1 - x.is_first);
    lemma_small_vanishes(x.is_last);
    lemma_small_vanishes(one);
    lemma_small_vanishes(x.q_step);
    lemma_small_vanishes(1 - x.q_step);
    lemma_small_vanishes(acc);
    lemma_small_vanishes(x.id - z.id);
    lemma_small_vanishes(x.src_addr_end - z.src_addr_end);
    lemma_small_vanishes(x.rlc_acc - y.rlc_acc);
    lemma_small_vanishes(x.value - x.rlc_acc);
    lemma_congruent_symmetric(x.is_last + y.is_last, 1);
    assert(two % m == 0 <==> congruent(x.is_last + y.is_last, 1)) by {
        assert(two == 1 - (x.is_last + y.is_last));
    }
    if all_vanish(switched(x.q_enable, polys)) {
        assert(polys[0] % m == 0 && polys[1] % m == 0 && polys[2] % m == 0 && polys[3] % m == 0
            && polys[4] % m == 0 && polys[5] % m == 0 && polys[6] % m == 0 && polys[7] % m == 0
            && polys[8] % m == 0 && polys[9] % m == 0 && polys[10] % m == 0 && polys[11] % m == 0
            && polys[12] % m == 0);
    }
    if row_demands(x, y, z) {
        assert forall|i: int| 0 <= i < polys.len() implies #[trigger] polys[i] % m == 0 by {
            assert(polys.len() == 13);
        }
    }
}

/// What the constraints on a step demand.
spec fn step_demands(x: Row, y: Row, z: Row) -> bool {
    &&& y.is_last == 0 || x.bytes_left == 1
    &&& y.is_last == 1 || congruent(x.bytes_left, z.bytes_left + 1)
    &&& has_bits(y.tag, 1, 0, 1) || x.value == y.value
    &&& x.is_first == 0 || x.value == y.value
    &&& x.is_pad == 0 || x.value == 0
    &&& congruent(x.is_pad, 1 - x.lt)
    &&& y.is_pad == 0
}

proof fn lemma_step_demands(x: Row, y: Row, z: Row)
    requires
        x.is_over_field(),
        y.is_over_field(),
        z.is_over_field(),
        x.q_step == 1,
        is_bits(y.tag),
    ensures
        all_vanish(switched(x.q_step, step_polys(x, y, z))) <==> step_demands(x, y, z),
{
    let polys = step_polys(x, y, z);
    let m = modulus();
    let acc = y.tag_is(CopyDataType::RlcAcc);
    lemma_switched(x.q_step, polys);
    lemma_small_vanishes(x.q_step);
    lemma_accumulates(y);
    lemma_product_vanishes(y.is_last, 1 - x.bytes_left);
    lemma_product_vanishes(1 - y.is_last, x.bytes_left - (z.bytes_left + 1));
    lemma_product_vanishes(1 - acc, x.value - y.value);
    lemma_product_vanishes(x.is_first, x.value - y.value);
    lemma_product_vanishes(x.is_pad, x.value);
    lemma_small_vanishes(y.is_last);
    lemma_small_vanishes(1 - y.is_last);
    lemma_small_vanishes(1 - x.bytes_left);
    lemma_small_vanishes(1 - acc);
    lemma_small_vanishes(x.value - y.value);
    lemma_small_vanishes(x.is_first);
    lemma_small_vanishes(x.is_pad);
    lemma_small_vanishes(x.value);
    lemma_small_vanishes(y.is_pad);
    lemma_congruent_symmetric(x.is_pad, 1 - x.lt);
    if all_vanish(switched(x.q_step, polys)) {
        assert(polys[0] % m == 0 && polys[1] % m == 0 && polys[2] % m == 0 && polys[3] % m == 0
            && polys[4] % m == 0 && polys[5] % m == 0 && polys[6] % m == 0);
    }
    if step_demands(x, y, z) {
        assert forall|i: int| 0 <= i < polys.len() implies #[trigger] polys[i] % m == 0 by {
            assert(polys.len() == 7);
        }
    }
}

proof fn lemma_acc_demands(x: Row, y: Row, z: Row, r: int)
    requires
        x.is_over_field(),
        x.q_enable == 1,
        x.q_step == 0 || x.q_step == 1,
        is_bits(x.tag),
    ensures
        all_vanish(switched(acc_switch(x), acc_polys(x, y, z, r))) <==> (x.q_step == 0
            && x.is_last != 1 && has_bits(x.tag, 1, 0, 1) && x.is_pad != 1 ==> congruent(
            z.value,
            x.value * r + y.value,
        )),
{
    let polys = acc_polys(x, y, z, r);
    let m = modulus();
    let acc = x.tag_is(CopyDataType::RlcAcc);
    let a = x.q_enable * (1 - x.q_step);
    let b = a * (1 - x.is_last);
    let c = b * acc;
    assert(acc_switch(x) == c * (1 - x.is_pad));
    lemma_switched(acc_switch(x), polys);
    lemma_accumulates(x);
    lemma_product_vanishes(c, 1 - x.is_pad);
    lemma_product_vanishes(b, acc);
    lemma_product_vanishes(a, 1 - x.is_last);
    lemma_product_vanishes(x.q_enable, 1 - x.q_step);
    lemma_small_vanishes(x.q_enable);
    lemma_small_vanishes(1 - x.q_step);
    lemma_small_vanishes(1 - x.is_last);
    lemma_small_vanishes(acc);
    lemma_small_vanishes(1 - x.is_pad);
    assert(polys.len() == 1);
    assert(polys[0] == z.value - (x.value * r + y.value));
}

impl CopyCircuit {
    /// The gates that `construct` and `configure` add hold at a row of a
    /// witness over the field if and only if the cells of the row and of the
    /// two behind it meet these conditions.
    ///
    /// On a row in use, the tag is one of the numbers one to five in bits; the
    /// flags of the first and of the last row are bits, the first only on a
    /// step and the last only on a row that is none; unless exactly one of the
    /// row and the next is a last one, the row two behind it has its identity,
    /// its tag and its end of the source, at the next address; before the last
    /// row, the next one has the counters moved by the operation that the row
    /// is, and the same combination; on the last row the operations left are
    /// its own, and the value is the combination where bytes are accumulated;
    /// and an accumulating write row before the last is followed by the value
    /// times the challenge plus the value read.
    ///
    /// On a step, the comparison of the address with the end of the source is
    /// backed up; the bytes left are one on the last step, and else one more
    /// than on the next; the value is written as it is read, but for
    /// accumulation behind the first step; the row is padding if and only if
    /// the comparison fails, and reads zero then; and the write row is no
    /// padding.
    pub proof fn law_gates_demand_of_cells(
        self,
        randomness: Expression,
        before: ConstraintSystem,
        constructed: ConstraintSystem,
        configured: ConstraintSystem,
        w: Witness,
        row: int,
    )
        requires
            self.copy_table.adds_tag_gates(self.q_enable, before, constructed),
            self.adds_copy_gates(randomness, constructed, configured),
            forall|column: int, r: int| 0 <= #[trigger] (w.advice)(column, r) < modulus(),
            (w.fixed)(self.q_enable.index as int, row) == 0 || (w.fixed)(
                self.q_enable.index as int,
                row,
            ) == 1,
            (w.selector)(self.q_step.index as int, row) == 0 || (w.selector)(
                self.q_step.index as int,
                row,
            ) == 1,
            forall|j: int|
                0 <= j < 3 ==> (w.advice)(
                    (#[trigger] self.copy_table.tag.bits@[j]).index as int,
                    row + 1,
                ) <= 1,
        ensures
            configured.gates_hold(w, row) <==> {
                let cell = |column: AdviceColumn, k: int| (w.advice)(column.index as int, row + k);
                let t = self.copy_table;
                let c = self.addr_lt_addr_end;
                let in_use = (w.fixed)(self.q_enable.index as int, row) == 1;
                let step = (w.selector)(self.q_step.index as int, row) == 1;
                let b0 = cell(t.tag.bits@[0], 0);
                let b1 = cell(t.tag.bits@[1], 0);
                let b2 = cell(t.tag.bits@[2], 0);
                let operation = if b0 == 0 && b1 == 1 && b2 == 0 || b0 == 1 && b1 == 0 && b2
                    == 0 {
                    1 - cell(self.is_pad, 0)
                } else {
                    0
                };
                &&& before.gates_hold(w, row)
                &&& in_use ==> {
                    &&& b0 <= 1 && b1 <= 1 && b2 <= 1
                    &&& 1 <= 4 * b0 + 2 * b1 + b2 <= 5
                    &&& cell(t.is_first, 0) <= 1 && cell(self.is_last, 0) <= 1
                    &&& !step ==> cell(t.is_first, 0) == 0
                    &&& step ==> cell(self.is_last, 0) == 0
                    &&& congruent(cell(self.is_last, 0) + cell(self.is_last, 1), 1) || {
                        &&& cell(t.id, 0) == cell(t.id, 2)
                        &&& congruent(
                            4 * b0 + 2 * b1 + b2,
                            4 * cell(t.tag.bits@[0], 2) + 2 * cell(t.tag.bits@[1], 2) + cell(
                                t.tag.bits@[2],
                                2,
                            ),
                        )
                        &&& congruent(cell(t.addr, 0) + 1, cell(t.addr, 2))
                        &&& cell(t.src_addr_end, 0) == cell(t.src_addr_end, 2)
                    }
                    &&& cell(self.is_last, 0) == 0 ==> {
                        &&& congruent(cell(t.rw_counter, 0) + operation, cell(t.rw_counter, 1))
                        &&& congruent(
                            cell(t.rwc_inc_left, 0) - operation,
                            cell(t.rwc_inc_left, 1),
                        )
                        &&& cell(t.rlc_acc, 0) == cell(t.rlc_acc, 1)
                    }
                    &&& cell(self.is_last, 0) == 1 ==> congruent(
                        cell(t.rwc_inc_left, 0),
                        operation,
                    )
                    &&& cell(self.is_last, 0) == 1 && b0 == 1 && b1 == 0 && b2 == 1 ==> cell(
                        self.value,
                        0,
                    ) == cell(t.rlc_acc, 0)
                    &&& !step && cell(self.is_last, 0) == 0 && b0 == 1 && b1 == 0 && b2 == 1
                        && cell(self.is_pad, 0) != 1 ==> congruent(
                        cell(self.value, 2),
                        cell(self.value, 0) * randomness.eval(w, row) + cell(self.value, 1),
                    )
                }
                &&& step ==> {
                    &&& cell(c.lt, 0) <= 1
                    &&& congruent(
                        cell(t.addr, 0) - cell(t.src_addr_end, 0) + cell(c.lt, 0)
                            * 0x1_0000_0000_0000_0000,
                        sum(
                            |j: int|
                                (w.advice)(c.diff@[j].index as int, row) * pow(256, j as nat),
                            8,
                        ),
                    )
                    &&& cell(self.is_last, 1) == 0 || cell(t.bytes_left, 0) == 1
                    &&& cell(self.is_last, 1) == 1 || congruent(
                        cell(t.bytes_left, 0),
                        cell(t.bytes_left, 2) + 1,
                    )
                    &&& cell(t.tag.bits@[0], 1) == 1 && cell(t.tag.bits@[1], 1) == 0 && cell(
                        t.tag.bits@[2],
                        1,
                    ) == 1 || cell(self.value, 0) == cell(self.value, 1)
                    &&& cell(t.is_first, 0) == 0 || cell(self.value, 0) == cell(self.value, 1)
                    &&& cell(self.is_pad, 0) == 0 || cell(self.value, 0) == 0
                    &&& congruent(cell(self.is_pad, 0), 1 - cell(c.lt, 0))
                    &&& cell(self.is_pad, 1) == 0
                }
            },
    {
        let x = self.row(w, row);
        let y = self.row(w, row + 1);
        let z = self.row(w, row + 2);
        let r = randomness.eval(w, row);
        self.law_gates_are_the_constraints(randomness, before, constructed, configured, w, row);
        assert(x.is_over_field());
        assert(y.is_over_field());
        assert(z.is_over_field());
        assert(is_bits(y.tag)) by {
            let bits = self.copy_table.tag.bits@;
            assert((w.advice)(bits[0].index as int, row + 1) <= 1);
            assert((w.advice)(bits[1].index as int, row + 1) <= 1);
            assert((w.advice)(bits[2].index as int, row + 1) <= 1);
        }
        lemma_bit_gate(x.q_enable, x.tag[0]);
        lemma_bit_gate(x.q_enable, x.tag[1]);
        lemma_bit_gate(x.q_enable, x.tag[2]);
        law_comparison_gates(x.q_step, x.addr, x.src_addr_end, x.lt, x.diff);
        let c = self.addr_lt_addr_end;
        lemma_sum_same(
            |j: int| x.diff[j] * pow(256, j as nat),
            |j: int| (w.advice)(c.diff@[j].index as int, row) * pow(256, j as nat),
            8,
        );
        if x.q_step == 1 {
            lemma_step_demands(x, y, z);
        } else {
            lemma_small_vanishes(x.q_step);
            lemma_switched(x.q_step, step_polys(x, y, z));
        }
        if x.q_enable == 1 {
            if is_bits(x.tag) {
                lemma_range_gate(x.q_enable, x.tag);
                lemma_row_demands(x, y, z);
                lemma_acc_demands(x, y, z, r);
            }
        } else {
            self.lemma_not_in_use(randomness, w, row);
        }
        if is_bits(x.tag) || x.q_enable == 0 {
            assert forall|j: int| 0 <= j < 3 implies all_vanish(
                bit_gate_values(x.q_enable, #[trigger] x.tag[j]),
            ) by {}
        } else if self.constraints_hold(randomness, w, row) {
            assert(all_vanish(bit_gate_values(x.q_enable, x.tag[0])));
            assert(all_vanish(bit_gate_values(x.q_enable, x.tag[1])));
            assert(all_vanish(bit_gate_values(x.q_enable, x.tag[2])));
        }
    }

    /// A row that is not in use meets the constraints on rows in use.
    proof fn lemma_not_in_use(self, randomness: Expression, w: Witness, row: int)
        requires
            self.row(w, row).q_enable == 0,
        ensures
            all_vanish(self.row_values(w, row)),
            all_vanish(self.acc_values(randomness, w, row)),
            all_vanish(range_gate_values(self.row(w, row).q_enable, self.row(w, row).tag)),
    {
        let x = self.row(w, row);
        let y = self.row(w, row + 1);
        let z = self.row(w, row + 2);
        lemma_small_vanishes(x.q_enable);
        lemma_switched(x.q_enable, row_polys(x, y, z));
        let acc = x.tag_is(CopyDataType::RlcAcc);
        let a = x.q_enable * (1 - x.q_step);
        let b = a * (1 - x.is_last);
        let c = b * acc;
        assert(acc_switch(x) == c * (1 - x.is_pad));
        lemma_product_vanishes(x.q_enable, 1 - x.q_step);
        lemma_product_vanishes(a, 1 - x.is_last);
        lemma_product_vanishes(b, acc);
        lemma_product_vanishes(c, 1 - x.is_pad);
        lemma_switched(acc_switch(x), acc_polys(x, y, z, randomness.eval(w, row)));
        lemma_product_vanishes(x.q_enable, bits_equal(x.tag, seq![false, false, false]));
        lemma_product_vanishes(x.q_enable, bits_equal(x.tag, seq![true, true, false]));
        lemma_product_vanishes(x.q_enable, bits_equal(x.tag, seq![true, true, true]));
    }
}

/// Each constraint on a row in use demands what its name says: the tag has to
/// be one of bits, and `rw_diff` is the operation that the row is.
pub proof fn law_named_row_constraints(x: Row, y: Row, z: Row)
    requires
        x.is_over_field(),
        y.is_over_field(),
        z.is_over_field(),
        x.q_step == 0 || x.q_step == 1,
        x.tag[0] <= 1 && x.tag[1] <= 1 && x.tag[2] <= 1,
    ensures
        row_names().len() == 13,
        row_polys(x, y, z).len() == 13,
        ({
            let rw = if x.tag[0] == 0 && x.tag[1] == 1 && x.tag[2] == 0 || x.tag[0] == 1
                && x.tag[1] == 0 && x.tag[2] == 0 {
                1 - x.is_pad
            } else {
                0
            };
            let accumulates = x.tag[0] == 1 && x.tag[1] == 0 && x.tag[2] == 1;
            &&& row_names()[0] == "is_first is boolean"@
            &&& row_polys(x, y, z)[0] % modulus() == 0 <==> (x.is_first == 0 || x.is_first == 1)
            &&& row_names()[1] == "is_last is boolean"@
            &&& row_polys(x, y, z)[1] % modulus() == 0 <==> (x.is_last == 0 || x.is_last == 1)
            &&& row_names()[2] == "is_first == 0 when q_step == 0"@
            &&& row_polys(x, y, z)[2] % modulus() == 0 <==> (x.q_step == 1 || x.is_first == 0)
            &&& row_names()[3] == "is_last == 0 when q_step == 1"@
            &&& row_polys(x, y, z)[3] % modulus() == 0 <==> (x.is_last == 0 || x.q_step == 0)
            &&& row_names()[4] == "rows[0].id == rows[2].id"@
            &&& row_polys(x, y, z)[4] % modulus() == 0 <==> (congruent(x.is_last + y.is_last, 1) || x.id == z.id)
            &&& row_names()[5] == "rows[0].tag == rows[2].tag"@
            &&& row_polys(x, y, z)[5] % modulus() == 0 <==> (congruent(x.is_last + y.is_last, 1) || congruent(
                4 * x.tag[0] + 2 * x.tag[1] + x.tag[2],
                4 * z.tag[0] + 2 * z.tag[1] + z.tag[2],
            ))
            &&& row_names()[6] == "rows[0].addr + 1 == rows[2].addr"@
            &&& row_polys(x, y, z)[6] % modulus() == 0 <==> (congruent(x.is_last + y.is_last, 1) || congruent(x.addr + 1, z.addr))
            &&& row_names()[7] == "rows[0].src_addr_end == rows[2].src_addr_end for non-last step"@
            &&& row_polys(x, y, z)[7] % modulus() == 0 <==> (congruent(x.is_last + y.is_last, 1) || x.src_addr_end == z.src_addr_end)
            &&& row_names()[8] == "rows[0].rw_counter + rw_diff == rows[1].rw_counter"@
            &&& row_polys(x, y, z)[8] % modulus() == 0 <==> (x.is_last == 1 || congruent(x.rw_counter + rw, y.rw_counter))
            &&& row_names()[9] == "rows[0].rwc_inc_left - rw_diff == rows[1].rwc_inc_left"@
            &&& row_polys(x, y, z)[9] % modulus() == 0 <==> (x.is_last == 1 || congruent(x.rwc_inc_left - rw, y.rwc_inc_left))
            &&& row_names()[10] == "rows[0].rlc_acc == rows[1].rlc_acc"@
            &&& row_polys(x, y, z)[10] % modulus() == 0 <==> (x.is_last == 1 || x.rlc_acc == y.rlc_acc)
            &&& row_names()[11] == "rwc_inc_left == rw_diff for last row in the copy slot"@
            &&& row_polys(x, y, z)[11] % modulus() == 0 <==> (x.is_last == 0 || congruent(x.rwc_inc_left, rw))
            &&& row_names()[12] == "value == rlc_acc at the last row for RlcAcc"@
            &&& row_polys(x, y, z)[12] % modulus() == 0 <==> (x.is_last == 0 || !accumulates || x.value == x.rlc_acc)
        }),
{
    assert(in_field(x.tag[0]) && in_field(x.tag[1]) && in_field(x.tag[2]));
    let polys = row_polys(x, y, z);
    let m = modulus();
    let two = 1 - x.is_last - y.is_last;
    let one = 1 - x.is_last;
    let rw = x.rw_diff();
    let acc = x.tag_is(CopyDataType::RlcAcc);
    lemma_rw_diff_value(x);
    lemma_accumulates(x);
    lemma_product_vanishes(x.is_first, 1 - x.is_first);
    lemma_product_vanishes(x.is_last, 1 - x.is_last);
    lemma_product_vanishes(1 - x.q_step, x.is_first);
    lemma_product_vanishes(x.is_last, x.q_step);
    lemma_product_vanishes(two, x.id - z.id);
    lemma_product_vanishes(two, bits_value(x.tag) - bits_value(z.tag));
    lemma_product_vanishes(two, x.addr + 1 - z.addr);
    lemma_product_vanishes(two, x.src_addr_end - z.src_addr_end);
    lemma_product_vanishes(one, x.rw_counter + rw - y.rw_counter);
    lemma_product_vanishes(one, x.rwc_inc_left - rw - y.rwc_inc_left);
    lemma_product_vanishes(one, x.rlc_acc - y.rlc_acc);
    lemma_product_vanishes(x.is_last, x.rwc_inc_left - rw);
    lemma_product_vanishes(x.is_last * acc, x.value - x.rlc_acc);
    lemma_product_vanishes(x.is_last, acc);
    lemma_small_vanishes(x.is_first);
    lemma_small_vanishes(1 - x.is_first);
    lemma_small_vanishes(x.is_last);
    lemma_small_vanishes(one);
    lemma_small_vanishes(x.q_step);
    lemma_small_vanishes(1 - x.q_step);
    lemma_small_vanishes(acc);
    lemma_small_vanishes(x.id - z.id);
    lemma_small_vanishes(x.src_addr_end - z.src_addr_end);
    lemma_small_vanishes(x.rlc_acc - y.rlc_acc);
    lemma_small_vanishes(x.value - x.rlc_acc);
    lemma_congruent_symmetric(x.is_last + y.is_last, 1);
    assert(two % m == 0 <==> congruent(x.is_last + y.is_last, 1)) by {
        assert(two == 1 - (x.is_last + y.is_last));
    }
}

/// Each constraint on a step demands what its name says.
pub proof fn law_named_step_constraints(x: Row, y: Row, z: Row)
    requires
        x.is_over_field(),
        y.is_over_field(),
        z.is_over_field(),
        y.tag[0] <= 1 && y.tag[1] <= 1 && y.tag[2] <= 1,
    ensures
        step_names().len() == 7,
        step_polys(x, y, z).len() == 7,
        ({
            let accumulates = y.tag[0] == 1 && y.tag[1] == 0 && y.tag[2] == 1;
            &&& step_names()[0] == "bytes_left == 1 for last step"@
            &&& step_polys(x, y, z)[0] % modulus() == 0 <==> (y.is_last == 0 || x.bytes_left == 1)
            &&& step_names()[1] == "bytes_left == bytes_left_next + 1 for non-last step"@
            &&& step_polys(x, y, z)[1] % modulus() == 0 <==> (y.is_last == 1 || congruent(x.bytes_left, z.bytes_left + 1))
            &&& step_names()[2] == "write value == read value (if not rlc acc)"@
            &&& step_polys(x, y, z)[2] % modulus() == 0 <==> (accumulates || x.value == y.value)
            &&& step_names()[3] == "write value == read value (is_first == 1)"@
            &&& step_polys(x, y, z)[3] % modulus() == 0 <==> (x.is_first == 0 || x.value == y.value)
            &&& step_names()[4] == "value == 0 when is_pad == 1 for read"@
            &&& step_polys(x, y, z)[4] % modulus() == 0 <==> (x.is_pad == 0 || x.value == 0)
            &&& step_names()[5] == "is_pad == 1 - (src_addr < src_addr_end) for read row"@
            &&& step_polys(x, y, z)[5] % modulus() == 0 <==> (congruent(x.is_pad, 1 - x.lt))
            &&& step_names()[6] == "is_pad == 0 for write row"@
            &&& step_polys(x, y, z)[6] % modulus() == 0 <==> (y.is_pad == 0)
        }),
{
    assert(in_field(y.tag[0]) && in_field(y.tag[1]) && in_field(y.tag[2]));
    let polys = step_polys(x, y, z);
    let m = modulus();
    let acc = y.tag_is(CopyDataType::RlcAcc);
    lemma_accumulates(y);
    lemma_product_vanishes(y.is_last, 1 - x.bytes_left);
    lemma_product_vanishes(1 - y.is_last, x.bytes_left - (z.bytes_left + 1));
    lemma_product_vanishes(1 - acc, x.value - y.value);
    lemma_product_vanishes(x.is_first, x.value - y.value);
    lemma_product_vanishes(x.is_pad, x.value);
    lemma_small_vanishes(y.is_last);
    lemma_small_vanishes(1 - y.is_last);
    lemma_small_vanishes(1 - x.bytes_left);
    lemma_small_vanishes(1 - acc);
    lemma_small_vanishes(x.value - y.value);
    lemma_small_vanishes(x.is_first);
    lemma_small_vanishes(x.is_pad);
    lemma_small_vanishes(x.value);
    lemma_small_vanishes(y.is_pad);
    lemma_congruent_symmetric(x.is_pad, 1 - x.lt);
}

/// The constraint on accumulation demands what its name says.
pub proof fn law_named_accumulation_constraint(x: Row, y: Row, z: Row, r: int)
    ensures
        acc_names() == seq!["rows[2].value == rows[0].value * r + rows[1].value"@],
        acc_polys(x, y, z, r).len() == 1,
        acc_polys(x, y, z, r)[0] % modulus() == 0 <==> congruent(
            z.value,
            x.value * r + y.value,
        ),
{
}

} // verus!
