//! The cells that an assignment fills, in the order in which it fills them.
use crate::expression::{AdviceColumn, FixedColumn, Selector};
use crate::field::Felt;
use vstd::prelude::*;

verus! {

/// The columns of a copy row, by name.
#[derive(Clone, Copy, Debug, PartialEq, Eq, Structural)]
pub enum Label {
    IsFirst,
    Id,
    Addr,
    SrcAddrEnd,
    BytesLeft,
    RlcAcc,
    RwCounter,
    RwcIncLeft,
    IsLast,
    Value,
    IsPad,
    IsCode,
}

impl Label {
    /// The name of the column.
    pub open spec fn text(self) -> Seq<char> {
        match self {
            Label::IsFirst => "is_first"@,
            Label::Id => "id"@,
            Label::Addr => "addr"@,
            Label::SrcAddrEnd => "src_addr_end"@,
            Label::BytesLeft => "bytes_left"@,
            Label::RlcAcc => "rlc_acc"@,
            Label::RwCounter => "rw_counter"@,
            Label::RwcIncLeft => "rwc_inc_left"@,
            Label::IsLast => "is_last"@,
            Label::Value => "value"@,
            Label::IsPad => "is_pad"@,
            Label::IsCode => "is_code"@,
        }
    }

    /// The name of the column.
    pub fn name(&self) -> (r: &'static str)
        ensures
            r@ == self.text(),
    {
        match self {
            Label::IsFirst => "is_first",
            Label::Id => "id",
            Label::Addr => "addr",
            Label::SrcAddrEnd => "src_addr_end",
            Label::BytesLeft => "bytes_left",
            Label::RlcAcc => "rlc_acc",
            Label::RwCounter => "rw_counter",
            Label::RwcIncLeft => "rwc_inc_left",
            Label::IsLast => "is_last",
            Label::Value => "value",
            Label::IsPad => "is_pad",
            Label::IsCode => "is_code",
        }
    }
}

/// Labels are named after their columns, no two of them alike.
pub proof fn law_label_names(a: Label, b: Label)
    ensures
        a.text() == (match a {
            Label::IsFirst => "is_first"@,
            Label::Id => "id"@,
            Label::Addr => "addr"@,
            Label::SrcAddrEnd => "src_addr_end"@,
            Label::BytesLeft => "bytes_left"@,
            Label::RlcAcc => "rlc_acc"@,
            Label::RwCounter => "rw_counter"@,
            Label::RwcIncLeft => "rwc_inc_left"@,
            Label::IsLast => "is_last"@,
            Label::Value => "value"@,
            Label::IsPad => "is_pad"@,
            Label::IsCode => "is_code"@,
        }),
        a.text() == b.text() ==> a == b,
{
    reveal_strlit("is_first");
    reveal_strlit("id");
    reveal_strlit("addr");
    reveal_strlit("src_addr_end");
    reveal_strlit("bytes_left");
    reveal_strlit("rlc_acc");
    reveal_strlit("rw_counter");
    reveal_strlit("rwc_inc_left");
    reveal_strlit("is_last");
    reveal_strlit("value");
    reveal_strlit("is_pad");
    reveal_strlit("is_code");
    if a.text() == b.text() {
        assert(a.text().len() == b.text().len());
        assert(a.text()[0] == b.text()[0]);
        assert(a.text()[1] == b.text()[1]);
        assert(a.text().len() > 3 ==> a.text()[3] == b.text()[3]);
    }
}

/// What an assignment says about itself.
#[derive(Clone, Copy, Debug, PartialEq, Eq, Structural)]
pub enum Annotation {
    /// A column of a row that belongs to a copy event.
    AtRow(Label),
    /// A column of a padding row.
    Assign(Label),
    /// The switch of a row.
    QEnable,
    /// A bit of a binary number, by its place.
    Bit(usize),
    /// The outcome of a comparison.
    Lt,
    /// A byte of the difference behind a comparison, by its place.
    DiffByte(usize),
}

/// One assignment.
#[allow(inconsistent_fields)]
#[derive(Clone, Copy, Debug, PartialEq, Eq)]
pub enum Assignment {
    Advice { annotation: Annotation, column: AdviceColumn, offset: usize, value: Felt },
    Fixed { annotation: Annotation, column: FixedColumn, offset: usize, value: Felt },
    Enable { selector: Selector, offset: usize },
}

/// One assignment, with numbers in place of machine values.
#[allow(inconsistent_fields)]
pub enum Write {
    Advice { annotation: Annotation, column: AdviceColumn, offset: int, value: int },
    Fixed { annotation: Annotation, column: FixedColumn, offset: int, value: int },
    Enable { selector: Selector, offset: int },
}

impl Assignment {
    pub open spec fn view(&self) -> Write {
        match *self {
            Assignment::Advice { annotation, column, offset, value } => Write::Advice {
                annotation,
                column,
                offset: offset as int,
                value: value@,
            },
            Assignment::Fixed { annotation, column, offset, value } => Write::Fixed {
                annotation,
                column,
                offset: offset as int,
                value: value@,
            },
            Assignment::Enable { selector, offset } => Write::Enable {
                selector,
                offset: offset as int,
            },
        }
    }
}

/// The assignments made so far.
#[derive(Debug)]
pub struct Region {
    pub assignments: Vec<Assignment>,
}

impl Region {
    pub open spec fn view(&self) -> Seq<Write> {
        Seq::new(self.assignments@.len(), |i: int| self.assignments@[i]@)
    }

    /// A region without assignments.
    pub fn new() -> (r: Region)
        ensures
            r@ == Seq::<Write>::empty(),
    {
        let r = Region { assignments: Vec::new() };
        assert(r@ =~= Seq::<Write>::empty());
        r
    }

    /// Fills a cell of an advice column.
    pub fn assign_advice(
        &mut self,
        annotation: Annotation,
        column: AdviceColumn,
        offset: usize,
        value: Felt,
    )
        ensures
            final(self)@ == old(self)@.push(
                Write::Advice { annotation, column, offset: offset as int, value: value@ },
            ),
            final(self).assignments@ == old(self).assignments@.push(
                Assignment::Advice { annotation, column, offset, value },
            ),
    {
        self.assignments.push(Assignment::Advice { annotation, column, offset, value });
        assert(self@ =~= old(self)@.push(
            Write::Advice { annotation, column, offset: offset as int, value: value@ },
        ));
    }

    /// Fills a cell of a fixed column.
    pub fn assign_fixed(
        &mut self,
        annotation: Annotation,
        column: FixedColumn,
        offset: usize,
        value: Felt,
    )
        ensures
            final(self)@ == old(self)@.push(
                Write::Fixed { annotation, column, offset: offset as int, value: value@ },
            ),
            final(self).assignments@ == old(self).assignments@.push(
                Assignment::Fixed { annotation, column, offset, value },
            ),
    {
        self.assignments.push(Assignment::Fixed { annotation, column, offset, value });
        assert(self@ =~= old(self)@.push(
            Write::Fixed { annotation, column, offset: offset as int, value: value@ },
        ));
    }

    /// Switches a selector on at a row.
    pub fn enable_selector(&mut self, selector: Selector, offset: usize)
        ensures
            final(self)@ == old(self)@.push(Write::Enable { selector, offset: offset as int }),
            final(self).assignments@ == old(self).assignments@.push(
                Assignment::Enable { selector, offset },
            ),
    {
        self.assignments.push(Assignment::Enable { selector, offset });
        assert(self@ =~= old(self)@.push(Write::Enable { selector, offset: offset as int }));
    }
}

/// The numbers of a region are those of its assignments, one by one: the same
/// annotation, column and row, and the number that the value stands for.
pub proof fn law_region_numbers(region: Region, i: int)
    requires
        0 <= i < region.assignments@.len(),
    ensures
        region@.len() == region.assignments@.len(),
        match region.assignments@[i] {
            Assignment::Advice { annotation, column, offset, value } => region@[i]
                matches Write::Advice { annotation: a, column: c, offset: o, value: v } && a
                == annotation && c == column && o == offset && v == value@,
            Assignment::Fixed { annotation, column, offset, value } => region@[i]
                matches Write::Fixed { annotation: a, column: c, offset: o, value: v } && a
                == annotation && c == column && o == offset && v == value@,
            Assignment::Enable { selector, offset } => region@[i]
                matches Write::Enable { selector: s, offset: o } && s == selector && o == offset,
        },
{
}

/// The last value written to a cell of an advice column, if there is one.
pub open spec fn advice_cell(writes: Seq<Write>, column: int, row: int) -> Option<int>
    decreases writes.len(),
{
    if writes.len() == 0 {
        None
    } else {
        match writes.last() {
            Write::Advice { column: c, offset, value, .. } if c.index == column && offset
                == row => Some(value),
            _ => advice_cell(writes.drop_last(), column, row),
        }
    }
}

/// The last value written to a cell of a fixed column, if there is one.
pub open spec fn fixed_cell(writes: Seq<Write>, column: int, row: int) -> Option<int>
    decreases writes.len(),
{
    if writes.len() == 0 {
        None
    } else {
        match writes.last() {
            Write::Fixed { column: c, offset, value, .. } if c.index == column && offset
                == row => Some(value),
            _ => fixed_cell(writes.drop_last(), column, row),
        }
    }
}

/// Whether a selector was switched on at a row.
pub open spec fn selector_enabled(writes: Seq<Write>, selector: int, row: int) -> bool
    decreases writes.len(),
{
    if writes.len() == 0 {
        false
    } else {
        match writes.last() {
            Write::Enable { selector: s, offset } if s.index == selector && offset == row => true,
            _ => selector_enabled(writes.drop_last(), selector, row),
        }
    }
}

/// The row that an assignment is made at.
pub open spec fn row_of(write: Write) -> int {
    match write {
        Write::Advice { offset, .. } => offset,
        Write::Fixed { offset, .. } => offset,
        Write::Enable { offset, .. } => offset,
    }
}

/// The same assignment at another row.
pub open spec fn moved(write: Write, row: int) -> Write {
    match write {
        Write::Advice { annotation, column, value, .. } => Write::Advice {
            annotation,
            column,
            offset: row,
            value,
        },
        Write::Fixed { annotation, column, value, .. } => Write::Fixed {
            annotation,
            column,
            offset: row,
            value,
        },
        Write::Enable { selector, .. } => Write::Enable { selector, offset: row },
    }
}

/// The assignments that are made at a row, in order.
pub open spec fn at_row(writes: Seq<Write>, row: int) -> Seq<Write>
    decreases writes.len(),
{
    if writes.len() == 0 {
        seq![]
    } else if row_of(writes.last()) == row {
        at_row(writes.drop_last(), row).push(writes.last())
    } else {
        at_row(writes.drop_last(), row)
    }
}

/// The number that an unassigned cell or an assigned one holds.
pub open spec fn cell_value(cell: Option<int>) -> int {
    match cell {
        Some(value) => value,
        None => 0,
    }
}

/// The assignments of two lists at a row are those of the first and then
/// those of the second.
pub proof fn lemma_at_row_concat(a: Seq<Write>, b: Seq<Write>, row: int)
    ensures
        at_row(a + b, row) == at_row(a, row) + at_row(b, row),
    decreases b.len(),
{
    if b.len() == 0 {
        assert(a + b =~= a);
    } else {
        lemma_at_row_concat(a, b.drop_last(), row);
        assert((a + b).drop_last() =~= a + b.drop_last());
    }
    assert(at_row(a + b, row) =~= at_row(a, row) + at_row(b, row));
}

/// Assignments that are all made at one row are found there and nowhere else.
pub proof fn lemma_at_row_of_one(writes: Seq<Write>, offset: int, row: int)
    requires
        forall|i: int| 0 <= i < writes.len() ==> row_of(#[trigger] writes[i]) == offset,
    ensures
        at_row(writes, row) == (if offset == row {
            writes
        } else {
            seq![]
        }),
    decreases writes.len(),
{
    if writes.len() > 0 {
        lemma_at_row_of_one(writes.drop_last(), offset, row);
        assert(writes.drop_last().push(writes.last()) =~= writes);
    } else {
        assert(writes =~= seq![]);
    }
}

/// What a cell holds depends only on the assignments made at its row.
pub proof fn lemma_cells_at_row(writes: Seq<Write>, index: int, row: int)
    ensures
        advice_cell(writes, index, row) == advice_cell(at_row(writes, row), index, row),
        fixed_cell(writes, index, row) == fixed_cell(at_row(writes, row), index, row),
        selector_enabled(writes, index, row) == selector_enabled(
            at_row(writes, row),
            index,
            row,
        ),
    decreases writes.len(),
{
    if writes.len() > 0 {
        let rest = at_row(writes.drop_last(), row);
        lemma_cells_at_row(writes.drop_last(), index, row);
        assert(rest.push(writes.last()).drop_last() =~= rest);
    }
}

/// Whether an assignment fills a cell of an advice column.
pub open spec fn fills_advice(write: Write, column: int, row: int) -> bool {
    write matches Write::Advice { column: c, offset, .. } && c.index == column && offset == row
}

/// The value of an assignment to an advice column.
pub open spec fn advice_value(write: Write) -> int {
    match write {
        Write::Advice { value, .. } => value,
        _ => 0,
    }
}

/// A cell holds the value of the last assignment that fills it.
pub proof fn lemma_advice_filled(writes: Seq<Write>, i: int, column: int, row: int)
    requires
        0 <= i < writes.len(),
        fills_advice(writes[i], column, row),
        forall|j: int| i < j < writes.len() ==> !fills_advice(#[trigger] writes[j], column, row),
    ensures
        advice_cell(writes, column, row) == Some(advice_value(writes[i])),
    decreases writes.len(),
{
    if i < writes.len() - 1 {
        lemma_advice_filled(writes.drop_last(), i, column, row);
    }
}

/// A cell that no assignment fills holds nothing.
pub proof fn lemma_advice_unfilled(writes: Seq<Write>, column: int, row: int)
    requires
        forall|j: int| 0 <= j < writes.len() ==> !fills_advice(#[trigger] writes[j], column, row),
    ensures
        advice_cell(writes, column, row) is None,
    decreases writes.len(),
{
    if writes.len() > 0 {
        lemma_advice_unfilled(writes.drop_last(), column, row);
    }
}

/// The cells of two lists of assignments: the second goes before the first.
pub proof fn lemma_cells_concat(a: Seq<Write>, b: Seq<Write>, index: int, row: int)
    ensures
        advice_cell(a + b, index, row) == (match advice_cell(b, index, row) {
            Some(value) => Some(value),
            None => advice_cell(a, index, row),
        }),
        fixed_cell(a + b, index, row) == (match fixed_cell(b, index, row) {
            Some(value) => Some(value),
            None => fixed_cell(a, index, row),
        }),
        selector_enabled(a + b, index, row) == (selector_enabled(a, index, row)
            || selector_enabled(b, index, row)),
    decreases b.len(),
{
    if b.len() == 0 {
        assert(a + b =~= a);
    } else {
        lemma_cells_concat(a, b.drop_last(), index, row);
        assert((a + b).drop_last() =~= a + b.drop_last());
    }
}

/// Assignments to advice columns leave fixed columns and selectors alone.
pub proof fn lemma_advice_only(writes: Seq<Write>, index: int, row: int)
    requires
        forall|j: int| 0 <= j < writes.len() ==> #[trigger] writes[j] is Advice,
    ensures
        fixed_cell(writes, index, row) is None,
        !selector_enabled(writes, index, row),
    decreases writes.len(),
{
    if writes.len() > 0 {
        lemma_advice_only(writes.drop_last(), index, row);
    }
}

} // verus!
