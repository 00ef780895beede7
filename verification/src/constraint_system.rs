//! The columns, gates and lookups that make up a circuit.
use crate::expression::{
    AdviceColumn, Expression, FixedColumn, InstanceColumn, Selector, Witness,
};
use crate::field::modulus;
use vstd::prelude::*;

verus! {

/// A named polynomial that has to vanish on every row.
#[derive(Debug)]
pub struct Constraint {
    pub name: &'static str,
    pub poly: Expression,
}

/// A named group of constraints.
#[derive(Debug)]
pub struct Gate {
    pub name: &'static str,
    pub constraints: Vec<Constraint>,
}

/// The names of a list of constraints, in order.
pub open spec fn constraint_names(constraints: Seq<Constraint>) -> Seq<Seq<char>> {
    Seq::new(constraints.len(), |i: int| constraints[i].name@)
}

/// The values of a list of constraints at a row, in order.
pub open spec fn constraint_values(constraints: Seq<Constraint>, w: Witness, row: int) -> Seq<int> {
    Seq::new(constraints.len(), |i: int| constraints[i].poly.eval(w, row))
}

/// Whether every value is zero in the field.
pub open spec fn all_vanish(values: Seq<int>) -> bool {
    forall|i: int| 0 <= i < values.len() ==> #[trigger] values[i] % modulus() == 0
}

impl Gate {
    /// Whether a gate has this name and these constraints: their names in
    /// order, and the value of each at every row of every witness.
    pub open spec fn is(
        self,
        name: Seq<char>,
        names: Seq<Seq<char>>,
        values: spec_fn(Witness, int) -> Seq<int>,
    ) -> bool {
        &&& self.name@ == name
        &&& constraint_names(self.constraints@) == names
        &&& forall|w: Witness, row: int| #[trigger]
            constraint_values(self.constraints@, w, row) == values(w, row)
    }

    /// Whether all the constraints vanish at a row.
    pub open spec fn holds(self, w: Witness, row: int) -> bool {
        all_vanish(constraint_values(self.constraints@, w, row))
    }
}

/// A named demand that a tuple of values occurs as a row of a table: each input
/// is paired with the expression of the table that it is looked up in.
#[derive(Debug)]
pub struct Lookup {
    pub name: &'static str,
    pub pairs: Vec<(Expression, Expression)>,
}

/// The values that a list of pairs looks up at a row, in order.
pub open spec fn lookup_inputs(
    pairs: Seq<(Expression, Expression)>,
    w: Witness,
    row: int,
) -> Seq<int> {
    Seq::new(pairs.len(), |i: int| pairs[i].0.eval(w, row))
}

/// The expressions of the table in a list of pairs, in order.
pub open spec fn lookup_tables(pairs: Seq<(Expression, Expression)>) -> Seq<Expression> {
    Seq::new(pairs.len(), |i: int| pairs[i].1)
}

impl Lookup {
    /// Whether the lookup has this name, looks up in these expressions of a
    /// table, and looks up these values at every row of every witness.
    pub open spec fn is(
        self,
        name: Seq<char>,
        table: Seq<Expression>,
        inputs: spec_fn(Witness, int) -> Seq<int>,
    ) -> bool {
        &&& self.name@ == name
        &&& lookup_tables(self.pairs@) == table
        &&& forall|w: Witness, row: int| #[trigger]
            lookup_inputs(self.pairs@, w, row) == inputs(w, row)
    }

    /// Whether the values looked up at a row are those of the table at one of
    /// the rows `0..height`.
    pub open spec fn holds(self, w: Witness, row: int, height: int) -> bool {
        exists|t: int| #[trigger] self.matches_row(w, row, t) && 0 <= t < height
    }

    /// Whether the values looked up at a row are those of the table at row `t`.
    pub open spec fn matches_row(self, w: Witness, row: int, t: int) -> bool {
        forall|i: int|
            0 <= i < self.pairs@.len() ==> (#[trigger] self.pairs@[i].0.eval(w, row)
                - self.pairs@[i].1.eval(w, t)) % modulus() == 0
    }
}

/// A table that lookups may point at, by the expressions of its columns.
#[derive(Debug)]
pub struct LookupTable {
    pub exprs: Vec<Expression>,
}

/// The columns allocated so far, and the gates and lookups over them.
#[derive(Debug)]
pub struct ConstraintSystem {
    pub num_advice: usize,
    pub num_fixed: usize,
    pub num_instance: usize,
    pub num_selectors: usize,
    pub gates: Vec<Gate>,
    pub lookups: Vec<Lookup>,
}

impl ConstraintSystem {
    /// Whether every gate holds at a row.
    pub open spec fn gates_hold(self, w: Witness, row: int) -> bool {
        forall|i: int| 0 <= i < self.gates@.len() ==> (#[trigger] self.gates@[i]).holds(w, row)
    }

    /// Whether `self` is `before` with more advice columns and nothing else.
    pub open spec fn extends_columns(self, before: ConstraintSystem, advice: int) -> bool {
        &&& self.num_advice == before.num_advice + advice
        &&& self.num_fixed == before.num_fixed
        &&& self.num_instance == before.num_instance
        &&& self.num_selectors == before.num_selectors
    }

    /// Whether `self` has the gates of `before`, and `n` more behind them.
    pub open spec fn adds_gates(self, before: ConstraintSystem, n: int) -> bool {
        &&& self.gates@.len() == before.gates@.len() + n
        &&& self.gates@.take(before.gates@.len() as int) == before.gates@
    }

    /// Gate `i` of those behind the gates of `before`.
    pub open spec fn added_gate(self, before: ConstraintSystem, i: int) -> Gate {
        self.gates@[before.gates@.len() + i]
    }

    /// Whether `self` has the lookups of `before`, and `n` more behind them.
    pub open spec fn adds_lookups(self, before: ConstraintSystem, n: int) -> bool {
        &&& self.lookups@.len() == before.lookups@.len() + n
        &&& self.lookups@.take(before.lookups@.len() as int) == before.lookups@
    }

    /// Lookup `i` of those behind the lookups of `before`.
    pub open spec fn added_lookup(self, before: ConstraintSystem, i: int) -> Lookup {
        self.lookups@[before.lookups@.len() + i]
    }

    /// A system without columns, gates or lookups.
    pub fn new() -> (r: ConstraintSystem)
        ensures
            r.num_advice == 0,
            r.num_fixed == 0,
            r.num_instance == 0,
            r.num_selectors == 0,
            r.gates@.len() == 0,
            r.lookups@.len() == 0,
    {
        ConstraintSystem {
            num_advice: 0,
            num_fixed: 0,
            num_instance: 0,
            num_selectors: 0,
            gates: Vec::new(),
            lookups: Vec::new(),
        }
    }

    /// Allocates an advice column.
    pub fn advice_column(&mut self) -> (r: AdviceColumn)
        requires
            old(self).num_advice < usize::MAX,
        ensures
            r.index == old(self).num_advice,
            final(self).num_advice == old(self).num_advice + 1,
            final(self).extends_columns(*old(self), 1),
            final(self).gates == old(self).gates,
            final(self).lookups == old(self).lookups,
    {
        let index: usize = self.num_advice;
        self.num_advice = index + 1;
        AdviceColumn { index }
    }

    /// Allocates a fixed column.
    pub fn fixed_column(&mut self) -> (r: FixedColumn)
        requires
            old(self).num_fixed < usize::MAX,
        ensures
            r.index == old(self).num_fixed,
            final(self).num_fixed == old(self).num_fixed + 1,
            final(self).num_advice == old(self).num_advice,
            final(self).num_instance == old(self).num_instance,
            final(self).num_selectors == old(self).num_selectors,
            final(self).gates == old(self).gates,
            final(self).lookups == old(self).lookups,
    {
        let index: usize = self.num_fixed;
        self.num_fixed = index + 1;
        FixedColumn { index }
    }

    /// Allocates an instance column.
    pub fn instance_column(&mut self) -> (r: InstanceColumn)
        requires
            old(self).num_instance < usize::MAX,
        ensures
            r.index == old(self).num_instance,
            final(self).num_instance == old(self).num_instance + 1,
            final(self).num_advice == old(self).num_advice,
            final(self).num_fixed == old(self).num_fixed,
            final(self).num_selectors == old(self).num_selectors,
            final(self).gates == old(self).gates,
            final(self).lookups == old(self).lookups,
    {
        let index: usize = self.num_instance;
        self.num_instance = index + 1;
        InstanceColumn { index }
    }

    /// Allocates a selector that may stand anywhere in an expression.
    pub fn complex_selector(&mut self) -> (r: Selector)
        requires
            old(self).num_selectors < usize::MAX,
        ensures
            r.index == old(self).num_selectors,
            final(self).num_selectors == old(self).num_selectors + 1,
            final(self).num_advice == old(self).num_advice,
            final(self).num_fixed == old(self).num_fixed,
            final(self).num_instance == old(self).num_instance,
            final(self).gates == old(self).gates,
            final(self).lookups == old(self).lookups,
    {
        let index: usize = self.num_selectors;
        self.num_selectors = index + 1;
        Selector { index }
    }

    /// Adds a gate.
    pub fn create_gate(&mut self, name: &'static str, constraints: Vec<Constraint>)
        ensures
            final(self).gates@ == old(self).gates@.push(Gate { name, constraints }),
            final(self).extends_columns(*old(self), 0),
            final(self).lookups == old(self).lookups,
    {
        self.gates.push(Gate { name, constraints });
    }

    /// Adds a lookup.
    pub fn lookup_any(&mut self, name: &'static str, pairs: Vec<(Expression, Expression)>)
        ensures
            final(self).lookups@ == old(self).lookups@.push(Lookup { name, pairs }),
            final(self).extends_columns(*old(self), 0),
            final(self).gates == old(self).gates,
    {
        self.lookups.push(Lookup { name, pairs });
    }
}

impl ConstraintSystem {
    /// The gates of a system hold at a row if and only if every polynomial of
    /// every gate is a multiple of the modulus there.
    pub proof fn law_gates_hold(self, w: Witness, row: int)
        ensures
            self.gates_hold(w, row) <==> forall|i: int, j: int|
                0 <= i < self.gates@.len() && 0 <= j < self.gates@[i].constraints@.len()
                    ==> #[trigger] self.gates@[i].constraints@[j].poly.eval(w, row) % modulus()
                    == 0,
    {
        if self.gates_hold(w, row) {
            assert forall|i: int, j: int|
                0 <= i < self.gates@.len() && 0 <= j
                    < self.gates@[i].constraints@.len() implies #[trigger] self.gates@[i].constraints@[j].poly.eval(
            w, row) % modulus() == 0 by {
                assert(self.gates@[i].holds(w, row));
                let values = constraint_values(self.gates@[i].constraints@, w, row);
                assert(values[j] % modulus() == 0);
            }
        }
        if forall|i: int, j: int|
            0 <= i < self.gates@.len() && 0 <= j < self.gates@[i].constraints@.len()
                ==> #[trigger] self.gates@[i].constraints@[j].poly.eval(w, row) % modulus() == 0 {
            assert forall|i: int| 0 <= i < self.gates@.len() implies (
            #[trigger] self.gates@[i]).holds(w, row) by {
                let values = constraint_values(self.gates@[i].constraints@, w, row);
                assert forall|j: int| 0 <= j < values.len() implies #[trigger] values[j]
                    % modulus() == 0 by {
                    assert(self.gates@[i].constraints@[j].poly.eval(w, row) % modulus() == 0);
                }
            }
        }
    }

    /// What is added to a system leaves what it has where it is, and columns
    /// are added to the advice columns alone.
    pub proof fn law_additions(self, before: ConstraintSystem, gates: int, lookups: int, advice: int)
        ensures
            self.adds_gates(before, gates) <==> {
                &&& self.gates@.len() == before.gates@.len() + gates
                &&& self.gates@.take(before.gates@.len() as int) == before.gates@
            },
            self.adds_lookups(before, lookups) <==> {
                &&& self.lookups@.len() == before.lookups@.len() + lookups
                &&& self.lookups@.take(before.lookups@.len() as int) == before.lookups@
            },
            self.extends_columns(before, advice) <==> {
                &&& self.num_advice == before.num_advice + advice
                &&& self.num_fixed == before.num_fixed
                &&& self.num_instance == before.num_instance
                &&& self.num_selectors == before.num_selectors
            },
    {
    }
}

/// The names and values of a list of constraints are those of the constraints,
/// one by one.
pub proof fn law_names_and_values(constraints: Seq<Constraint>, w: Witness, row: int, i: int)
    requires
        0 <= i < constraints.len(),
    ensures
        constraint_names(constraints).len() == constraints.len(),
        constraint_values(constraints, w, row).len() == constraints.len(),
        constraint_names(constraints)[i] == constraints[i].name@,
        constraint_values(constraints, w, row)[i] == constraints[i].poly.eval(w, row),
{
}

impl Lookup {
    /// A lookup holds at a row if and only if at one of the rows `0..height`
    /// every expression of the table differs from its input by a multiple of
    /// the modulus.
    pub proof fn law_holds(self, w: Witness, row: int, height: int)
        ensures
            self.holds(w, row, height) <==> !(forall|t: int|
                0 <= t < height ==> !#[trigger] self.matches_row(w, row, t)),
            forall|t: int| #[trigger]
                self.matches_row(w, row, t) <==> forall|i: int|
                    0 <= i < self.pairs@.len() ==> (#[trigger] self.pairs@[i].0.eval(w, row)
                        - self.pairs@[i].1.eval(w, t)) % modulus() == 0,
    {
    }
}

} // verus!
