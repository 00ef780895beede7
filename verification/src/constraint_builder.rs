//! Collects the constraints of a gate.
use crate::constraint_system::{constraint_names, constraint_values, Constraint};
use crate::expression::{Expression, Witness};
use vstd::prelude::*;

verus! {

/// One minus a polynomial: the negation of a bit.
pub fn not(a: Expression) -> (r: Expression)
    ensures
        forall|w: Witness, row: int| #[trigger] r.eval(w, row) == 1 - a.eval(w, row),
{
    Expression::constant(1).minus(a)
}

/// The product of two polynomials: the conjunction of two bits.
pub fn and(a: Expression, b: Expression) -> (r: Expression)
    ensures
        forall|w: Witness, row: int| #[trigger]
            r.eval(w, row) == a.eval(w, row) * b.eval(w, row),
{
    let r = Expression::constant(1).times(a).times(b);
    assert forall|w: Witness, row: int| #[trigger]
        r.eval(w, row) == a.eval(w, row) * b.eval(w, row) by {
        assert(1 * a.eval(w, row) == a.eval(w, row)) by (nonlinear_arith);
    }
    r
}

/// The disjunction of two bits.
pub open spec fn or_value(a: int, b: int) -> int {
    1 - (1 - a) * (1 - b)
}

/// The disjunction of two bits, as a polynomial.
pub fn or(a: Expression, b: Expression) -> (r: Expression)
    ensures
        forall|w: Witness, row: int| #[trigger]
            r.eval(w, row) == or_value(a.eval(w, row), b.eval(w, row)),
{
    not(and(not(a), not(b)))
}

/// The constraints collected so far, and the condition on the ones to come.
pub struct ConstraintBuilder {
    pub constraints: Vec<Constraint>,
    pub condition: Option<Expression>,
}

impl ConstraintBuilder {
    /// The names of the constraints so far.
    pub open spec fn names(self) -> Seq<Seq<char>> {
        constraint_names(self.constraints@)
    }

    /// The values of the constraints so far at a row.
    pub open spec fn values(self, w: Witness, row: int) -> Seq<int> {
        constraint_values(self.constraints@, w, row)
    }

    /// What the condition turns the value of a new constraint into.
    pub open spec fn conditioned(self, w: Witness, row: int, value: int) -> int {
        match self.condition {
            Some(c) => c.eval(w, row) * value,
            None => value,
        }
    }

    /// A builder without constraints and without a condition.
    pub fn new() -> (r: ConstraintBuilder)
        ensures
            r.condition is None,
            r.names() == Seq::<Seq<char>>::empty(),
            forall|w: Witness, row: int| #[trigger] r.values(w, row) == Seq::<int>::empty(),
    {
        ConstraintBuilder { constraints: Vec::new(), condition: None }
    }

    /// Multiplies the constraints to come by `condition`.
    pub fn begin_condition(&mut self, condition: Expression)
        requires
            old(self).condition is None,
        ensures
            final(self).condition == Some(condition),
            final(self).names() == old(self).names(),
            forall|w: Witness, row: int| #[trigger]
                final(self).values(w, row) == old(self).values(w, row),
    {
        self.condition = Some(condition);
    }

    /// Lifts the condition.
    pub fn end_condition(&mut self)
        ensures
            final(self).condition is None,
            final(self).names() == old(self).names(),
            forall|w: Witness, row: int| #[trigger]
                final(self).values(w, row) == old(self).values(w, row),
    {
        self.condition = None;
    }

    /// Demands that a polynomial vanishes.
    pub fn require_zero(&mut self, name: &'static str, poly: Expression)
        ensures
            final(self).condition == old(self).condition,
            final(self).names() == old(self).names().push(name@),
            forall|w: Witness, row: int| #[trigger]
                final(self).values(w, row) == old(self).values(w, row).push(
                    old(self).conditioned(w, row, poly.eval(w, row)),
                ),
    {
        let constraint = match &self.condition {
            Some(c) => c.clone().times(poly),
            None => poly,
        };
        self.constraints.push(Constraint { name, poly: constraint });
        assert(self.names() =~= old(self).names().push(name@));
        assert forall|w: Witness, row: int| #[trigger]
            self.values(w, row) =~= old(self).values(w, row).push(
                old(self).conditioned(w, row, poly.eval(w, row)),
            ) by {}
    }

    /// Demands that two polynomials agree.
    pub fn require_equal(&mut self, name: &'static str, lhs: Expression, rhs: Expression)
        ensures
            final(self).condition == old(self).condition,
            final(self).names() == old(self).names().push(name@),
            forall|w: Witness, row: int| #[trigger]
                final(self).values(w, row) == old(self).values(w, row).push(
                    old(self).conditioned(w, row, lhs.eval(w, row) - rhs.eval(w, row)),
                ),
    {
        self.require_zero(name, lhs.minus(rhs));
    }

    /// Demands that a polynomial is zero or one.
    pub fn require_boolean(&mut self, name: &'static str, value: Expression)
        ensures
            final(self).condition == old(self).condition,
            final(self).names() == old(self).names().push(name@),
            forall|w: Witness, row: int| #[trigger]
                final(self).values(w, row) == old(self).values(w, row).push(
                    old(self).conditioned(
                        w,
                        row,
                        value.eval(w, row) * (1 - value.eval(w, row)),
                    ),
                ),
    {
        let copy = value.clone();
        self.require_zero(name, value.times(Expression::constant(1).minus(copy)));
    }

    /// The constraints, each multiplied by `selector`.
    pub fn gate(self, selector: Expression) -> (r: Vec<Constraint>)
        ensures
            constraint_names(r@) == self.names(),
            forall|w: Witness, row: int| #[trigger]
                constraint_values(r@, w, row) == self.values(w, row).map_values(
                    |v: int| selector.eval(w, row) * v,
                ),
    {
        let mut r: Vec<Constraint> = Vec::new();
        let n: usize = self.constraints.len();
        for i in 0..n
            invariant
                n == self.constraints@.len(),
                r@.len() == i,
                forall|j: int|
                    0 <= j < i ==> (#[trigger] r@[j]).name == self.constraints@[j].name,
                forall|j: int, w: Witness, row: int|
                    0 <= j < i ==> #[trigger] r@[j].poly.eval(w, row) == selector.eval(w, row)
                        * self.constraints@[j].poly.eval(w, row),
        {
            let c = &self.constraints[i];
            r.push(Constraint { name: c.name, poly: selector.clone().times(c.poly.clone()) });
        }
        assert(constraint_names(r@) =~= self.names());
        assert forall|w: Witness, row: int| #[trigger]
            constraint_values(r@, w, row) =~= self.values(w, row).map_values(
                |v: int| selector.eval(w, row) * v,
            ) by {}
        r
    }
}

} // verus!
