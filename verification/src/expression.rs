//! Polynomial expressions over the cells of a table of columns and rows.
use crate::field::{lemma_felt_range, modulus, Felt};
use vstd::arithmetic::div_mod::{
    lemma_add_mod_noop, lemma_mul_mod_noop, lemma_small_mod, lemma_sub_mod_noop,
};
use vstd::prelude::*;

verus! {

/// A column that the prover fills.
#[derive(Clone, Copy, Debug, PartialEq, Eq, Structural)]
pub struct AdviceColumn {
    pub index: usize,
}

/// A column whose cells are the same in every proof.
#[derive(Clone, Copy, Debug, PartialEq, Eq, Structural)]
pub struct FixedColumn {
    pub index: usize,
}

/// A column of public inputs.
#[derive(Clone, Copy, Debug, PartialEq, Eq, Structural)]
pub struct InstanceColumn {
    pub index: usize,
}

/// A bit per row, the same in every proof, that switches gates on.
#[derive(Clone, Copy, Debug, PartialEq, Eq, Structural)]
pub struct Selector {
    pub index: usize,
}

/// The distance from the current row to a queried one.
#[derive(Clone, Copy, Debug, PartialEq, Eq, Structural)]
pub struct Rotation(pub i32);

impl Rotation {
    /// The current row.
    pub fn cur() -> (r: Rotation)
        ensures
            r == Rotation(0),
    {
        Rotation(0)
    }

    /// The row after the current one.
    pub fn next() -> (r: Rotation)
        ensures
            r == Rotation(1),
    {
        Rotation(1)
    }
}

/// What every cell of a filled table holds, by column index and row.
pub struct Witness {
    pub advice: spec_fn(int, int) -> int,
    pub fixed: spec_fn(int, int) -> int,
    pub instance: spec_fn(int, int) -> int,
    pub selector: spec_fn(int, int) -> int,
}

/// A polynomial in the cells around the current row.
#[derive(Debug)]
pub enum Expression {
    Constant(Felt),
    Selector(Selector),
    Fixed(FixedColumn),
    Advice(AdviceColumn, Rotation),
    Instance(InstanceColumn, Rotation),
    Negated(Box<Expression>),
    Sum(Box<Expression>, Box<Expression>),
    Product(Box<Expression>, Box<Expression>),
}

impl Expression {
    /// The value of the polynomial at a row, over the integers.
    pub open spec fn eval(self, w: Witness, row: int) -> int
        decreases self,
    {
        match self {
            Expression::Constant(c) => c@,
            Expression::Selector(s) => (w.selector)(s.index as int, row),
            Expression::Fixed(c) => (w.fixed)(c.index as int, row),
            Expression::Advice(c, at) => (w.advice)(c.index as int, row + at.0),
            Expression::Instance(c, at) => (w.instance)(c.index as int, row + at.0),
            Expression::Negated(a) => -a.eval(w, row),
            Expression::Sum(a, b) => a.eval(w, row) + b.eval(w, row),
            Expression::Product(a, b) => a.eval(w, row) * b.eval(w, row),
        }
    }

    /// The value of the polynomial at a row in the field: every cell, sum and
    /// product is reduced.
    pub open spec fn field_eval(self, w: Witness, row: int) -> int
        decreases self,
    {
        match self {
            Expression::Constant(c) => c@,
            Expression::Selector(s) => (w.selector)(s.index as int, row) % modulus(),
            Expression::Fixed(c) => (w.fixed)(c.index as int, row) % modulus(),
            Expression::Advice(c, at) => (w.advice)(c.index as int, row + at.0) % modulus(),
            Expression::Instance(c, at) => (w.instance)(c.index as int, row + at.0) % modulus(),
            Expression::Negated(a) => (-a.field_eval(w, row)) % modulus(),
            Expression::Sum(a, b) => (a.field_eval(w, row) + b.field_eval(w, row)) % modulus(),
            Expression::Product(a, b) => (a.field_eval(w, row) * b.field_eval(w, row))
                % modulus(),
        }
    }

    /// The value in the field is the residue of the value over the integers.
    pub proof fn law_field_value_is_residue(self, w: Witness, row: int)
        ensures
            self.field_eval(w, row) == self.eval(w, row) % modulus(),
        decreases self,
    {
        let m = modulus();
        match self {
            Expression::Constant(c) => {
                lemma_felt_range(c);
                lemma_small_mod(c@ as nat, m as nat);
            },
            Expression::Negated(a) => {
                a.law_field_value_is_residue(w, row);
                lemma_sub_mod_noop(0, a.eval(w, row), m);
                lemma_small_mod(0, m as nat);
            },
            Expression::Sum(a, b) => {
                a.law_field_value_is_residue(w, row);
                b.law_field_value_is_residue(w, row);
                lemma_add_mod_noop(a.eval(w, row), b.eval(w, row), m);
            },
            Expression::Product(a, b) => {
                a.law_field_value_is_residue(w, row);
                b.law_field_value_is_residue(w, row);
                lemma_mul_mod_noop(a.eval(w, row), b.eval(w, row), m);
            },
            _ => {},
        }
    }

    /// The constant polynomial of a number.
    pub fn constant(n: u64) -> (r: Expression)
        ensures
            r is Constant,
            forall|w: Witness, row: int| #[trigger] r.eval(w, row) == n,
    {
        Expression::Constant(Felt::from_u64(n))
    }

    /// The sum of two polynomials.
    pub fn plus(self, other: Expression) -> (r: Expression)
        ensures
            r == Expression::Sum(Box::new(self), Box::new(other)),
            forall|w: Witness, row: int| #[trigger]
                r.eval(w, row) == self.eval(w, row) + other.eval(w, row),
    {
        Expression::Sum(Box::new(self), Box::new(other))
    }

    /// The difference of two polynomials.
    pub fn minus(self, other: Expression) -> (r: Expression)
        ensures
            r == Expression::Sum(Box::new(self), Box::new(Expression::Negated(Box::new(other)))),
            forall|w: Witness, row: int| #[trigger]
                r.eval(w, row) == self.eval(w, row) - other.eval(w, row),
    {
        let r = Expression::Sum(Box::new(self), Box::new(Expression::Negated(Box::new(other))));
        proof {
            reveal_with_fuel(Expression::eval, 3);
        }
        r
    }

    /// The product of two polynomials.
    pub fn times(self, other: Expression) -> (r: Expression)
        ensures
            r == Expression::Product(Box::new(self), Box::new(other)),
            forall|w: Witness, row: int| #[trigger]
                r.eval(w, row) == self.eval(w, row) * other.eval(w, row),
    {
        Expression::Product(Box::new(self), Box::new(other))
    }
}

impl Clone for Expression {
    fn clone(&self) -> (r: Self)
        ensures
            r == *self,
        decreases self,
    {
        match self {
            Expression::Constant(c) => Expression::Constant(*c),
            Expression::Selector(s) => Expression::Selector(*s),
            Expression::Fixed(c) => Expression::Fixed(*c),
            Expression::Advice(c, at) => Expression::Advice(*c, *at),
            Expression::Instance(c, at) => Expression::Instance(*c, *at),
            Expression::Negated(a) => Expression::Negated(Box::new((&**a).clone())),
            Expression::Sum(a, b) => Expression::Sum(
                Box::new((&**a).clone()),
                Box::new((&**b).clone()),
            ),
            Expression::Product(a, b) => Expression::Product(
                Box::new((&**a).clone()),
                Box::new((&**b).clone()),
            ),
        }
    }
}

/// The value of an advice column at a distance from the current row.
pub fn query_advice(column: AdviceColumn, at: Rotation) -> (r: Expression)
    ensures
        r == Expression::Advice(column, at),
        forall|w: Witness, row: int| #[trigger]
            r.eval(w, row) == (w.advice)(column.index as int, row + at.0),
{
    Expression::Advice(column, at)
}

/// The value of a fixed column at the current row.
pub fn query_fixed(column: FixedColumn) -> (r: Expression)
    ensures
        r == Expression::Fixed(column),
        forall|w: Witness, row: int| #[trigger]
            r.eval(w, row) == (w.fixed)(column.index as int, row),
{
    Expression::Fixed(column)
}

/// The value of a selector at the current row.
pub fn query_selector(selector: Selector) -> (r: Expression)
    ensures
        r == Expression::Selector(selector),
        forall|w: Witness, row: int| #[trigger]
            r.eval(w, row) == (w.selector)(selector.index as int, row),
{
    Expression::Selector(selector)
}

/// The value of a column of public inputs at a distance from the current row.
pub fn query_instance(column: InstanceColumn, at: Rotation) -> (r: Expression)
    ensures
        r == Expression::Instance(column, at),
        forall|w: Witness, row: int| #[trigger]
            r.eval(w, row) == (w.instance)(column.index as int, row + at.0),
{
    Expression::Instance(column, at)
}

} // verus!
