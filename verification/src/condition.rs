//! Filter expressions: a closed tree of string-equality tests over row
//! fields and literals, combined with `and` / `or`.
//!
//! The mathematical model is `SpecCondExpr`, a tree over `Seq<char>` values;
//! `eval` gives its meaning against a row. The executable tree `ConditionExpr`
//! views to the model, and `check` decides `eval` exactly.

use vstd::prelude::*;

verus! {

/// Model of one operand of an equality test: a field of the row, named by its
/// zero-based index, or a literal.
pub enum SpecOperand {
    ColumnId(usize),
    Const(Seq<char>),
}

/// Model of a filter expression.
pub enum SpecCondExpr {
    /// Equality between the values of two operands.
    Condition(SpecOperand, SpecOperand),
    /// The always-true filter (a query without an `if` clause).
    True,
    And(Box<SpecCondExpr>, Box<SpecCondExpr>),
    Or(Box<SpecCondExpr>, Box<SpecCondExpr>),
}

/// The operand mentions no field at or past `width`.
pub open spec fn operand_in_range(o: SpecOperand, width: nat) -> bool {
    match o {
        SpecOperand::ColumnId(i) => (i as nat) < width,
        SpecOperand::Const(_) => true,
    }
}

/// The value an operand takes against a row.
pub open spec fn operand_value(o: SpecOperand, row: Seq<Seq<char>>) -> Seq<char> {
    match o {
        SpecOperand::ColumnId(i) => row[i as int],
        SpecOperand::Const(s) => s,
    }
}

/// Every field the expression mentions lies below `width`.
pub open spec fn expr_in_range(e: SpecCondExpr, width: nat) -> bool
    decreases e,
{
    match e {
        SpecCondExpr::Condition(a, b) => operand_in_range(a, width) && operand_in_range(b, width),
        SpecCondExpr::True => true,
        SpecCondExpr::And(l, r) => expr_in_range(*l, width) && expr_in_range(*r, width),
        SpecCondExpr::Or(l, r) => expr_in_range(*l, width) && expr_in_range(*r, width),
    }
}

/// Meaning of a filter expression against one row: equality is exact,
/// character for character, with no coercion.
pub open spec fn eval(e: SpecCondExpr, row: Seq<Seq<char>>) -> bool
    decreases e,
{
    match e {
        SpecCondExpr::Condition(a, b) => operand_value(a, row) == operand_value(b, row),
        SpecCondExpr::True => true,
        SpecCondExpr::And(l, r) => eval(*l, row) && eval(*r, row),
        SpecCondExpr::Or(l, r) => eval(*l, row) || eval(*r, row),
    }
}

/// The first operand in evaluation order (left to right, left subtree first)
/// whose field index is out of range for a row of `width` fields, if any.
pub open spec fn expr_first_out_of_range(e: SpecCondExpr, width: nat) -> Option<usize>
    decreases e,
{
    match e {
        SpecCondExpr::Condition(a, b) => if !operand_in_range(a, width) {
            Some(a->ColumnId_0)
        } else if !operand_in_range(b, width) {
            Some(b->ColumnId_0)
        } else {
            None
        },
        SpecCondExpr::True => None,
        SpecCondExpr::And(l, r) => match expr_first_out_of_range(*l, width) {
            Some(c) => Some(c),
            None => expr_first_out_of_range(*r, width),
        },
        SpecCondExpr::Or(l, r) => match expr_first_out_of_range(*l, width) {
            Some(c) => Some(c),
            None => expr_first_out_of_range(*r, width),
        },
    }
}

/// Law: an equality test between a field and a literal holds of a row exactly
/// when that field equals the literal, character for character — no trimming,
/// no coercion.
pub proof fn lemma_filter_equality_is_exact(x: usize, v: Seq<char>, row: Seq<Seq<char>>)
    ensures
        eval(
            SpecCondExpr::Condition(SpecOperand::ColumnId(x), SpecOperand::Const(v)),
            row,
        ) == (row[x as int] == v),
{
}

/// One operand of an equality test, as executed.
#[derive(Debug)]
pub enum ConditionOperand {
    ColumnId(usize),
    Const(String),
}

impl View for ConditionOperand {
    type V = SpecOperand;

    open spec fn view(&self) -> SpecOperand {
        match self {
            ConditionOperand::ColumnId(i) => SpecOperand::ColumnId(*i),
            ConditionOperand::Const(s) => SpecOperand::Const(s@),
        }
    }
}

impl ConditionOperand {
    /// The operand's value against a row: a field, or the literal itself.
    pub fn value<'a>(&'a self, row: &'a Vec<String>) -> (r: &'a String)
        requires
            operand_in_range(self@, row@.len() as nat),
        ensures
            r@ == operand_value(self@, row.deep_view()),
    {
        match self {
            ConditionOperand::ColumnId(col_id) => &row[*col_id],
            ConditionOperand::Const(c) => c,
        }
    }
}

/// An equality test between two operands.
#[derive(Debug)]
pub struct EqCondition(pub ConditionOperand, pub ConditionOperand);

impl EqCondition {
    /// Whether both operands take the same value against `row`.
    pub fn check(&self, row: &Vec<String>) -> (r: bool)
        requires
            operand_in_range(self.0@, row@.len() as nat),
            operand_in_range(self.1@, row@.len() as nat),
        ensures
            r == (operand_value(self.0@, row.deep_view()) == operand_value(
                self.1@,
                row.deep_view(),
            )),
    {
        self.0.value(row).eq(self.1.value(row))
    }
}

/// The always-true test.
#[derive(Debug)]
pub struct TrueCondition;

impl TrueCondition {
    pub fn check(&self, _row: &Vec<String>) -> (r: bool)
        ensures
            r,
    {
        true
    }
}

/// A filter expression, as executed: built once by the query compiler and
/// read-only afterwards.
#[derive(Debug)]
pub enum ConditionExpr {
    Condition(EqCondition),
    True(TrueCondition),
    And(Box<ConditionExpr>, Box<ConditionExpr>),
    Or(Box<ConditionExpr>, Box<ConditionExpr>),
}

impl View for ConditionExpr {
    type V = SpecCondExpr;

    open spec fn view(&self) -> SpecCondExpr
        decreases self,
    {
        match self {
            ConditionExpr::Condition(c) => SpecCondExpr::Condition(c.0@, c.1@),
            ConditionExpr::True(_) => SpecCondExpr::True,
            ConditionExpr::And(l, r) => SpecCondExpr::And(Box::new((**l)@), Box::new((**r)@)),
            ConditionExpr::Or(l, r) => SpecCondExpr::Or(Box::new((**l)@), Box::new((**r)@)),
        }
    }
}

impl ConditionExpr {
    /// Decides `eval` against one row. Purely functional: neither the tree
    /// nor the row is changed.
    pub fn check(&self, row: &Vec<String>) -> (r: bool)
        requires
            expr_in_range(self@, row@.len() as nat),
        ensures
            r == eval(self@, row.deep_view()),
        decreases self,
    {
        match self {
            ConditionExpr::Condition(cond) => cond.check(row),
            ConditionExpr::True(cond) => cond.check(row),
            ConditionExpr::Or(lhs, rhs) => lhs.check(row) || rhs.check(row),
            ConditionExpr::And(lhs, rhs) => lhs.check(row) && rhs.check(row),
        }
    }
}

} // verus!
