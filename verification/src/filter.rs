//! The filter language's syntax tree and its evaluator.
//!
//! A filter is a boolean expression over substring tests. It is evaluated
//! against a raw row: the ordered text fields of one input line, before any
//! of them is given a type.

use crate::text::{chars_of, contains, find_in};
use vstd::prelude::*;

verus! {

/// A filter expression.
#[derive(Debug, PartialEq, Eq)]
pub enum Expression {
    /// Matches every row.
    Empty,
    /// Matches a row in which some field contains the text.
    Match(String),
    Not(Box<Expression>),
    Or(Box<Expression>, Box<Expression>),
    And(Box<Expression>, Box<Expression>),
    /// Condition, branch taken where it holds, branch taken where it does not.
    If(Box<Expression>, Box<Expression>, Box<Expression>),
}

/// The mathematical value of an `Expression`: the same tree over character
/// sequences.
pub ghost enum Formula {
    Empty,
    Match(Seq<char>),
    Not(Box<Formula>),
    Or(Box<Formula>, Box<Formula>),
    And(Box<Formula>, Box<Formula>),
    If(Box<Formula>, Box<Formula>, Box<Formula>),
}

impl Expression {
    /// The formula that the expression denotes.
    pub open spec fn formula(self) -> Formula
        decreases self,
    {
        match self {
            Expression::Empty => Formula::Empty,
            Expression::Match(text) => Formula::Match(text@),
            Expression::Not(inner) => Formula::Not(Box::new(inner.formula())),
            Expression::Or(left, right) => Formula::Or(
                Box::new(left.formula()),
                Box::new(right.formula()),
            ),
            Expression::And(left, right) => Formula::And(
                Box::new(left.formula()),
                Box::new(right.formula()),
            ),
            Expression::If(cond, yes, no) => Formula::If(
                Box::new(cond.formula()),
                Box::new(yes.formula()),
                Box::new(no.formula()),
            ),
        }
    }
}

impl View for Expression {
    type V = Formula;

    open spec fn view(&self) -> Formula {
        self.formula()
    }
}

impl Expression {
    /// A deep copy of the expression.
    pub fn duplicate(&self) -> (copy: Expression)
        ensures
            copy@ == self@,
        decreases self,
    {
        match self {
            Expression::Empty => Expression::Empty,
            Expression::Match(text) => Expression::Match(text.clone()),
            Expression::Not(inner) => Expression::Not(Box::new(inner.duplicate())),
            Expression::Or(left, right) => Expression::Or(
                Box::new(left.duplicate()),
                Box::new(right.duplicate()),
            ),
            Expression::And(left, right) => Expression::And(
                Box::new(left.duplicate()),
                Box::new(right.duplicate()),
            ),
            Expression::If(cond, yes, no) => Expression::If(
                Box::new(cond.duplicate()),
                Box::new(yes.duplicate()),
                Box::new(no.duplicate()),
            ),
        }
    }
}

impl Clone for Expression {
    fn clone(&self) -> (copy: Expression)
        ensures
            copy@ == self@,
    {
        self.duplicate()
    }
}

/// Some field of `row` contains `text`.
pub open spec fn any_field_contains(row: Seq<Seq<char>>, text: Seq<char>) -> bool {
    exists|i: int| 0 <= i < row.len() && contains(#[trigger] row[i], text)
}

impl Formula {
    /// Whether the formula holds of `row`.
    pub open spec fn holds(self, row: Seq<Seq<char>>) -> bool
        decreases self,
    {
        match self {
            Formula::Empty => true,
            Formula::Match(text) => any_field_contains(row, text),
            Formula::Not(inner) => !inner.holds(row),
            Formula::Or(left, right) => left.holds(row) || right.holds(row),
            Formula::And(left, right) => left.holds(row) && right.holds(row),
            Formula::If(cond, yes, no) => if cond.holds(row) {
                yes.holds(row)
            } else {
                no.holds(row)
            },
        }
    }
}

/// A conditional without an else-branch refines: it holds of the rows that
/// fail its condition, and of the others where its then-branch holds.
pub proof fn lemma_conditional_refines(cond: Formula, yes: Formula, row: Seq<Seq<char>>)
    ensures
        Formula::If(Box::new(cond), Box::new(yes), Box::new(Formula::Empty)).holds(row) == (
        cond.holds(row) ==> yes.holds(row)),
{
    assert(Formula::Empty.holds(row));
}

/// The view of a raw row: one character sequence per field.
pub open spec fn row_view(row: Seq<String>) -> Seq<Seq<char>> {
    row.map_values(|field: String| field@)
}

/// The characters of each field of `row`.
fn row_chars(row: &[String]) -> (fields: Vec<Vec<char>>)
    ensures
        fields@.len() == row@.len(),
        forall|i: int| 0 <= i < row@.len() ==> (#[trigger] fields@[i])@ == row@[i]@,
{
    let mut fields: Vec<Vec<char>> = Vec::new();
    let mut i: usize = 0;
    while i < row.len()
        invariant
            i <= row@.len(),
            fields@.len() == i,
            forall|k: int| 0 <= k < i ==> (#[trigger] fields@[k])@ == row@[k]@,
        decreases row@.len() - i,
    {
        fields.push(chars_of(row[i].as_str()));
        i += 1;
    }
    fields
}

/// Whether some element of `fields` contains `needle`.
fn any_contains(fields: &Vec<Vec<char>>, needle: &Vec<char>) -> (found: bool)
    ensures
        found == exists|i: int|
            0 <= i < fields@.len() && contains((#[trigger] fields@[i])@, needle@),
{
    let mut i: usize = 0;
    while i < fields.len()
        invariant
            i <= fields@.len(),
            forall|k: int| 0 <= k < i ==> !contains((#[trigger] fields@[k])@, needle@),
        decreases fields@.len() - i,
    {
        if find_in(fields[i].as_slice(), needle.as_slice()) {
            return true;
        }
        i += 1;
    }
    false
}

impl Expression {
    /// Evaluates the expression against the characters of a row's fields.
    fn holds_of(&self, fields: &Vec<Vec<char>>, Ghost(row): Ghost<Seq<Seq<char>>>) -> (r: bool)
        requires
            fields@.len() == row.len(),
            forall|i: int| 0 <= i < row.len() ==> (#[trigger] fields@[i])@ == row[i],
        ensures
            r == self@.holds(row),
        decreases self,
    {
        match self {
            Expression::Empty => true,
            Expression::Match(text) => {
                let needle = chars_of(text.as_str());
                let found = any_contains(fields, &needle);
                proof {
                    if found {
                        let i = choose|i: int|
                            0 <= i < fields@.len() && contains(
                                (#[trigger] fields@[i])@,
                                needle@,
                            );
                        assert(contains(row[i], text@));
                    } else if any_field_contains(row, text@) {
                        let i = choose|i: int|
                            0 <= i < row.len() && contains(#[trigger] row[i], text@);
                        assert(contains(fields@[i]@, needle@));
                    }
                }
                found
            },
            Expression::Not(inner) => !inner.holds_of(fields, Ghost(row)),
            Expression::Or(left, right) => left.holds_of(fields, Ghost(row)) || right.holds_of(
                fields,
                Ghost(row),
            ),
            Expression::And(left, right) => left.holds_of(fields, Ghost(row)) && right.holds_of(
                fields,
                Ghost(row),
            ),
            Expression::If(cond, yes, no) => {
                if cond.holds_of(fields, Ghost(row)) {
                    yes.holds_of(fields, Ghost(row))
                } else {
                    no.holds_of(fields, Ghost(row))
                }
            },
        }
    }

    /// Whether the expression matches the raw row `record`.
    ///
    /// `Empty` matches every row; `Match` asks for a field that contains its
    /// text, case-sensitively; the other variants combine their parts as the
    /// boolean operators they are named after, left before right.
    pub fn matches(&self, record: &[String]) -> (r: bool)
        ensures
            r == self@.holds(row_view(record@)),
    {
        let fields = row_chars(record);
        self.holds_of(&fields, Ghost(row_view(record@)))
    }
}

/// The one expression that decides, for every row of a run, whether the row
/// is taken.
#[derive(Debug)]
pub struct Filter {
    expression: Expression,
}

impl Clone for Filter {
    fn clone(&self) -> (copy: Filter)
        ensures
            copy@ == self@,
    {
        Filter { expression: self.expression.duplicate() }
    }
}

impl View for Filter {
    type V = Formula;

    closed spec fn view(&self) -> Formula {
        self.expression@
    }
}

impl Filter {
    /// A filter that takes the rows that `expression` matches.
    pub fn new(expression: Expression) -> (filter: Filter)
        ensures
            filter@ == expression@,
    {
        Filter { expression }
    }

    /// The filter's expression.
    pub fn expression(&self) -> (expression: &Expression)
        ensures
            expression@ == self@,
    {
        &self.expression
    }

    /// Whether the filter takes the raw row `record`.
    pub fn matches(&self, record: &[String]) -> (r: bool)
        ensures
            r == self@.holds(row_view(record@)),
    {
        self.expression.matches(record)
    }
}

} // verus!
