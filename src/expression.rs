//! Predicates over entries and declarations of the names a result keeps.

use crate::entry::{entry_value, Entry, EntryModel};
use crate::query::{dedup_names, merge_unique, QueryModel, QueryResponse};
use crate::value::{value_eq, value_order, value_order_of, values_equal, Value};
use std::cmp::Ordering;
use vstd::prelude::*;

verus! {

/// A predicate over entries, or a declaration of the names a result keeps.
///
/// The comparisons look a name up among the entry's tags, then its fields.
#[derive(Debug)]
pub enum Expression {
    Eq(String, Value),
    Gt(String, Value),
    Lt(String, Value),
    Ge(String, Value),
    Le(String, Value),
    And(Box<Expression>, Box<Expression>),
    Or(Box<Expression>, Box<Expression>),
    Not(Box<Expression>),
    /// Keep only these tags in the result.
    TagFilter(Vec<String>),
    /// Keep only these fields in the result.
    FieldFilter(Vec<String>),
}

/// Whether the value under `k` is ordered against `v` in one of the ways `accept` allows.
pub open spec fn compares(e: EntryModel, k: Seq<char>, v: Value, accept: spec_fn(Ordering) -> bool) -> bool {
    match entry_value(e, k) {
        Option::Some(x) => match value_order(x, v) {
            Option::Some(o) => accept(o),
            Option::None => false,
        },
        Option::None => false,
    }
}

impl Expression {
    /// Whether the expression holds of an entry. The name declarations hold of every entry.
    pub open spec fn holds(self, e: EntryModel) -> bool
        decreases self,
    {
        match self {
            Expression::Eq(k, v) => match entry_value(e, k@) {
                Option::Some(x) => value_eq(x, v),
                Option::None => false,
            },
            Expression::Gt(k, v) => compares(e, k@, v, |o: Ordering| o == Ordering::Greater),
            Expression::Lt(k, v) => compares(e, k@, v, |o: Ordering| o == Ordering::Less),
            Expression::Ge(k, v) => compares(e, k@, v, |o: Ordering| o != Ordering::Less),
            Expression::Le(k, v) => compares(e, k@, v, |o: Ordering| o != Ordering::Greater),
            Expression::And(a, b) => a.holds(e) && b.holds(e),
            Expression::Or(a, b) => a.holds(e) || b.holds(e),
            Expression::Not(a) => !a.holds(e),
            Expression::TagFilter(_) => true,
            Expression::FieldFilter(_) => true,
        }
    }

    /// The response after this expression's name declaration: a `TagFilter` adds its names
    /// to the tag keep-list; a `FieldFilter` sets the field keep-list to the tag keep-list
    /// joined with its names (so a field declaration also keeps the declared tag names, and
    /// drops field names declared before). Every other expression leaves the response as
    /// it is.
    pub open spec fn declared(self, q: QueryModel) -> QueryModel {
        match self {
            Expression::TagFilter(names) => QueryModel {
                tags: dedup_names(q.tags + names@),
                ..q
            },
            Expression::FieldFilter(names) => QueryModel {
                fields: dedup_names(q.tags + names@),
                ..q
            },
            _ => q,
        }
    }

    /// Whether the expression holds of `entry`.
    pub fn evaluate(&self, entry: &Entry) -> (r: bool)
        ensures
            r == self.holds(entry@),
        decreases self,
    {
        match self {
            Expression::Eq(k, v) => match entry.get_value(k.as_str()) {
                Option::Some(x) => values_equal(x, v),
                Option::None => false,
            },
            Expression::Gt(k, v) => match entry.get_value(k.as_str()) {
                Option::Some(x) => matches!(value_order_of(x, v), Option::Some(Ordering::Greater)),
                Option::None => false,
            },
            Expression::Lt(k, v) => match entry.get_value(k.as_str()) {
                Option::Some(x) => matches!(value_order_of(x, v), Option::Some(Ordering::Less)),
                Option::None => false,
            },
            Expression::Ge(k, v) => match entry.get_value(k.as_str()) {
                Option::Some(x) => matches!(
                    value_order_of(x, v),
                    Option::Some(Ordering::Greater) | Option::Some(Ordering::Equal)
                ),
                Option::None => false,
            },
            Expression::Le(k, v) => match entry.get_value(k.as_str()) {
                Option::Some(x) => matches!(
                    value_order_of(x, v),
                    Option::Some(Ordering::Less) | Option::Some(Ordering::Equal)
                ),
                Option::None => false,
            },
            Expression::And(a, b) => {
                let x = a.evaluate(entry);
                let y = b.evaluate(entry);
                x && y
            },
            Expression::Or(a, b) => {
                let x = a.evaluate(entry);
                let y = b.evaluate(entry);
                x || y
            },
            Expression::Not(a) => !a.evaluate(entry),
            Expression::TagFilter(_) => true,
            Expression::FieldFilter(_) => true,
        }
    }

    /// Records this expression's name declaration in `query`.
    pub fn filter(&self, query: &mut QueryResponse)
        ensures
            final(query)@ == self.declared(old(query)@),
    {
        match self {
            Expression::TagFilter(names) => {
                query.tags = merge_unique(&query.tags, names);
            },
            Expression::FieldFilter(names) => {
                query.fields = merge_unique(&query.tags, names);
            },
            _ => {},
        }
    }
}

/// Negating twice changes nothing.
pub proof fn lemma_double_negation(e: Expression, x: EntryModel)
    ensures
        Expression::Not(Box::new(Expression::Not(Box::new(e)))).holds(x) == e.holds(x),
{
    reveal_with_fuel(Expression::holds, 3);
}

/// `And` and `Or` obey the laws of boolean algebra: each is commutative, associative and
/// distributes over the other, and negation turns one into the other.
pub proof fn lemma_boolean_algebra(a: Expression, b: Expression, c: Expression, x: EntryModel)
    ensures
        Expression::And(Box::new(a), Box::new(b)).holds(x) == Expression::And(Box::new(b), Box::new(a)).holds(x),
        Expression::Or(Box::new(a), Box::new(b)).holds(x) == Expression::Or(Box::new(b), Box::new(a)).holds(x),
        Expression::And(Box::new(Expression::And(Box::new(a), Box::new(b))), Box::new(c)).holds(x)
            == Expression::And(Box::new(a), Box::new(Expression::And(Box::new(b), Box::new(c)))).holds(x),
        Expression::Or(Box::new(Expression::Or(Box::new(a), Box::new(b))), Box::new(c)).holds(x)
            == Expression::Or(Box::new(a), Box::new(Expression::Or(Box::new(b), Box::new(c)))).holds(x),
        Expression::And(Box::new(a), Box::new(Expression::Or(Box::new(b), Box::new(c)))).holds(x)
            == Expression::Or(
            Box::new(Expression::And(Box::new(a), Box::new(b))),
            Box::new(Expression::And(Box::new(a), Box::new(c))),
        ).holds(x),
        Expression::Or(Box::new(a), Box::new(Expression::And(Box::new(b), Box::new(c)))).holds(x)
            == Expression::And(
            Box::new(Expression::Or(Box::new(a), Box::new(b))),
            Box::new(Expression::Or(Box::new(a), Box::new(c))),
        ).holds(x),
        Expression::Not(Box::new(Expression::And(Box::new(a), Box::new(b)))).holds(x)
            == Expression::Or(
            Box::new(Expression::Not(Box::new(a))),
            Box::new(Expression::Not(Box::new(b))),
        ).holds(x),
        Expression::Not(Box::new(Expression::Or(Box::new(a), Box::new(b)))).holds(x)
            == Expression::And(
            Box::new(Expression::Not(Box::new(a))),
            Box::new(Expression::Not(Box::new(b))),
        ).holds(x),
{
    reveal_with_fuel(Expression::holds, 3);
}

} // verus!
