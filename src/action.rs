//! Pipeline stages and what each does to a response.

use crate::aggregate::{
    aggregate_entries, all_numeric, sort_by_ts, window_entries, window_seconds, windows,
    AggregateFunction, QueryError,
};
use crate::entry::{entry_value, models, Entry, EntryModel};
use crate::expression::Expression;
use crate::index::{lemma_models_push, range_of, select_range, Indexes};
use crate::query::{copy_names, QueryModel, QueryResponse};
use crate::value::{is_numeric, value_eq, Value};
use vstd::prelude::*;
use vstd::string::StringSliceAdditionalSpecFns;
use vstd::utf8::encode_utf8;

verus! {

/// One stage of a query pipeline.
#[derive(Debug)]
pub enum Action {
    /// Keep the entries timestamped within `[start, end]`; no end means no upper bound.
    Range(u64, Option<u64>),
    /// Keep the entries the expression holds of, and record its name declarations.
    Filter(Expression),
    /// Reduce the entries window by window: a window length such as `15m`, and the
    /// reduction to apply.
    AggregateWindow(String, AggregateFunction),
}

pub open spec fn range_end(end: Option<u64>) -> u64 {
    match end {
        Option::Some(e) => e,
        Option::None => u64::MAX,
    }
}

/// The entries of `s` that `expr` holds of, in their order.
pub open spec fn matching(s: Seq<EntryModel>, expr: Expression) -> Seq<EntryModel>
    decreases s.len(),
{
    if s.len() == 0 {
        s
    } else {
        let r = matching(s.drop_last(), expr);
        if expr.holds(s.last()) {
            r.push(s.last())
        } else {
            r
        }
    }
}

pub open spec fn response_model(r: Result<QueryResponse, QueryError>) -> Result<QueryModel, QueryError> {
    match r {
        Ok(q) => Ok(q@),
        Err(e) => Err(e),
    }
}

/// The response that a pipeline starts from: all the entries, every name kept.
pub open spec fn start_model(entries: Seq<EntryModel>) -> QueryModel {
    QueryModel { items: entries, fields: seq![], tags: seq![] }
}

impl Action {
    /// `out` is an outcome of this stage on response `q`, where `reduce` reduces the
    /// values of a field within a window.
    pub open spec fn stage<R: Fn(AggregateFunction, &Vec<Value>) -> Value>(
        self,
        q: QueryModel,
        reduce: R,
        out: Result<QueryModel, QueryError>,
    ) -> bool {
        match self {
            Action::Range(start, end) => out == Ok::<QueryModel, QueryError>(
                QueryModel { items: range_of(q.items, start, range_end(end)), ..q },
            ),
            Action::Filter(expr) => out == Ok::<QueryModel, QueryError>(
                expr.declared(QueryModel { items: matching(q.items, expr), ..q }),
            ),
            Action::AggregateWindow(w, f) => match window_seconds(encode_utf8(w@)) {
                Option::None => out == Ok::<QueryModel, QueryError>(
                    QueryModel { items: seq![], ..q },
                ),
                Option::Some(size) => if all_numeric(q.items) {
                    out matches Ok(m) && m.fields == q.fields && m.tags == q.tags
                        && window_entries(reduce, f, windows(sort_by_ts(q.items), size), m.items)
                } else {
                    out == Err::<QueryModel, QueryError>(QueryError::NonNumeric)
                },
            },
        }
    }

    /// Runs this stage as the first of a pipeline, on the entries of `indexes`; a range
    /// is read from the index directly.
    pub fn init<R: Fn(AggregateFunction, &Vec<Value>) -> Value>(
        &self,
        indexes: &Indexes,
        reduce: &R,
    ) -> (r: Result<QueryResponse, QueryError>)
        requires
            indexes.wf(),
            forall|f: AggregateFunction, v: Vec<Value>| call_requires(*reduce, (f, &v)),
        ensures
            self.stage(start_model(indexes@), *reduce, response_model(r)),
    {
        let mut query_response = QueryResponse::new();
        assert(query_response@.items =~= Seq::<EntryModel>::empty());
        assert(query_response@.fields =~= Seq::<String>::empty());
        assert(query_response@.tags =~= Seq::<String>::empty());
        match self {
            Action::Range(start, end) => {
                let end = match end {
                    Option::Some(e) => *e,
                    Option::None => u64::MAX,
                };
                query_response.items = indexes.range(*start, end);
            },
            Action::Filter(expression) => {
                let entries = indexes.values();
                query_response.items = select_matching(&entries, expression);
                expression.filter(&mut query_response);
            },
            Action::AggregateWindow(window_size_str, aggregate_function) => {
                let entries = indexes.values();
                let text = window_size_str.as_str();
                match aggregate_entries(&entries, text, aggregate_function, reduce) {
                    Ok(items) => {
                        query_response.items = items;
                        assert(query_response@.items.len() == 0 ==> query_response@.items =~= Seq::<EntryModel>::empty());
                    },
                    Err(e) => {
                        return Err(e);
                    },
                }
            },
        }
        Ok(query_response)
    }

    /// Runs this stage on the response of the stages before it.
    pub fn evaluate<R: Fn(AggregateFunction, &Vec<Value>) -> Value>(
        &self,
        query_response: &QueryResponse,
        reduce: &R,
    ) -> (r: Result<QueryResponse, QueryError>)
        requires
            forall|f: AggregateFunction, v: Vec<Value>| call_requires(*reduce, (f, &v)),
        ensures
            self.stage(query_response@, *reduce, response_model(r)),
    {
        let fields = copy_names(&query_response.fields);
        let tags = copy_names(&query_response.tags);
        match self {
            Action::Range(start, end) => {
                let end = match end {
                    Option::Some(e) => *e,
                    Option::None => u64::MAX,
                };
                let items = select_range(&query_response.items, *start, end);
                Ok(QueryResponse { items, fields, tags })
            },
            Action::Filter(expression) => {
                let items = select_matching(&query_response.items, expression);
                let mut output = QueryResponse { items, fields, tags };
                expression.filter(&mut output);
                Ok(output)
            },
            Action::AggregateWindow(window_size_str, aggregate_function) => {
                let text = window_size_str.as_str();
                match aggregate_entries(
                    &query_response.items,
                    text,
                    aggregate_function,
                    reduce,
                ) {
                    Ok(items) => {
                        let out = QueryResponse { items, fields, tags };
                        assert(out@.items.len() == 0 ==> out@.items =~= Seq::<EntryModel>::empty());
                        Ok(out)
                    },
                    Err(e) => Err(e),
                }
            },
        }
    }
}

/// The entries of `items` that `expr` holds of.
pub fn select_matching(items: &Vec<Entry>, expr: &Expression) -> (r: Vec<Entry>)
    ensures
        models(r@) == matching(models(items@), *expr),
{
    let ghost s = models(items@);
    let mut r: Vec<Entry> = Vec::new();
    let mut i: usize = 0;
    while i < items.len()
        invariant
            s == models(items@),
            i <= items@.len(),
            models(r@) == matching(s.take(i as int), *expr),
        decreases items@.len() - i,
    {
        assert(s.take(i + 1).drop_last() == s.take(i as int));
        if expr.evaluate(&items[i]) {
            proof {
                lemma_models_push(r@, items@[i as int]);
            }
            r.push(items[i].copy());
        }
        i = i + 1;
    }
    assert(s.take(i as int) == s);
    r
}

/// The entries that a filter keeps are those of `s` that the expression holds of.
pub proof fn lemma_matching(s: Seq<EntryModel>, expr: Expression)
    ensures
        forall|x: EntryModel|
            #[trigger] matching(s, expr).contains(x) <==> (s.contains(x) && expr.holds(x)),
    decreases s.len(),
{
    if s.len() > 0 {
        let d = s.drop_last();
        let l = s.last();
        lemma_matching(d, expr);
        let r0 = matching(d, expr);
        let r = matching(s, expr);
        assert forall|x: EntryModel| #[trigger] r.contains(x) <==> (s.contains(x) && expr.holds(x)) by {
            if r.contains(x) {
                let j = choose|j: int| 0 <= j < r.len() && r[j] == x;
                if j < r0.len() {
                    assert(r0[j] == x);
                    assert(r0.contains(x));
                    let k = choose|k: int| 0 <= k < d.len() && d[k] == x;
                    assert(s[k] == x);
                } else {
                    assert(s[s.len() - 1] == x);
                }
            }
            if s.contains(x) && expr.holds(x) {
                let k = choose|k: int| 0 <= k < s.len() && s[k] == x;
                if k < s.len() - 1 {
                    assert(d[k] == x);
                    assert(d.contains(x));
                    assert(r0.contains(x));
                    let j = choose|j: int| 0 <= j < r0.len() && r0[j] == x;
                    if expr.holds(l) {
                        assert(r[j] == x);
                    }
                } else {
                    assert(r[r.len() - 1] == x);
                }
            }
        }
    }
}

/// A filter on `k == v` keeps exactly the entries whose value under `k` equals `v`.
pub proof fn lemma_eq_filter(s: Seq<EntryModel>, k: String, v: Value)
    ensures
        forall|x: EntryModel|
            #[trigger] matching(s, Expression::Eq(k, v)).contains(x) <==> (s.contains(x) && match entry_value(x, k@) {
                Option::Some(w) => value_eq(w, v),
                Option::None => false,
            }),
{
    lemma_matching(s, Expression::Eq(k, v));
}

/// An aggregation whose window length cannot be read gives an empty response, not a
/// failure.
pub proof fn lemma_unreadable_window<R: Fn(AggregateFunction, &Vec<Value>) -> Value>(
    q: QueryModel,
    w: String,
    f: AggregateFunction,
    reduce: R,
    out: Result<QueryModel, QueryError>,
)
    requires
        window_seconds(encode_utf8(w@)) is None,
        Action::AggregateWindow(w, f).stage(q, reduce, out),
    ensures
        out matches Ok(m) && m.items.len() == 0 && m.fields == q.fields && m.tags == q.tags,
{
}

/// An aggregation over entries one of whose field values is not a number fails, however
/// many other fields and windows are numeric.
pub proof fn lemma_non_numeric_fails<R: Fn(AggregateFunction, &Vec<Value>) -> Value>(
    q: QueryModel,
    w: String,
    f: AggregateFunction,
    reduce: R,
    out: Result<QueryModel, QueryError>,
    i: int,
    j: int,
)
    requires
        window_seconds(encode_utf8(w@)) is Some,
        0 <= i < q.items.len(),
        0 <= j < q.items[i].fields.len(),
        !is_numeric(q.items[i].fields[j].1),
        Action::AggregateWindow(w, f).stage(q, reduce, out),
    ensures
        out == Err::<QueryModel, QueryError>(QueryError::NonNumeric),
{
}

} // verus!
