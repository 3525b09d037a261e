//! Named series and the pipeline driver.

use crate::action::{response_model, start_model, Action};
use crate::aggregate::{
    all_numeric, has_fields, sort_by_ts, walk, window_seconds, AggregateFunction, QueryError,
};
use crate::entry::{models, Entry, EntryModel, Pairs};
use crate::entry::copy_pairs;
use crate::index::{write_entry, Indexes};
use crate::query::{QueryModel, QueryResponse};
use crate::value::Value;
use vstd::prelude::*;
use vstd::utf8::encode_utf8;

verus! {

/// `trace` records, stage by stage, the outcomes of the pipeline `actions` run on
/// `entries`: the first stage starts from all the entries, each later one takes the
/// response of the one before, and a failure passes on unchanged.
pub open spec fn trace_of<R: Fn(AggregateFunction, &Vec<Value>) -> Value>(
    actions: Seq<Action>,
    entries: Seq<EntryModel>,
    reduce: R,
    trace: Seq<Result<QueryModel, QueryError>>,
) -> bool {
    &&& trace.len() == actions.len()
    &&& actions.len() > 0 ==> actions[0].stage(start_model(entries), reduce, trace[0])
    &&& forall|i: int|
        1 <= i < actions.len() ==> match #[trigger] trace[i - 1] {
            Err(e) => trace[i] == Err::<QueryModel, QueryError>(e),
            Ok(q) => actions[i].stage(q, reduce, trace[i]),
        }
}

/// `out` is an outcome of the pipeline `actions` run on `entries`: the last entry of a
/// trace of the run. The first failure, where there is one, is the outcome.
pub open spec fn runs<R: Fn(AggregateFunction, &Vec<Value>) -> Value>(
    actions: Seq<Action>,
    entries: Seq<EntryModel>,
    reduce: R,
    out: Result<QueryModel, QueryError>,
) -> bool {
    exists|trace: Seq<Result<QueryModel, QueryError>>|
        #[trigger] trace_of(actions, entries, reduce, trace) && actions.len() > 0 && trace.last()
            == out
}

/// A named series: its entries, ordered by timestamp.
pub struct Measurement {
    pub name: String,
    pub indexes: Indexes,
}

impl Measurement {
    /// The series' entries, in timestamp order, one per timestamp.
    pub open spec fn entries(&self) -> Seq<EntryModel> {
        self.indexes@
    }

    pub open spec fn wf(&self) -> bool {
        self.indexes.wf()
    }

    /// An empty series named `name`.
    pub fn new(name: &str) -> (r: Measurement)
        ensures
            r.name@ == name@,
            r.wf(),
            r.entries() == Seq::<EntryModel>::empty(),
    {
        Measurement { name: name.to_owned(), indexes: Indexes::new() }
    }

    /// Records an entry at `timestamp`, in place of any entry already there.
    pub fn add_entry(&mut self, timestamp: u64, fields: &Pairs, tags: &Pairs)
        requires
            old(self).wf(),
        ensures
            final(self).wf(),
            final(self).name == old(self).name,
            final(self).entries() == write_entry(
                old(self).entries(),
                EntryModel { timestamp, fields: fields@, tags: tags@ },
            ),
    {
        let entry = Entry { timestamp, fields: copy_pairs(fields), tags: copy_pairs(tags) };
        self.indexes.insert(entry);
    }

    /// Copies of all the entries, in timestamp order.
    pub fn list_entries(&self) -> (r: Vec<Entry>)
        ensures
            models(r@) == self.entries(),
    {
        self.indexes.values()
    }

    /// Runs the pipeline `actions` on the series. An empty pipeline gives no response.
    pub fn apply<R: Fn(AggregateFunction, &Vec<Value>) -> Value>(
        &self,
        actions: &Vec<Action>,
        reduce: &R,
    ) -> (r: Result<Option<QueryResponse>, QueryError>)
        requires
            self.wf(),
            forall|f: AggregateFunction, v: Vec<Value>| call_requires(*reduce, (f, &v)),
        ensures
            actions@.len() == 0 ==> r == Ok::<Option<QueryResponse>, QueryError>(Option::None),
            actions@.len() > 0 ==> match r {
                Ok(Option::Some(q)) => runs(actions@, self.entries(), *reduce, Ok(q@)),
                Ok(Option::None) => false,
                Err(e) => runs(actions@, self.entries(), *reduce, Err(e)),
            },
    {
        if actions.len() == 0 {
            return Ok(Option::None);
        }
        let ghost acts = actions@;
        let ghost entries = self.entries();
        let mut query_response = match actions[0].init(&self.indexes, reduce) {
            Ok(q) => q,
            Err(e) => {
                proof {
                    let trace = Seq::new(acts.len(), |i: int| Err::<QueryModel, QueryError>(e));
                    assert(trace_of(acts, entries, *reduce, trace));
                }
                return Err(e);
            },
        };
        let ghost mut trace: Seq<Result<QueryModel, QueryError>> = seq![Ok(query_response@)];
        let mut i: usize = 1;
        while i < actions.len()
            invariant
                acts == actions@,
                entries == self.entries(),
                1 <= i <= acts.len(),
                trace_of(acts.take(i as int), entries, *reduce, trace),
                trace.last() == Ok::<QueryModel, QueryError>(query_response@),
                forall|f: AggregateFunction, v: Vec<Value>| call_requires(*reduce, (f, &v)),
            decreases acts.len() - i,
        {
            let ghost before = trace;
            match actions[i].evaluate(&query_response, reduce) {
                Ok(q) => {
                    query_response = q;
                    proof {
                        trace = trace.push(Ok(query_response@));
                        assert(trace_of(acts.take(i + 1), entries, *reduce, trace)) by {
                            assert forall|j: int| 1 <= j < i + 1 implies match #[trigger] trace[j - 1] {
                                Err(e) => trace[j] == Err::<QueryModel, QueryError>(e),
                                Ok(q) => acts.take(i + 1)[j].stage(q, *reduce, trace[j]),
                            } by {
                                if j < i {
                                    assert(trace[j - 1] == before[j - 1]);
                                    assert(trace[j] == before[j]);
                                    assert(acts.take(i as int)[j] == acts[j]);
                                }
                            }
                        }
                    }
                },
                Err(e) => {
                    proof {
                        let full = before + Seq::new(
                            (acts.len() - i) as nat,
                            |j: int| Err::<QueryModel, QueryError>(e),
                        );
                        assert(trace_of(acts, entries, *reduce, full)) by {
                            assert forall|j: int| 1 <= j < acts.len() implies match #[trigger] full[j - 1] {
                                Err(e2) => full[j] == Err::<QueryModel, QueryError>(e2),
                                Ok(q) => acts[j].stage(q, *reduce, full[j]),
                            } by {
                                if j < i {
                                    assert(full[j - 1] == before[j - 1]);
                                    assert(full[j] == before[j]);
                                    assert(acts.take(i as int)[j] == acts[j]);
                                }
                            }
                            assert(acts.take(i as int)[0] == acts[0]);
                        }
                        assert(full.last() == Err::<QueryModel, QueryError>(e));
                    }
                    return Err(e);
                },
            }
            i = i + 1;
        }
        assert(acts.take(i as int) == acts);
        Ok(Option::Some(query_response))
    }
}

/// Any stage run on a response without entries leaves it without entries, and succeeds.
proof fn lemma_stage_on_nothing<R: Fn(AggregateFunction, &Vec<Value>) -> Value>(
    a: Action,
    q: QueryModel,
    reduce: R,
    out: Result<QueryModel, QueryError>,
)
    requires
        q.items.len() == 0,
        a.stage(q, reduce, out),
    ensures
        out matches Ok(m) && m.items.len() == 0,
{
    match a {
        Action::Range(start, end) => {},
        Action::Filter(expr) => {},
        Action::AggregateWindow(w, f) => {
            assert(sort_by_ts(q.items) == q.items);
            assert(!has_fields(walk(q.items, 0).open));
        },
    }
}

/// A query on a series that holds no entries, such as one never written to, returns no
/// entries and does not fail.
pub proof fn lemma_query_on_nothing<R: Fn(AggregateFunction, &Vec<Value>) -> Value>(
    actions: Seq<Action>,
    reduce: R,
    out: Result<QueryModel, QueryError>,
)
    requires
        runs(actions, seq![], reduce, out),
    ensures
        out matches Ok(q) && q.items.len() == 0,
{
    let trace = choose|trace: Seq<Result<QueryModel, QueryError>>|
        #[trigger] trace_of(actions, seq![], reduce, trace) && actions.len() > 0 && trace.last()
            == out;
    lemma_trace_on_nothing(actions, reduce, trace, actions.len() - 1);
}

proof fn lemma_trace_on_nothing<R: Fn(AggregateFunction, &Vec<Value>) -> Value>(
    actions: Seq<Action>,
    reduce: R,
    trace: Seq<Result<QueryModel, QueryError>>,
    i: int,
)
    requires
        trace_of(actions, seq![], reduce, trace),
        0 <= i < actions.len(),
    ensures
        trace[i] matches Ok(q) && q.items.len() == 0,
    decreases i,
{
    if i == 0 {
        lemma_stage_on_nothing(actions[0], start_model(seq![]), reduce, trace[0]);
    } else {
        lemma_trace_on_nothing(actions, reduce, trace, i - 1);
        let q = trace[i - 1]->Ok_0;
        assert(match trace[i - 1] {
            Err(e) => trace[i] == Err::<QueryModel, QueryError>(e),
            Ok(q) => actions[i].stage(q, reduce, trace[i]),
        });
        lemma_stage_on_nothing(actions[i], q, reduce, trace[i]);
    }
}

proof fn lemma_failure_carries<R: Fn(AggregateFunction, &Vec<Value>) -> Value>(
    actions: Seq<Action>,
    entries: Seq<EntryModel>,
    reduce: R,
    trace: Seq<Result<QueryModel, QueryError>>,
    i: int,
    k: int,
    e: QueryError,
)
    requires
        trace_of(actions, entries, reduce, trace),
        0 <= i <= k < actions.len(),
        trace[i] == Err::<QueryModel, QueryError>(e),
    ensures
        trace[k] == Err::<QueryModel, QueryError>(e),
    decreases k - i,
{
    if i < k {
        assert(match trace[i + 1 - 1] {
            Err(e2) => trace[i + 1] == Err::<QueryModel, QueryError>(e2),
            Ok(q) => actions[i + 1].stage(q, reduce, trace[i + 1]),
        });
        lemma_failure_carries(actions, entries, reduce, trace, i + 1, k, e);
    }
}

/// A query whose first stage aggregates entries one of whose field values is not a number
/// fails as a whole, whatever stages follow.
pub proof fn lemma_non_numeric_query<R: Fn(AggregateFunction, &Vec<Value>) -> Value>(
    actions: Seq<Action>,
    entries: Seq<EntryModel>,
    reduce: R,
    out: Result<QueryModel, QueryError>,
)
    requires
        actions.len() > 0,
        actions[0] matches Action::AggregateWindow(w, f) && window_seconds(encode_utf8(w@)) is Some,
        !all_numeric(entries),
        runs(actions, entries, reduce, out),
    ensures
        out == Err::<QueryModel, QueryError>(QueryError::NonNumeric),
{
    let trace = choose|trace: Seq<Result<QueryModel, QueryError>>|
        #[trigger] trace_of(actions, entries, reduce, trace) && actions.len() > 0 && trace.last()
            == out;
    lemma_failure_carries(actions, entries, reduce, trace, 0, actions.len() - 1, QueryError::NonNumeric);
}

} // verus!
