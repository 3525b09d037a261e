//! The store of series by name.

use crate::action::{start_model, Action};
use crate::aggregate::{AggregateFunction, QueryError};
use crate::entry::{models, Entry, EntryModel};
use crate::index::{
    distinct_ts, in_range, lemma_range_exact, range_of, ts_sorted, write_all, write_entry,
};
use crate::measurement::{runs, Measurement};
use crate::query::{project, QueryModel};
use crate::value::Value;
use vstd::prelude::*;

verus! {

/// The entries of the series named `k` among `db`; none where no series has that name.
pub open spec fn series_of(db: Seq<Measurement>, k: Seq<char>) -> Seq<EntryModel>
    decreases db.len(),
{
    if db.len() == 0 {
        seq![]
    } else if db.last().name@ == k {
        db.last().entries()
    } else {
        series_of(db.drop_last(), k)
    }
}

pub open spec fn unique_names(db: Seq<Measurement>) -> bool {
    forall|i: int, j: int| 0 <= i < j < db.len() ==> db[i].name@ != db[j].name@
}

/// The entries a query returns for response `q`: its entries cut down to the names its
/// keep-lists give.
pub open spec fn materialized(q: QueryModel) -> Seq<EntryModel> {
    Seq::new(q.items.len(), |i: int| project(q.items[i], q.fields, q.tags))
}

proof fn lemma_series_at(db: Seq<Measurement>, i: int)
    requires
        unique_names(db),
        0 <= i < db.len(),
    ensures
        series_of(db, db[i].name@) == db[i].entries(),
    decreases db.len(),
{
    if i < db.len() - 1 {
        lemma_series_at(db.drop_last(), i);
        assert(db.drop_last()[i] == db[i]);
    }
}

proof fn lemma_series_absent(db: Seq<Measurement>, k: Seq<char>)
    requires
        forall|j: int| 0 <= j < db.len() ==> (#[trigger] db[j]).name@ != k,
    ensures
        series_of(db, k) == Seq::<EntryModel>::empty(),
    decreases db.len(),
{
    if db.len() > 0 {
        lemma_series_absent(db.drop_last(), k);
    }
}

/// Replacing the series at `i` by one of the same name changes that name's entries only.
proof fn lemma_series_update(db: Seq<Measurement>, i: int, m: Measurement, k: Seq<char>)
    requires
        unique_names(db),
        0 <= i < db.len(),
        m.name@ == db[i].name@,
    ensures
        unique_names(db.update(i, m)),
        series_of(db.update(i, m), k) == if k == m.name@ {
            m.entries()
        } else {
            series_of(db, k)
        },
{
    let d2 = db.update(i, m);
    assert(unique_names(d2));
    if k == m.name@ {
        lemma_series_at(d2, i);
    } else if exists|j: int| 0 <= j < db.len() && (#[trigger] db[j]).name@ == k {
        let j = choose|j: int| 0 <= j < db.len() && (#[trigger] db[j]).name@ == k;
        lemma_series_at(db, j);
        lemma_series_at(d2, j);
    } else {
        lemma_series_absent(db, k);
        assert forall|j: int| 0 <= j < d2.len() implies (#[trigger] d2[j]).name@ != k by {
            if j != i {
                assert(d2[j] == db[j]);
            }
        }
        lemma_series_absent(d2, k);
    }
}

/// The store: one series per name, each created when its name is first used.
pub struct TimeDb {
    db: Vec<Measurement>,
}

impl TimeDb {
    pub closed spec fn wf(&self) -> bool {
        &&& unique_names(self.db@)
        &&& forall|i: int| 0 <= i < self.db@.len() ==> (#[trigger] self.db@[i]).wf()
    }

    /// The entries of the series named `k`, in timestamp order; none where the store has
    /// no such series.
    pub closed spec fn series(&self, k: Seq<char>) -> Seq<EntryModel> {
        series_of(self.db@, k)
    }

    /// An empty store.
    pub fn new() -> (r: TimeDb)
        ensures
            r.wf(),
            forall|k: Seq<char>| r.series(k) == Seq::<EntryModel>::empty(),
    {
        TimeDb { db: Vec::new() }
    }

    /// The series named `name`, created empty where there is none yet. Once the caller is
    /// done with it, the store holds it under that name, provided it kept its name and
    /// order; the other series are as they were.
    pub fn get_measurement(&mut self, name: &str) -> (r: &mut Measurement)
        requires
            old(self).wf(),
        ensures
            r.name@ == name@,
            r.wf(),
            r.entries() == old(self).series(name@),
            final(r).name@ == name@ && final(r).wf() ==> {
                &&& final(self).wf()
                &&& final(self).series(name@) == final(r).entries()
                &&& forall|k: Seq<char>| k != name@ ==> final(self).series(k) == old(self).series(k)
            },
    {
        let key = name.to_owned();
        let mut i: usize = 0;
        while i < self.db.len() && !self.db[i].name.eq(&key)
            invariant
                i <= self.db@.len(),
                forall|j: int| 0 <= j < i ==> (#[trigger] self.db@[j]).name@ != key@,
            decreases self.db@.len() - i,
        {
            i = i + 1;
        }
        if i == self.db.len() {
            proof {
                lemma_series_absent(self.db@, key@);
            }
            self.db.push(Measurement::new(name));
        } else {
            proof {
                lemma_series_at(self.db@, i as int);
            }
        }
        let ghost mid = self.db@;
        proof {
            assert(mid[i as int].name@ == name@);
            assert(unique_names(mid));
            assert forall|k: Seq<char>| k != name@ implies series_of(mid, k) == old(self).series(k) by {
                if i == old(self).db@.len() {
                    assert(mid.drop_last() == old(self).db@);
                }
            }
            lemma_series_at(mid, i as int);
            assert forall|k: Seq<char>, m: Measurement| m.name@ == name@ implies #[trigger] series_of(mid.update(i as int, m), k) == if k == name@ {
                m.entries()
            } else {
                series_of(mid, k)
            } && unique_names(mid.update(i as int, m)) by {
                lemma_series_update(mid, i as int, m, k);
            }
        }
        &mut self.db[i]
    }

    /// Records `entry` in the series named `measurement`, under the entry's own timestamp.
    pub fn insert(&mut self, measurement: &str, entry: Entry)
        requires
            old(self).wf(),
        ensures
            final(self).wf(),
            final(self).series(measurement@) == write_entry(old(self).series(measurement@), entry@),
            forall|k: Seq<char>| k != measurement@ ==> final(self).series(k) == old(self).series(k),
    {
        let m = self.get_measurement(measurement);
        m.add_entry(entry.timestamp, &entry.fields, &entry.tags);
    }

    /// Records each of `entries`, in order, in the series named `measurement`.
    pub fn insert_bulk(&mut self, measurement: &str, entries: Vec<Entry>)
        requires
            old(self).wf(),
        ensures
            final(self).wf(),
            final(self).series(measurement@) == write_all(
                old(self).series(measurement@),
                models(entries@),
            ),
            forall|k: Seq<char>| k != measurement@ ==> final(self).series(k) == old(self).series(k),
    {
        let ghost es = models(entries@);
        let mut i: usize = 0;
        assert(es.take(0) =~= Seq::<EntryModel>::empty());
        while i < entries.len()
            invariant
                es == models(entries@),
                i <= es.len(),
                self.wf(),
                self.series(measurement@) == write_all(old(self).series(measurement@), es.take(i as int)),
                forall|k: Seq<char>| k != measurement@ ==> self.series(k) == old(self).series(k),
            decreases es.len() - i,
        {
            assert(es.take(i + 1).drop_last() == es.take(i as int));
            let m = self.get_measurement(measurement);
            m.add_entry(entries[i].timestamp, &entries[i].fields, &entries[i].tags);
            i = i + 1;
        }
        assert(es.take(i as int) == es);
    }

    /// Runs the pipeline `actions` on the series named `measurement` and returns its
    /// entries cut down to the names the pipeline keeps. An unknown name is an empty
    /// series; an empty pipeline fails with `NoResult`.
    pub fn run_query<R: Fn(AggregateFunction, &Vec<Value>) -> Value>(
        &mut self,
        measurement: &str,
        actions: &Vec<Action>,
        reduce: &R,
    ) -> (r: Result<Vec<Entry>, QueryError>)
        requires
            old(self).wf(),
            forall|f: AggregateFunction, v: Vec<Value>| call_requires(*reduce, (f, &v)),
        ensures
            final(self).wf(),
            forall|k: Seq<char>| final(self).series(k) == old(self).series(k),
            actions@.len() == 0 ==> r == Err::<Vec<Entry>, QueryError>(QueryError::NoResult),
            actions@.len() > 0 ==> match r {
                Ok(v) => exists|q: QueryModel|
                    runs(actions@, old(self).series(measurement@), *reduce, Ok(q)) && models(v@)
                        == #[trigger] materialized(q),
                Err(e) => runs(actions@, old(self).series(measurement@), *reduce, Err(e)),
            },
    {
        let m = self.get_measurement(measurement);
        match m.apply(actions, reduce) {
            Ok(Option::Some(q)) => {
                let v = q.eval();
                assert(models(v@) =~= materialized(q@));
                Ok(v)
            },
            Ok(Option::None) => Err(QueryError::NoResult),
            Err(e) => Err(e),
        }
    }
}

proof fn lemma_range_everything(s: Seq<EntryModel>)
    ensures
        range_of(s, 0, u64::MAX) == s,
    decreases s.len(),
{
    if s.len() > 0 {
        lemma_range_everything(s.drop_last());
    }
}

/// With nothing declared to keep, a query returns its entries as they are.
proof fn lemma_materialized_plain(q: QueryModel)
    requires
        q.fields.len() == 0,
        q.tags.len() == 0,
    ensures
        materialized(q) == q.items,
{
    assert(materialized(q) =~= q.items);
}

/// A range query over entries written with distinct timestamps returns exactly those of
/// them timestamped within `[start, end]`, unchanged and in strictly ascending timestamp
/// order.
pub proof fn lemma_range_query<R: Fn(AggregateFunction, &Vec<Value>) -> Value>(
    es: Seq<EntryModel>,
    start: u64,
    end: u64,
    reduce: R,
    out: Result<QueryModel, QueryError>,
)
    requires
        distinct_ts(es),
        runs(seq![Action::Range(start, Option::Some(end))], write_all(seq![], es), reduce, out),
    ensures
        out matches Ok(q) && {
            &&& materialized(q) == q.items
            &&& ts_sorted(q.items)
            &&& forall|x: EntryModel| q.items.contains(x) <==> (es.contains(x) && in_range(x, start, end))
        },
{
    lemma_range_exact(es, start, end);
    let q = start_model(write_all(seq![], es));
    assert(out == Ok::<QueryModel, QueryError>(QueryModel { items: range_of(q.items, start, end), ..q }));
    lemma_materialized_plain(QueryModel { items: range_of(q.items, start, end), ..q });
}

/// Entries written with distinct timestamps and read back with a range over all time come
/// back complete, each exactly as written.
pub proof fn lemma_round_trip<R: Fn(AggregateFunction, &Vec<Value>) -> Value>(
    es: Seq<EntryModel>,
    reduce: R,
    out: Result<QueryModel, QueryError>,
)
    requires
        distinct_ts(es),
        runs(seq![Action::Range(0, Option::Some(u64::MAX))], write_all(seq![], es), reduce, out),
    ensures
        out matches Ok(q) && {
            &&& materialized(q).len() == es.len()
            &&& forall|x: EntryModel| materialized(q).contains(x) <==> es.contains(x)
        },
{
    lemma_range_query(es, 0, u64::MAX, reduce, out);
    crate::index::lemma_write_all_distinct(es);
    lemma_range_everything(write_all(seq![], es));
}

} // verus!
