//! The timestamp-ordered index of one series, and range selection.

use crate::entry::{models, Entry, EntryModel};
use vstd::prelude::*;

verus! {

/// Timestamps strictly increase along the sequence.
pub open spec fn ts_sorted(s: Seq<EntryModel>) -> bool {
    forall|i: int, j: int| 0 <= i < j < s.len() ==> s[i].timestamp < s[j].timestamp
}

pub open spec fn in_range(e: EntryModel, start: u64, end: u64) -> bool {
    start <= e.timestamp && e.timestamp <= end
}

/// The entries of `s` whose timestamp lies within `[start, end]`, in their order.
pub open spec fn range_of(s: Seq<EntryModel>, start: u64, end: u64) -> Seq<EntryModel>
    decreases s.len(),
{
    if s.len() == 0 {
        s
    } else {
        let r = range_of(s.drop_last(), start, end);
        if in_range(s.last(), start, end) {
            r.push(s.last())
        } else {
            r
        }
    }
}

/// The number of entries of a sorted sequence whose timestamp is below `t`.
pub open spec fn lower_bound(s: Seq<EntryModel>, t: u64) -> int
    decreases s.len(),
{
    if s.len() == 0 {
        0
    } else if s.last().timestamp < t {
        s.len() as int
    } else {
        lower_bound(s.drop_last(), t)
    }
}

/// `s` after a write of `e`: it replaces the entry with `e`'s timestamp, or goes in at the
/// place that keeps the timestamps in order.
pub open spec fn write_entry(s: Seq<EntryModel>, e: EntryModel) -> Seq<EntryModel> {
    let p = lower_bound(s, e.timestamp);
    if p < s.len() && s[p].timestamp == e.timestamp {
        s.update(p, e)
    } else {
        s.insert(p, e)
    }
}

pub proof fn lemma_lower_bound(s: Seq<EntryModel>, t: u64, i: int)
    requires
        ts_sorted(s),
        0 <= i <= s.len(),
        forall|j: int| 0 <= j < i ==> s[j].timestamp < t,
        i == s.len() || s[i].timestamp >= t,
    ensures
        lower_bound(s, t) == i,
    decreases s.len(),
{
    if s.len() > 0 {
        if i == s.len() {
        } else {
            lemma_lower_bound(s.drop_last(), t, i);
        }
    }
}

/// Range of a sequence none of whose entries is in range is empty.
proof fn lemma_range_none(s: Seq<EntryModel>, start: u64, end: u64)
    requires
        forall|j: int| 0 <= j < s.len() ==> !in_range(#[trigger] s[j], start, end),
    ensures
        range_of(s, start, end) == Seq::<EntryModel>::empty(),
    decreases s.len(),
{
    if s.len() > 0 {
        lemma_range_none(s.drop_last(), start, end);
    }
}

/// Entries past `i` that are out of range add nothing.
proof fn lemma_range_tail(s: Seq<EntryModel>, start: u64, end: u64, i: int)
    requires
        0 <= i <= s.len(),
        forall|j: int| i <= j < s.len() ==> !in_range(#[trigger] s[j], start, end),
    ensures
        range_of(s, start, end) == range_of(s.take(i), start, end),
    decreases s.len() - i,
{
    if i < s.len() {
        lemma_range_tail(s, start, end, i + 1);
        assert(s.take(i + 1).drop_last() == s.take(i));
    } else {
        assert(s.take(i) == s);
    }
}

pub proof fn lemma_models_push(v: Seq<Entry>, e: Entry)
    ensures
        models(v.push(e)) == models(v).push(e@),
{
    assert(models(v.push(e)) =~= models(v).push(e@));
}

/// The entries of `items` whose timestamp lies within `[start, end]`.
pub fn select_range(items: &Vec<Entry>, start: u64, end: u64) -> (r: Vec<Entry>)
    ensures
        models(r@) == range_of(models(items@), start, end),
{
    let ghost s = models(items@);
    let mut r: Vec<Entry> = Vec::new();
    let mut i: usize = 0;
    while i < items.len()
        invariant
            s == models(items@),
            i <= items@.len(),
            models(r@) == range_of(s.take(i as int), start, end),
        decreases items@.len() - i,
    {
        assert(s.take(i + 1).drop_last() == s.take(i as int));
        if start <= items[i].timestamp && items[i].timestamp <= end {
            proof {
                lemma_models_push(r@, items@[i as int]);
            }
            r.push(items[i].copy());
        }
        i = i + 1;
    }
    assert(s.take(i as int) == s);
    r
}

/// The entries of one series, ordered by timestamp, at most one per timestamp.
pub struct Indexes {
    main_index: Vec<Entry>,
}

impl View for Indexes {
    type V = Seq<EntryModel>;

    closed spec fn view(&self) -> Seq<EntryModel> {
        models(self.main_index@)
    }
}

impl Indexes {
    pub open spec fn wf(&self) -> bool {
        ts_sorted(self@)
    }

    /// An empty index.
    pub fn new() -> (r: Indexes)
        ensures
            r.wf(),
            r@ == Seq::<EntryModel>::empty(),
    {
        let r = Indexes { main_index: Vec::new() };
        assert(r@ =~= Seq::<EntryModel>::empty());
        r
    }

    /// The number of entries timestamped before `t`.
    fn position(&self, t: u64) -> (r: usize)
        requires
            self.wf(),
        ensures
            r == lower_bound(self@, t),
            r <= self@.len(),
            forall|j: int| 0 <= j < r ==> self@[j].timestamp < t,
            forall|j: int| r <= j < self@.len() ==> self@[j].timestamp >= t,
    {
        let mut lo: usize = 0;
        let mut hi: usize = self.main_index.len();
        while lo < hi
            invariant
                self.wf(),
                0 <= lo <= hi <= self@.len(),
                forall|j: int| 0 <= j < lo ==> self@[j].timestamp < t,
                forall|j: int| hi <= j < self@.len() ==> self@[j].timestamp >= t,
            decreases hi - lo,
        {
            let mid = lo + (hi - lo) / 2;
            assert(self@[mid as int] == self.main_index@[mid as int]@);
            if self.main_index[mid].timestamp < t {
                lo = mid + 1;
            } else {
                hi = mid;
            }
        }
        proof {
            lemma_lower_bound(self@, t, lo as int);
        }
        lo
    }

    /// Stores `entry` under its own timestamp, in place of any entry already there.
    pub fn insert(&mut self, entry: Entry)
        requires
            old(self).wf(),
        ensures
            final(self).wf(),
            final(self)@ == write_entry(old(self)@, entry@),
    {
        let ghost e = entry@;
        let p = self.position(entry.timestamp);
        if p < self.main_index.len() && self.main_index[p].timestamp == entry.timestamp {
            self.main_index.set(p, entry);
            assert(self@ =~= write_entry(old(self)@, e));
        } else {
            self.main_index.insert(p, entry);
            assert(self@ =~= write_entry(old(self)@, e));
        }
    }

    /// Copies of all the entries, in timestamp order.
    pub fn values(&self) -> (r: Vec<Entry>)
        ensures
            models(r@) == self@,
    {
        let mut r: Vec<Entry> = Vec::new();
        let mut i: usize = 0;
        while i < self.main_index.len()
            invariant
                i <= self@.len(),
                models(r@) == self@.take(i as int),
            decreases self@.len() - i,
        {
            proof {
                lemma_models_push(r@, self.main_index@[i as int]);
            }
            r.push(self.main_index[i].copy());
            assert(self@.take(i + 1) =~= self@.take(i as int).push(self@[i as int]));
            i = i + 1;
        }
        assert(self@.take(i as int) =~= self@);
        r
    }

    /// Copies of the entries timestamped within `[start, end]`, in timestamp order; the
    /// scan starts where the first such entry stands.
    pub fn range(&self, start: u64, end: u64) -> (r: Vec<Entry>)
        requires
            self.wf(),
        ensures
            models(r@) == range_of(self@, start, end),
    {
        let ghost s = self@;
        let p = self.position(start);
        proof {
            assert forall|j: int| 0 <= j < p implies !in_range(#[trigger] s.take(p as int)[j], start, end) by {
                lemma_lower_bound_below(s, start, j);
                assert(s.take(p as int)[j] == s[j]);
            }
            lemma_range_none(s.take(p as int), start, end);
        }
        let mut r: Vec<Entry> = Vec::new();
        let mut i: usize = p;
        while i < self.main_index.len() && self.main_index[i].timestamp <= end
            invariant
                s == self@,
                self.wf(),
                p <= i <= s.len(),
                p == lower_bound(s, start),
                models(r@) == range_of(s.take(i as int), start, end),
            decreases s.len() - i,
        {
            proof {
                lemma_lower_bound_above(s, start, i as int);
                assert(s.take(i + 1).drop_last() == s.take(i as int));
                lemma_models_push(r@, self.main_index@[i as int]);
            }
            r.push(self.main_index[i].copy());
            i = i + 1;
        }
        proof {
            if i < s.len() {
                assert forall|j: int| i <= j < s.len() implies !in_range(#[trigger] s[j], start, end) by {
                    assert(s[i as int].timestamp <= s[j].timestamp);
                }
            }
            lemma_range_tail(s, start, end, i as int);
        }
        r
    }
}

proof fn lemma_lower_bound_bounds(s: Seq<EntryModel>, t: u64)
    ensures
        0 <= lower_bound(s, t) <= s.len(),
    decreases s.len(),
{
    if s.len() > 0 {
        lemma_lower_bound_bounds(s.drop_last(), t);
    }
}

proof fn lemma_lower_bound_below(s: Seq<EntryModel>, t: u64, j: int)
    requires
        ts_sorted(s),
        0 <= j < lower_bound(s, t),
    ensures
        j < s.len(),
        s[j].timestamp < t,
    decreases s.len(),
{
    lemma_lower_bound_bounds(s, t);
    if s.len() > 0 && !(s.last().timestamp < t) {
        lemma_lower_bound_below(s.drop_last(), t, j);
        assert(s.drop_last()[j] == s[j]);
    } else if s.len() > 0 {
        assert(s[j].timestamp <= s[s.len() - 1].timestamp);
    }
}

proof fn lemma_lower_bound_above(s: Seq<EntryModel>, t: u64, j: int)
    requires
        ts_sorted(s),
        lower_bound(s, t) <= j < s.len(),
    ensures
        s[j].timestamp >= t,
    decreases s.len(),
{
    lemma_lower_bound_bounds(s, t);
    if s.last().timestamp < t {
    } else if j < s.len() - 1 {
        lemma_lower_bound_above(s.drop_last(), t, j);
        assert(s.drop_last()[j] == s[j]);
    }
}

/// No two entries share a timestamp.
pub open spec fn distinct_ts(es: Seq<EntryModel>) -> bool {
    forall|i: int, j: int| 0 <= i < j < es.len() ==> es[i].timestamp != es[j].timestamp
}

/// `s` after writing each of `es` in turn.
pub open spec fn write_all(s: Seq<EntryModel>, es: Seq<EntryModel>) -> Seq<EntryModel>
    decreases es.len(),
{
    if es.len() == 0 {
        s
    } else {
        write_entry(write_all(s, es.drop_last()), es.last())
    }
}

/// A write keeps the entries in timestamp order; afterwards the index holds `e` and the
/// entries it held at other timestamps, and gains an entry where none had `e`'s timestamp.
pub proof fn lemma_write_entry(s: Seq<EntryModel>, e: EntryModel)
    requires
        ts_sorted(s),
    ensures
        ts_sorted(write_entry(s, e)),
        forall|x: EntryModel|
            #[trigger] write_entry(s, e).contains(x) <==> (x == e || (s.contains(x) && x.timestamp
                != e.timestamp)),
        (exists|i: int| 0 <= i < s.len() && s[i].timestamp == e.timestamp) ==> write_entry(
            s,
            e,
        ).len() == s.len(),
        (forall|i: int| 0 <= i < s.len() ==> s[i].timestamp != e.timestamp) ==> write_entry(
            s,
            e,
        ).len() == s.len() + 1,
{
    let t = e.timestamp;
    let p = lower_bound(s, t);
    lemma_lower_bound_bounds(s, t);
    assert forall|j: int| 0 <= j < p implies s[j].timestamp < t by {
        lemma_lower_bound_below(s, t, j);
    }
    assert forall|j: int| p <= j < s.len() implies s[j].timestamp >= t by {
        lemma_lower_bound_above(s, t, j);
    }
    let w = write_entry(s, e);
    if p < s.len() && s[p].timestamp == t {
        assert forall|x: EntryModel| w.contains(x) <==> (x == e || (s.contains(x) && x.timestamp != t)) by {
            if w.contains(x) && x != e {
                let j = choose|j: int| 0 <= j < w.len() && w[j] == x;
                assert(j != p);
                assert(s[j] == x);
            }
            if s.contains(x) && x.timestamp != t {
                let j = choose|j: int| 0 <= j < s.len() && s[j] == x;
                assert(w[j] == x);
            }
            if x == e {
                assert(w[p] == e);
            }
        }
    } else {
        assert forall|j: int| p <= j < s.len() implies s[j].timestamp > t by {
            if j > p {
                assert(s[p].timestamp < s[j].timestamp);
            }
        }
        assert forall|x: EntryModel| w.contains(x) <==> (x == e || (s.contains(x) && x.timestamp != t)) by {
            if w.contains(x) && x != e {
                let j = choose|j: int| 0 <= j < w.len() && w[j] == x;
                if j < p {
                    assert(s[j] == x);
                } else {
                    assert(s[j - 1] == x);
                }
            }
            if s.contains(x) && x.timestamp != t {
                let j = choose|j: int| 0 <= j < s.len() && s[j] == x;
                if j < p {
                    assert(w[j] == x);
                } else {
                    assert(w[j + 1] == x);
                }
            }
            if x == e {
                assert(w[p] == e);
            }
        }
    }
}

/// Writing entries with distinct timestamps into an empty index leaves exactly those
/// entries in it, in timestamp order.
pub proof fn lemma_write_all_distinct(es: Seq<EntryModel>)
    requires
        distinct_ts(es),
    ensures
        ts_sorted(write_all(seq![], es)),
        write_all(seq![], es).len() == es.len(),
        forall|x: EntryModel| write_all(seq![], es).contains(x) <==> es.contains(x),
    decreases es.len(),
{
    if es.len() > 0 {
        let d = es.drop_last();
        let e = es.last();
        assert(distinct_ts(d));
        lemma_write_all_distinct(d);
        let w0 = write_all(seq![], d);
        lemma_write_entry(w0, e);
        assert forall|i: int| 0 <= i < w0.len() implies w0[i].timestamp != e.timestamp by {
            assert(w0.contains(w0[i]));
            assert(d.contains(w0[i]));
            let j = choose|j: int| 0 <= j < d.len() && d[j] == w0[i];
            assert(es[j] == d[j]);
        }
        assert forall|x: EntryModel| write_all(seq![], es).contains(x) <==> es.contains(x) by {
            if es.contains(x) && x != e {
                let j = choose|j: int| 0 <= j < es.len() && es[j] == x;
                assert(j < es.len() - 1);
                assert(d[j] == x);
                assert(x.timestamp != e.timestamp);
            }
            if d.contains(x) {
                let j = choose|j: int| 0 <= j < d.len() && d[j] == x;
                assert(es[j] == x);
            }
            if x == e {
                assert(es[es.len() - 1] == e);
            }
        }
    }
}

/// The entries in range are the entries of `s` within `[start, end]`; from a sequence in
/// timestamp order they come in timestamp order.
pub proof fn lemma_range_of(s: Seq<EntryModel>, start: u64, end: u64)
    ensures
        forall|x: EntryModel|
            #[trigger] range_of(s, start, end).contains(x) <==> (s.contains(x) && in_range(
                x,
                start,
                end,
            )),
        ts_sorted(s) ==> ts_sorted(range_of(s, start, end)),
    decreases s.len(),
{
    if s.len() > 0 {
        let d = s.drop_last();
        let l = s.last();
        lemma_range_of(d, start, end);
        let r0 = range_of(d, start, end);
        let r = range_of(s, start, end);
        assert forall|x: EntryModel| #[trigger] r.contains(x) <==> (s.contains(x) && in_range(x, start, end)) by {
            if r.contains(x) {
                let j = choose|j: int| 0 <= j < r.len() && r[j] == x;
                if j < r0.len() {
                    assert(r0[j] == x);
                    assert(r0.contains(x));
                    let k = choose|k: int| 0 <= k < d.len() && d[k] == x;
                    assert(s[k] == x);
                } else {
                    assert(x == l);
                    assert(s[s.len() - 1] == x);
                }
            }
            if s.contains(x) && in_range(x, start, end) {
                let k = choose|k: int| 0 <= k < s.len() && s[k] == x;
                if k < s.len() - 1 {
                    assert(d[k] == x);
                    assert(d.contains(x));
                    assert(r0.contains(x));
                    let j = choose|j: int| 0 <= j < r0.len() && r0[j] == x;
                    if in_range(l, start, end) {
                        assert(r[j] == x);
                    }
                } else {
                    assert(r[r.len() - 1] == x);
                }
            }
        }
        if ts_sorted(s) {
            assert(ts_sorted(d));
            assert forall|i: int| 0 <= i < r0.len() implies r0[i].timestamp < l.timestamp by {
                assert(r0.contains(r0[i]));
                assert(d.contains(r0[i]));
                let j = choose|j: int| 0 <= j < d.len() && d[j] == r0[i];
                assert(s[j] == d[j]);
            }
        }
    }
}

/// A range over entries written with distinct timestamps returns exactly those of them
/// timestamped within `[start, end]`, in strictly ascending timestamp order.
pub proof fn lemma_range_exact(es: Seq<EntryModel>, start: u64, end: u64)
    requires
        distinct_ts(es),
    ensures
        ts_sorted(range_of(write_all(seq![], es), start, end)),
        forall|x: EntryModel|
            range_of(write_all(seq![], es), start, end).contains(x) <==> (es.contains(x)
                && in_range(x, start, end)),
{
    lemma_write_all_distinct(es);
    lemma_range_of(write_all(seq![], es), start, end);
}

/// Of two writes at one timestamp, the second stands, and it is the only entry there.
pub proof fn lemma_overwrite(s: Seq<EntryModel>, e1: EntryModel, e2: EntryModel)
    requires
        ts_sorted(s),
        e1.timestamp == e2.timestamp,
    ensures
        write_entry(write_entry(s, e1), e2).contains(e2),
        forall|i: int|
            0 <= i < write_entry(write_entry(s, e1), e2).len() && (#[trigger] write_entry(
                write_entry(s, e1),
                e2,
            )[i]).timestamp == e2.timestamp ==> write_entry(write_entry(s, e1), e2)[i] == e2,
{
    lemma_write_entry(s, e1);
    let w1 = write_entry(s, e1);
    lemma_write_entry(w1, e2);
    let w2 = write_entry(w1, e2);
    assert(w2.contains(e2));
    assert forall|i: int| 0 <= i < w2.len() && (#[trigger] w2[i]).timestamp == e2.timestamp implies w2[i] == e2 by {
        assert(w2.contains(w2[i]));
    }
}

} // verus!
