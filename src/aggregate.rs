//! Window aggregation: window lengths, ordering by timestamp, cutting into windows and
//! grouping field values per window.

use crate::entry::{models, Entry, EntryModel, Pairs};
use crate::index::lemma_models_push;
use crate::query::{contains_name, has_name};
use crate::value::{is_numeric, Value};
use vstd::prelude::*;
use vstd::string::StringSliceAdditionalSpecFns;

verus! {

/// How the values of one field within one window are reduced to a single value.
#[derive(Debug, Clone, Copy, PartialEq, Eq)]
pub enum AggregateFunction {
    Mean,
    Max,
    Min,
    Sum,
}

/// Why a query failed.
#[derive(Debug, Clone, Copy, PartialEq, Eq)]
pub enum QueryError {
    /// A field to be aggregated held a value that is not a number.
    NonNumeric,
    /// The pipeline had no stage, so it produced no result.
    NoResult,
}

// ---- window sizes -------------------------------------------------------------------

pub open spec fn is_digit(b: u8) -> bool {
    48 <= b <= 57
}

/// The number that a string of decimal digits denotes.
pub open spec fn decimal(b: Seq<u8>) -> nat
    decreases b.len(),
{
    if b.len() == 0 {
        0
    } else {
        decimal(b.drop_last()) * 10 + (b.last() - 48) as nat
    }
}

/// Seconds in the unit that a letter names: `s`, `m`, `h` or `d`.
pub open spec fn unit_seconds(b: u8) -> Option<nat> {
    if b == 115 {
        Option::Some(1)
    } else if b == 109 {
        Option::Some(60)
    } else if b == 104 {
        Option::Some(3600)
    } else if b == 100 {
        Option::Some(86400)
    } else {
        Option::None
    }
}

/// The window length, in seconds, that a window string such as `15m` gives: one or more
/// decimal digits, then a unit. Any other text, and a length beyond `u64`, gives none.
pub open spec fn window_seconds(b: Seq<u8>) -> Option<u64> {
    if b.len() < 2 {
        Option::None
    } else {
        let digits = b.drop_last();
        if !(forall|i: int| 0 <= i < digits.len() ==> is_digit(#[trigger] digits[i])) {
            Option::None
        } else {
            match unit_seconds(b.last()) {
                Option::None => Option::None,
                Option::Some(u) => if decimal(digits) * u <= u64::MAX {
                    Option::Some((decimal(digits) * u) as u64)
                } else {
                    Option::None
                },
            }
        }
    }
}

proof fn lemma_decimal_grows(b: Seq<u8>, k: int)
    requires
        0 <= k <= b.len(),
        forall|i: int| 0 <= i < b.len() ==> is_digit(#[trigger] b[i]),
    ensures
        decimal(b.take(k)) <= decimal(b),
    decreases b.len() - k,
{
    if k < b.len() {
        lemma_decimal_grows(b, k + 1);
        assert(b.take(k + 1).drop_last() == b.take(k));
    } else {
        assert(b.take(k) == b);
    }
}

/// The window length that `text` gives, in seconds.
pub fn parse_window_size(text: &str) -> (r: Option<u64>)
    ensures
        r == window_seconds(text.spec_bytes()),
{
    let b = text.as_bytes();
    let ghost s = b@;
    let n = b.len();
    if n < 2 {
        return Option::None;
    }
    let unit: u64 = if b[n - 1] == 115 {
        1
    } else if b[n - 1] == 109 {
        60
    } else if b[n - 1] == 104 {
        3600
    } else if b[n - 1] == 100 {
        86400
    } else {
        return Option::None;
    };
    let ghost digits = s.drop_last();
    assert(s.last() == b[n - 1]);
    let mut num: u64 = 0;
    let mut i: usize = 0;
    while i < n - 1
        invariant
            s == b@,
            s == text.spec_bytes(),
            n == s.len(),
            n >= 2,
            digits == s.drop_last(),
            unit_seconds(s.last()) == Option::Some(unit as nat),
            i <= n - 1,
            forall|j: int| 0 <= j < i ==> is_digit(#[trigger] digits[j]),
            num == decimal(digits.take(i as int)),
        decreases n - 1 - i,
    {
        let c = b[i];
        assert(digits[i as int] == c);
        if c < 48 || c > 57 {
            assert(!is_digit(digits[i as int]));
            return Option::None;
        }
        assert(digits.take(i + 1).drop_last() == digits.take(i as int));
        let d = (c - 48) as u64;
        assert(decimal(digits.take(i + 1)) == num * 10 + d);
        if num > (u64::MAX - d) / 10 {
            proof {
                assert(num * 10 + d > u64::MAX) by (nonlinear_arith)
                    requires num > (u64::MAX - d) / 10, d <= 9;
                if forall|j: int| 0 <= j < digits.len() ==> is_digit(#[trigger] digits[j]) {
                    lemma_decimal_grows(digits, i + 1);
                    let u = unit_seconds(s.last()).unwrap();
                    assert(decimal(digits) * u >= decimal(digits)) by (nonlinear_arith)
                        requires u >= 1;
                }
            }
            return Option::None;
        }
        num = num * 10 + d;
        i = i + 1;
    }
    assert(digits.take(i as int) == digits);
    if num > u64::MAX / unit {
        return Option::None;
    }
    Option::Some(num * unit)
}

// ---- ordering by timestamp ----------------------------------------------------------

/// `s` with `e` placed after every entry whose timestamp is not above `e`'s.
pub open spec fn insert_by_ts(s: Seq<EntryModel>, e: EntryModel) -> Seq<EntryModel>
    decreases s.len(),
{
    if s.len() == 0 || s.last().timestamp <= e.timestamp {
        s.push(e)
    } else {
        insert_by_ts(s.drop_last(), e).push(s.last())
    }
}

/// `s` ordered by timestamp; entries with equal timestamps keep their order.
pub open spec fn sort_by_ts(s: Seq<EntryModel>) -> Seq<EntryModel>
    decreases s.len(),
{
    if s.len() == 0 {
        s
    } else {
        insert_by_ts(sort_by_ts(s.drop_last()), s.last())
    }
}

proof fn lemma_insert_by_ts(s: Seq<EntryModel>, e: EntryModel, p: int)
    requires
        0 <= p <= s.len(),
        forall|j: int| p <= j < s.len() ==> (#[trigger] s[j]).timestamp > e.timestamp,
        p == 0 || s[p - 1].timestamp <= e.timestamp,
    ensures
        insert_by_ts(s, e) == s.insert(p, e),
    decreases s.len(),
{
    if p == s.len() {
        assert(s.insert(p, e) =~= s.push(e));
    } else {
        let t = s.drop_last();
        assert forall|j: int| p <= j < t.len() implies (#[trigger] t[j]).timestamp > e.timestamp by {
            assert(t[j] == s[j]);
        }
        lemma_insert_by_ts(t, e, p);
        assert(s.insert(p, e) =~= t.insert(p, e).push(s.last()));
    }
}

/// Copies of `entries`, ordered by timestamp; equal timestamps keep their order.
pub fn sorted_by_timestamp(entries: &Vec<Entry>) -> (r: Vec<Entry>)
    ensures
        models(r@) == sort_by_ts(models(entries@)),
{
    let ghost s = models(entries@);
    let mut r: Vec<Entry> = Vec::new();
    let mut i: usize = 0;
    while i < entries.len()
        invariant
            s == models(entries@),
            i <= entries@.len(),
            models(r@) == sort_by_ts(s.take(i as int)),
        decreases entries@.len() - i,
    {
        let e = entries[i].copy();
        let mut p = r.len();
        while p > 0 && r[p - 1].timestamp > e.timestamp
            invariant
                p <= r@.len(),
                forall|j: int| p <= j < r@.len() ==> (#[trigger] r@[j]).timestamp > e.timestamp,
            decreases p,
        {
            p = p - 1;
        }
        proof {
            let m = models(r@);
            assert forall|j: int| p <= j < m.len() implies (#[trigger] m[j]).timestamp > e@.timestamp by {
                assert(m[j] == r@[j]@);
            }
            if p > 0 {
                assert(m[p - 1] == r@[p - 1]@);
            }
            lemma_insert_by_ts(m, e@, p as int);
            assert(s.take(i + 1).drop_last() == s.take(i as int));
            assert(s[i as int] == e@);
        }
        let ghost before = r@;
        r.insert(p, e);
        assert(models(r@) =~= models(before).insert(p as int, e@));
        i = i + 1;
    }
    assert(s.take(i as int) == s);
    r
}

// ---- windows ------------------------------------------------------------------------

/// Where a walk through timestamp-ordered entries stands: the windows closed so far (each
/// its start and its entries), the start of the open window, and the open window's
/// entries.
pub struct WindowWalk {
    pub closed: Seq<(u64, Seq<EntryModel>)>,
    pub start: Option<u64>,
    pub open: Seq<EntryModel>,
}

/// The walk one entry further. The open window starts at the first entry that falls into
/// it; an entry at or beyond its start plus `size` closes it and opens the next one.
pub open spec fn walk_step(w: WindowWalk, e: EntryModel, size: u64) -> WindowWalk {
    let start: u64 = match w.start {
        Option::Some(t) => t,
        Option::None => e.timestamp,
    };
    if e.timestamp >= start + size {
        WindowWalk {
            closed: w.closed.push((start, w.open)),
            start: Option::Some(e.timestamp),
            open: seq![e],
        }
    } else {
        WindowWalk { closed: w.closed, start: Option::Some(start), open: w.open.push(e) }
    }
}

pub open spec fn walk(s: Seq<EntryModel>, size: u64) -> WindowWalk
    decreases s.len(),
{
    if s.len() == 0 {
        WindowWalk { closed: seq![], start: Option::None, open: seq![] }
    } else {
        walk_step(walk(s.drop_last(), size), s.last(), size)
    }
}

pub open spec fn has_fields(es: Seq<EntryModel>) -> bool {
    exists|i: int| 0 <= i < es.len() && (#[trigger] es[i]).fields.len() > 0
}

/// The windows of timestamp-ordered entries: those the walk closed, and the last open one
/// where its entries have a field.
pub open spec fn windows(s: Seq<EntryModel>, size: u64) -> Seq<(u64, Seq<EntryModel>)> {
    let w = walk(s, size);
    if has_fields(w.open) {
        w.closed.push((w.start.unwrap(), w.open))
    } else {
        w.closed
    }
}

// ---- fields of a window -------------------------------------------------------------

/// `acc` followed by the names of `pairs` that it lacks, each once, in order.
pub open spec fn names_in(pairs: Seq<(String, Value)>, acc: Seq<String>) -> Seq<String>
    decreases pairs.len(),
{
    if pairs.len() == 0 {
        acc
    } else {
        let a = names_in(pairs.drop_last(), acc);
        if has_name(a, pairs.last().0@) {
            a
        } else {
            a.push(pairs.last().0)
        }
    }
}

/// The field names of the entries, each once, in order of first appearance.
pub open spec fn field_names(es: Seq<EntryModel>) -> Seq<String>
    decreases es.len(),
{
    if es.len() == 0 {
        seq![]
    } else {
        names_in(es.last().fields, field_names(es.drop_last()))
    }
}

/// The values of `pairs` under name `k`, in order.
pub open spec fn values_of(pairs: Seq<(String, Value)>, k: Seq<char>) -> Seq<Value>
    decreases pairs.len(),
{
    if pairs.len() == 0 {
        seq![]
    } else if pairs.last().0@ == k {
        values_of(pairs.drop_last(), k).push(pairs.last().1)
    } else {
        values_of(pairs.drop_last(), k)
    }
}

/// The values of field `k` across the entries, in order.
pub open spec fn field_values(es: Seq<EntryModel>, k: Seq<char>) -> Seq<Value>
    decreases es.len(),
{
    if es.len() == 0 {
        seq![]
    } else {
        field_values(es.drop_last(), k) + values_of(es.last().fields, k)
    }
}

/// Every field value of every entry is a number.
pub open spec fn all_numeric(es: Seq<EntryModel>) -> bool {
    forall|i: int, j: int|
        0 <= i < es.len() && 0 <= j < es[i].fields.len() ==> is_numeric(
            #[trigger] es[i].fields[j].1,
        )
}

/// `f` is the field `name` of a window of entries `es`: it holds what `reduce` gave for
/// that field's values.
pub open spec fn reduced_field<R: Fn(AggregateFunction, &Vec<Value>) -> Value>(
    reduce: R,
    func: AggregateFunction,
    es: Seq<EntryModel>,
    name: String,
    f: (String, Value),
) -> bool {
    f.0 == name && exists|vals: Vec<Value>|
        vals@ == field_values(es, name@) && #[trigger] call_ensures(reduce, (func, &vals), f.1)
}

/// `out` is the entry that stands for window `w`: stamped with the window's start, without
/// tags, and with one field per field name of the window, in order, each holding what
/// `reduce` gave for that field's values.
pub open spec fn window_entry<R: Fn(AggregateFunction, &Vec<Value>) -> Value>(
    reduce: R,
    func: AggregateFunction,
    w: (u64, Seq<EntryModel>),
    out: EntryModel,
) -> bool {
    let names = field_names(w.1);
    &&& out.timestamp == w.0
    &&& out.tags.len() == 0
    &&& out.fields.len() == names.len()
    &&& forall|j: int|
        0 <= j < names.len() ==> reduced_field(reduce, func, w.1, names[j], #[trigger] out.fields[j])
}

/// `out` holds one entry per window, each standing for its window.
pub open spec fn window_entries<R: Fn(AggregateFunction, &Vec<Value>) -> Value>(
    reduce: R,
    func: AggregateFunction,
    ws: Seq<(u64, Seq<EntryModel>)>,
    out: Seq<EntryModel>,
) -> bool {
    &&& out.len() == ws.len()
    &&& forall|k: int| 0 <= k < ws.len() ==> window_entry(reduce, func, #[trigger] ws[k], out[k])
}

/// Whether every field value of every entry is a number.
pub fn all_fields_numeric(entries: &Vec<Entry>) -> (r: bool)
    ensures
        r == all_numeric(models(entries@)),
{
    let ghost ms = models(entries@);
    let mut i: usize = 0;
    while i < entries.len()
        invariant
            ms == models(entries@),
            i <= ms.len(),
            forall|a: int, j: int|
                0 <= a < i && 0 <= j < ms[a].fields.len() ==> is_numeric(
                    #[trigger] ms[a].fields[j].1,
                ),
        decreases ms.len() - i,
    {
        let fields = &entries[i].fields;
        assert(ms[i as int].fields == fields@);
        let mut j: usize = 0;
        while j < fields.len()
            invariant
                ms == models(entries@),
                i < ms.len(),
                ms[i as int].fields == fields@,
                j <= fields@.len(),
                forall|a: int, jj: int|
                    0 <= a < i && 0 <= jj < ms[a].fields.len() ==> is_numeric(
                        #[trigger] ms[a].fields[jj].1,
                    ),
                forall|jj: int| 0 <= jj < j ==> is_numeric(#[trigger] ms[i as int].fields[jj].1),
            decreases fields@.len() - j,
        {
            if !fields[j].1.is_numeric() {
                return false;
            }
            j = j + 1;
        }
        i = i + 1;
    }
    true
}

/// The field names of the entries `b..e` of `sorted`.
fn window_field_names(sorted: &Vec<Entry>, b: usize, e: usize) -> (r: Vec<String>)
    requires
        b <= e <= sorted@.len(),
    ensures
        r@ == field_names(models(sorted@).subrange(b as int, e as int)),
{
    let ghost ms = models(sorted@);
    let mut names: Vec<String> = Vec::new();
    let mut k: usize = b;
    assert(ms.subrange(b as int, b as int) =~= Seq::<EntryModel>::empty());
    while k < e
        invariant
            ms == models(sorted@),
            b <= k <= e <= ms.len(),
            names@ == field_names(ms.subrange(b as int, k as int)),
        decreases e - k,
    {
        let fields: &Pairs = &sorted[k].fields;
        let ghost base = names@;
        assert(ms.subrange(b as int, k + 1).drop_last() == ms.subrange(b as int, k as int));
        assert(ms.subrange(b as int, k + 1).last() == ms[k as int]);
        assert(ms[k as int].fields == fields@);
        let mut j: usize = 0;
        while j < fields.len()
            invariant
                j <= fields@.len(),
                names@ == names_in(fields@.take(j as int), base),
            decreases fields@.len() - j,
        {
            assert(fields@.take(j + 1).drop_last() == fields@.take(j as int));
            if !contains_name(&names, &fields[j].0) {
                names.push(fields[j].0.clone());
            }
            j = j + 1;
        }
        assert(fields@.take(j as int) == fields@);
        k = k + 1;
    }
    names
}

/// The values of field `name` across the entries `b..e` of `sorted`.
fn window_field_values(sorted: &Vec<Entry>, b: usize, e: usize, name: &String) -> (r: Vec<Value>)
    requires
        b <= e <= sorted@.len(),
    ensures
        r@ == field_values(models(sorted@).subrange(b as int, e as int), name@),
{
    let ghost ms = models(sorted@);
    let mut vals: Vec<Value> = Vec::new();
    let mut k: usize = b;
    assert(ms.subrange(b as int, b as int) =~= Seq::<EntryModel>::empty());
    while k < e
        invariant
            ms == models(sorted@),
            b <= k <= e <= ms.len(),
            vals@ == field_values(ms.subrange(b as int, k as int), name@),
        decreases e - k,
    {
        let fields: &Pairs = &sorted[k].fields;
        let ghost base = vals@;
        assert(ms.subrange(b as int, k + 1).drop_last() == ms.subrange(b as int, k as int));
        assert(ms.subrange(b as int, k + 1).last() == ms[k as int]);
        assert(ms[k as int].fields == fields@);
        let mut j: usize = 0;
        assert(base + values_of(fields@.take(0), name@) =~= base);
        while j < fields.len()
            invariant
                j <= fields@.len(),
                vals@ == base + values_of(fields@.take(j as int), name@),
            decreases fields@.len() - j,
        {
            assert(fields@.take(j + 1).drop_last() == fields@.take(j as int));
            if fields[j].0.eq(name) {
                vals.push(fields[j].1.copy());
                assert(vals@ =~= base + values_of(fields@.take(j + 1), name@));
            }
            j = j + 1;
        }
        assert(fields@.take(j as int) == fields@);
        k = k + 1;
    }
    vals
}

/// The entry that stands for the window of entries `b..e` of `sorted`, opened at `start`.
fn window_entry_of<R: Fn(AggregateFunction, &Vec<Value>) -> Value>(
    sorted: &Vec<Entry>,
    b: usize,
    e: usize,
    start: u64,
    func: AggregateFunction,
    reduce: &R,
) -> (r: Entry)
    requires
        b <= e <= sorted@.len(),
        forall|f: AggregateFunction, v: Vec<Value>| call_requires(*reduce, (f, &v)),
    ensures
        window_entry(*reduce, func, (start, models(sorted@).subrange(b as int, e as int)), r@),
{
    let ghost es = models(sorted@).subrange(b as int, e as int);
    let names = window_field_names(sorted, b, e);
    let mut fields: Pairs = Vec::new();
    let mut j: usize = 0;
    while j < names.len()
        invariant
            b <= e <= sorted@.len(),
            es == models(sorted@).subrange(b as int, e as int),
            names@ == field_names(es),
            j <= names@.len(),
            fields@.len() == j,
            forall|jj: int|
                0 <= jj < j ==> reduced_field(*reduce, func, es, names@[jj], #[trigger] fields@[jj]),
            forall|f: AggregateFunction, v: Vec<Value>| call_requires(*reduce, (f, &v)),
        decreases names@.len() - j,
    {
        let vals = window_field_values(sorted, b, e, &names[j]);
        let v = reduce(func, &vals);
        let ghost before = fields@;
        fields.push((names[j].clone(), v));
        proof {
            assert(call_ensures(*reduce, (func, &vals), fields@[j as int].1));
            assert(reduced_field(*reduce, func, es, names@[j as int], fields@[j as int]));
            assert forall|jj: int| 0 <= jj < j + 1 implies reduced_field(
                *reduce,
                func,
                es,
                names@[jj],
                #[trigger] fields@[jj],
            ) by {
                if jj < j {
                    assert(fields@[jj] == before[jj]);
                }
            }
        }
        j = j + 1;
    }
    Entry { timestamp: start, fields, tags: Vec::new() }
}

/// Whether one of the entries `b..e` of `sorted` has a field.
fn window_has_fields(sorted: &Vec<Entry>, b: usize, e: usize) -> (r: bool)
    requires
        b <= e <= sorted@.len(),
    ensures
        r == has_fields(models(sorted@).subrange(b as int, e as int)),
{
    let ghost es = models(sorted@).subrange(b as int, e as int);
    let mut k: usize = b;
    while k < e
        invariant
            b <= k <= e <= sorted@.len(),
            es == models(sorted@).subrange(b as int, e as int),
            forall|a: int| 0 <= a < k - b ==> (#[trigger] es[a]).fields.len() == 0,
        decreases e - k,
    {
        assert(es[k - b] == sorted@[k as int]@);
        if sorted[k].fields.len() > 0 {
            return true;
        }
        k = k + 1;
    }
    false
}

/// The entries reduced window by window: ordered by timestamp, cut into windows of the
/// length that `window_size_str` gives, and each window replaced by one entry that holds,
/// per field, what `reduce` makes of that field's values. An unreadable window length
/// gives no entries; a field value that is not a number fails the whole call.
pub fn aggregate_entries<R: Fn(AggregateFunction, &Vec<Value>) -> Value>(
    entries: &Vec<Entry>,
    window_size_str: &str,
    aggregate_function: &AggregateFunction,
    reduce: &R,
) -> (r: Result<Vec<Entry>, QueryError>)
    requires
        forall|f: AggregateFunction, v: Vec<Value>| call_requires(*reduce, (f, &v)),
    ensures
        match window_seconds(window_size_str.spec_bytes()) {
            Option::None => r matches Ok(v) && v@.len() == 0,
            Option::Some(size) => if all_numeric(models(entries@)) {
                r matches Ok(v) && window_entries(
                    *reduce,
                    *aggregate_function,
                    windows(sort_by_ts(models(entries@)), size),
                    models(v@),
                )
            } else {
                r == Err::<Vec<Entry>, QueryError>(QueryError::NonNumeric)
            },
        },
{
    let size = match parse_window_size(window_size_str) {
        Option::Some(n) => n,
        Option::None => return Ok(Vec::new()),
    };
    if !all_fields_numeric(entries) {
        return Err(QueryError::NonNumeric);
    }
    let func = *aggregate_function;
    let sorted = sorted_by_timestamp(entries);
    let ghost ms = models(sorted@);
    let mut out: Vec<Entry> = Vec::new();
    let mut start: Option<u64> = Option::None;
    let mut b: usize = 0;
    let mut i: usize = 0;
    let ghost mut closed: Seq<(u64, Seq<EntryModel>)> = seq![];
    assert(ms.take(0) =~= Seq::<EntryModel>::empty());
    assert(ms.subrange(0, 0) =~= Seq::<EntryModel>::empty());
    while i < sorted.len()
        invariant
            ms == models(sorted@),
            b <= i <= ms.len(),
            walk(ms.take(i as int), size) == (WindowWalk {
                closed,
                start,
                open: ms.subrange(b as int, i as int),
            }),
            i > 0 ==> start is Some,
            window_entries(*reduce, func, closed, models(out@)),
            forall|f: AggregateFunction, v: Vec<Value>| call_requires(*reduce, (f, &v)),
        decreases ms.len() - i,
    {
        let t = sorted[i].timestamp;
        let ws = match start {
            Option::Some(x) => x,
            Option::None => t,
        };
        assert(ms.take(i + 1).drop_last() == ms.take(i as int));
        assert(ms.take(i + 1).last() == ms[i as int]);
        if t as u128 >= ws as u128 + size as u128 {
            let w = window_entry_of(&sorted, b, i, ws, func, reduce);
            proof {
                lemma_models_push(out@, w);
                closed = closed.push((ws, ms.subrange(b as int, i as int)));
                assert(ms.subrange(i as int, i + 1) =~= seq![ms[i as int]]);
            }
            out.push(w);
            start = Option::Some(t);
            b = i;
        } else {
            assert(ms.subrange(b as int, i + 1) =~= ms.subrange(b as int, i as int).push(ms[i as int]));
            start = Option::Some(ws);
        }
        i = i + 1;
    }
    assert(ms.take(i as int) == ms);
    if window_has_fields(&sorted, b, i) {
        let ghost open = ms.subrange(b as int, i as int);
        let w = window_entry_of(&sorted, b, i, start.unwrap(), func, reduce);
        proof {
            lemma_models_push(out@, w);
        }
        out.push(w);
    }
    Ok(out)
}

} // verus!
