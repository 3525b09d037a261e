//! The response a query pipeline carries between stages, and name keep-lists.

use crate::entry::{copy_pairs, models, Entry, EntryModel, Pairs};
use crate::value::Value;
use vstd::prelude::*;

verus! {

/// The state a query pipeline carries from stage to stage: the entries still selected, and
/// the field and tag names the result is to keep (an empty list keeps every name).
#[derive(Debug, Clone)]
pub struct QueryResponse {
    pub items: Vec<Entry>,
    pub fields: Vec<String>,
    pub tags: Vec<String>,
}

/// What a response holds, as mathematical sequences.
pub struct QueryModel {
    pub items: Seq<EntryModel>,
    pub fields: Seq<String>,
    pub tags: Seq<String>,
}

impl View for QueryResponse {
    type V = QueryModel;

    open spec fn view(&self) -> QueryModel {
        QueryModel { items: models(self.items@), fields: self.fields@, tags: self.tags@ }
    }
}

/// Whether `names` holds the name `k`.
pub open spec fn has_name(names: Seq<String>, k: Seq<char>) -> bool {
    exists|i: int| 0 <= i < names.len() && (#[trigger] names[i])@ == k
}

/// The names of `s` in order, each kept at its first occurrence only.
pub open spec fn dedup_names(s: Seq<String>) -> Seq<String>
    decreases s.len(),
{
    if s.len() == 0 {
        s
    } else {
        let d = dedup_names(s.drop_last());
        if has_name(d, s.last()@) {
            d
        } else {
            d.push(s.last())
        }
    }
}

/// The pairs of `pairs` whose name `keep` holds, in their order.
pub open spec fn retain_named(pairs: Seq<(String, Value)>, keep: Seq<String>) -> Seq<(String, Value)>
    decreases pairs.len(),
{
    if pairs.len() == 0 {
        pairs
    } else {
        let r = retain_named(pairs.drop_last(), keep);
        if has_name(keep, pairs.last().0@) {
            r.push(pairs.last())
        } else {
            r
        }
    }
}

/// A name list as a keep-list: empty keeps every pair.
pub open spec fn project_pairs(pairs: Seq<(String, Value)>, keep: Seq<String>) -> Seq<(String, Value)> {
    if keep.len() == 0 {
        pairs
    } else {
        retain_named(pairs, keep)
    }
}

/// An entry cut down to the fields and tags that the keep-lists name.
pub open spec fn project(e: EntryModel, fields: Seq<String>, tags: Seq<String>) -> EntryModel {
    EntryModel {
        timestamp: e.timestamp,
        fields: project_pairs(e.fields, fields),
        tags: project_pairs(e.tags, tags),
    }
}
/// Whether `names` holds `k`.
pub fn contains_name(names: &Vec<String>, k: &String) -> (r: bool)
    ensures
        r == has_name(names@, k@),
{
    let mut i: usize = 0;
    while i < names.len()
        invariant
            i <= names@.len(),
            forall|j: int| 0 <= j < i ==> (#[trigger] names@[j])@ != k@,
        decreases names@.len() - i,
    {
        if names[i].eq(k) {
            return true;
        }
        i = i + 1;
    }
    false
}

/// A copy of a name list.
pub fn copy_names(names: &Vec<String>) -> (r: Vec<String>)
    ensures
        r@ == names@,
{
    let mut r: Vec<String> = Vec::new();
    let mut i: usize = 0;
    while i < names.len()
        invariant
            i <= names@.len(),
            r@ == names@.take(i as int),
        decreases names@.len() - i,
    {
        r.push(names[i].clone());
        assert(names@.take(i + 1) == names@.take(i as int).push(names@[i as int]));
        i = i + 1;
    }
    assert(names@.take(i as int) == names@);
    r
}

/// The names of `a` followed by those of `b`, each name once, at its first occurrence.
pub fn merge_unique(a: &Vec<String>, b: &Vec<String>) -> (r: Vec<String>)
    ensures
        r@ == dedup_names(a@ + b@),
{
    let ghost s = a@ + b@;
    let mut r: Vec<String> = Vec::new();
    let mut i: usize = 0;
    while i < a.len()
        invariant
            s == a@ + b@,
            i <= a@.len(),
            r@ == dedup_names(s.take(i as int)),
        decreases a@.len() - i,
    {
        let name = a[i].clone();
        assert(s.take(i + 1).drop_last() == s.take(i as int));
        if !contains_name(&r, &name) {
            r.push(name);
        }
        i = i + 1;
    }
    let mut j: usize = 0;
    while j < b.len()
        invariant
            s == a@ + b@,
            j <= b@.len(),
            r@ == dedup_names(s.take(a@.len() + j)),
        decreases b@.len() - j,
    {
        let name = b[j].clone();
        assert(s.take(a@.len() + j + 1).drop_last() == s.take(a@.len() + j));
        assert(s[a@.len() + j] == b@[j as int]);
        if !contains_name(&r, &name) {
            r.push(name);
        }
        j = j + 1;
    }
    assert(s.take(a@.len() + j) == s);
    r
}

/// The pairs of `pairs` that a keep-list admits.
pub fn project_pair_list(pairs: &Pairs, keep: &Vec<String>) -> (r: Pairs)
    ensures
        r@ == project_pairs(pairs@, keep@),
{
    if keep.len() == 0 {
        return copy_pairs(pairs);
    }
    let mut r: Pairs = Vec::new();
    let mut i: usize = 0;
    while i < pairs.len()
        invariant
            i <= pairs@.len(),
            keep@.len() > 0,
            r@ == retain_named(pairs@.take(i as int), keep@),
        decreases pairs@.len() - i,
    {
        assert(pairs@.take(i + 1).drop_last() == pairs@.take(i as int));
        if contains_name(keep, &pairs[i].0) {
            r.push((pairs[i].0.clone(), pairs[i].1.copy()));
        }
        i = i + 1;
    }
    assert(pairs@.take(i as int) == pairs@);
    r
}

impl QueryResponse {
    /// A response that selects nothing and keeps every name.
    pub fn new() -> (r: QueryResponse)
        ensures
            r.items@.len() == 0,
            r.fields@.len() == 0,
            r.tags@.len() == 0,
    {
        QueryResponse { items: Vec::new(), fields: Vec::new(), tags: Vec::new() }
    }

    /// Copies of the selected entries, cut down to the names the keep-lists give.
    pub fn eval(&self) -> (r: Vec<Entry>)
        ensures
            r@.len() == self.items@.len(),
            forall|i: int|
                0 <= i < r@.len() ==> (#[trigger] r@[i])@ == project(
                    self.items@[i]@,
                    self.fields@,
                    self.tags@,
                ),
    {
        let mut r: Vec<Entry> = Vec::new();
        let mut i: usize = 0;
        while i < self.items.len()
            invariant
                i <= self.items@.len(),
                r@.len() == i,
                forall|j: int|
                    0 <= j < i ==> (#[trigger] r@[j])@ == project(
                        self.items@[j]@,
                        self.fields@,
                        self.tags@,
                    ),
            decreases self.items@.len() - i,
        {
            let item = &self.items[i];
            let e = Entry {
                timestamp: item.timestamp,
                fields: project_pair_list(&item.fields, &self.fields),
                tags: project_pair_list(&item.tags, &self.tags),
            };
            r.push(e);
            i = i + 1;
        }
        r
    }
}

} // verus!
