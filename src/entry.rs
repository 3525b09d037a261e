//! Timestamped entries and name lookup among their fields and tags.

use crate::value::Value;
use vstd::prelude::*;

verus! {

/// A named value list: the fields or the tags of an entry.
pub type Pairs = Vec<(String, Value)>;

/// One timestamped record. Fields and tags are independent namespaces.
#[derive(Debug, Clone)]
pub struct Entry {
    pub timestamp: u64,
    pub fields: Pairs,
    pub tags: Pairs,
}

/// What an entry holds, as mathematical sequences.
pub struct EntryModel {
    pub timestamp: u64,
    pub fields: Seq<(String, Value)>,
    pub tags: Seq<(String, Value)>,
}

impl View for Entry {
    type V = EntryModel;

    open spec fn view(&self) -> EntryModel {
        EntryModel { timestamp: self.timestamp, fields: self.fields@, tags: self.tags@ }
    }
}

/// The value held under name `k`; where the name occurs more than once, the last pair wins.
pub open spec fn lookup(pairs: Seq<(String, Value)>, k: Seq<char>) -> Option<Value>
    decreases pairs.len(),
{
    if pairs.len() == 0 {
        Option::None
    } else if pairs.last().0@ == k {
        Option::Some(pairs.last().1)
    } else {
        lookup(pairs.drop_last(), k)
    }
}

/// The value an entry holds under a name: its tag of that name where it has one, else its
/// field of that name.
pub open spec fn entry_value(e: EntryModel, k: Seq<char>) -> Option<Value> {
    match lookup(e.tags, k) {
        Option::Some(v) => Option::Some(v),
        Option::None => lookup(e.fields, k),
    }
}

pub open spec fn models(entries: Seq<Entry>) -> Seq<EntryModel> {
    entries.map_values(|e: Entry| e@)
}

/// Index of the last pair named `key`.
pub fn find_last(pairs: &Pairs, key: &String) -> (r: Option<usize>)
    ensures
        match r {
            Option::Some(i) => i < pairs@.len() && lookup(pairs@, key@) == Option::Some(
                pairs@[i as int].1,
            ),
            Option::None => lookup(pairs@, key@) == Option::<Value>::None,
        },
{
    let mut i = pairs.len();
    assert(pairs@.take(i as int) == pairs@);
    while i > 0
        invariant
            i <= pairs@.len(),
            lookup(pairs@, key@) == lookup(pairs@.take(i as int), key@),
        decreases i,
    {
        assert(pairs@.take(i as int).drop_last() == pairs@.take(i - 1));
        if pairs[i - 1].0.eq(key) {
            return Option::Some(i - 1);
        }
        i = i - 1;
    }
    Option::None
}

/// A copy of a pair list.
pub fn copy_pairs(pairs: &Pairs) -> (r: Pairs)
    ensures
        r@ == pairs@,
{
    let mut r: Pairs = Vec::new();
    let mut i: usize = 0;
    while i < pairs.len()
        invariant
            i <= pairs@.len(),
            r@ == pairs@.take(i as int),
        decreases pairs@.len() - i,
    {
        let name = pairs[i].0.clone();
        let value = pairs[i].1.copy();
        r.push((name, value));
        assert(pairs@.take(i + 1) == pairs@.take(i as int).push(pairs@[i as int]));
        i = i + 1;
    }
    assert(pairs@.take(i as int) == pairs@);
    r
}

impl Entry {
    /// A copy of this entry.
    pub fn copy(&self) -> (r: Entry)
        ensures
            r@ == self@,
    {
        Entry { timestamp: self.timestamp, fields: copy_pairs(&self.fields), tags: copy_pairs(&self.tags) }
    }

    /// The value under `field`: the tag of that name where there is one, else the field.
    pub fn get_value(&self, field: &str) -> (r: Option<&Value>)
        ensures
            r matches Option::Some(v) ==> entry_value(self@, field@) == Option::Some(*v),
            r is None ==> entry_value(self@, field@) is None,
    {
        let key = field.to_owned();
        match find_last(&self.tags, &key) {
            Option::Some(i) => Option::Some(&self.tags[i].1),
            Option::None => match find_last(&self.fields, &key) {
                Option::Some(i) => Option::Some(&self.fields[i].1),
                Option::None => Option::None,
            },
        }
    }
}

} // verus!
