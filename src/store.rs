use vstd::prelude::*;
use vstd::string::*;

use crate::value::{FieldValue, ParsedValue};

verus! {

/// The model of a store: its `(key, value)` entries in the order in which
/// they were written.
pub type Entries = Seq<(Seq<char>, FieldValue)>;

/// The value that the last write under `key` left, if any.
pub open spec fn lookup(entries: Entries, key: Seq<char>) -> Option<FieldValue>
    decreases entries.len(),
{
    if entries.len() == 0 {
        None
    } else if entries.last().0 == key {
        Some(entries.last().1)
    } else {
        lookup(entries.drop_last(), key)
    }
}

/// Decoded fields under their dotted paths (`"<chunk-prefix>.<field-name>"`).
#[derive(Debug)]
pub struct FieldStore {
    entries: Vec<(String, ParsedValue)>,
}

impl View for FieldStore {
    type V = Entries;

    closed spec fn view(&self) -> Entries {
        self.entries@.map_values(|e: (String, ParsedValue)| (e.0@, e.1@))
    }
}

impl FieldStore {
    /// An empty store.
    pub fn new() -> (r: FieldStore)
        ensures
            r@ == Seq::<(Seq<char>, FieldValue)>::empty(),
    {
        let r = FieldStore { entries: Vec::new() };
        assert(r@ =~= Seq::<(Seq<char>, FieldValue)>::empty());
        r
    }

    /// Records `value` under `key`.
    pub fn insert(&mut self, key: String, value: ParsedValue)
        ensures
            final(self)@ == old(self)@.push((key@, value@)),
    {
        let ghost k = key@;
        let ghost v = value@;
        self.entries.push((key, value));
        assert(self@ =~= old(self)@.push((k, v)));
    }

    /// The number of writes recorded.
    pub fn len(&self) -> (r: usize)
        ensures
            r == self@.len(),
    {
        self.entries.len()
    }

    /// The value last written under `key`.
    pub fn get(&self, key: &str) -> (r: Option<&ParsedValue>)
        ensures
            match r {
                Some(v) => lookup(self@, key@) == Some(v@),
                None => lookup(self@, key@) == None::<FieldValue>,
            },
    {
        let wanted = String::from_str(key);
        let mut i: usize = self.entries.len();
        assert(self@.subrange(0, i as int) =~= self@);
        while i > 0
            invariant
                i <= self.entries@.len(),
                wanted@ == key@,
                lookup(self@, key@) == lookup(self@.subrange(0, i as int), key@),
            decreases i,
        {
            let ghost pre = self@.subrange(0, i as int);
            assert(pre.drop_last() =~= self@.subrange(0, i - 1));
            if self.entries[i - 1].0 == wanted {
                return Some(&self.entries[i - 1].1);
            }
            i = i - 1;
        }
        assert(self@.subrange(0, 0) =~= Seq::<(Seq<char>, FieldValue)>::empty());
        None
    }
}

} // verus!
