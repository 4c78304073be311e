//! Header maps: insertion-ordered, with names kept in lower case.
use vstd::prelude::*;
use crate::table::{Pairs, StrMap, insert_pair, lookup, keys_unique};
use crate::text::{lower_of, to_lowercase};

verus! {

/// Header names mapped to values; names are lower-cased on the way in.
#[derive(Debug, Clone)]
pub struct Headers {
    map: StrMap,
}

impl View for Headers {
    type V = Pairs;

    closed spec fn view(&self) -> Pairs {
        self.map@
    }
}

impl Headers {
    /// Names are unique.
    pub open spec fn wf(&self) -> bool {
        keys_unique(self@)
    }

    pub fn new() -> (r: Headers)
        ensures
            r@ == Seq::<(Seq<char>, Seq<char>)>::empty(),
            r.wf(),
    {
        Headers { map: StrMap::new() }
    }

    pub fn len(&self) -> (r: usize)
        ensures
            r == self@.len(),
    {
        self.map.len()
    }

    /// The header at position `i`, in insertion order.
    pub fn entry(&self, i: usize) -> (r: (&String, &String))
        requires
            i < self@.len(),
        ensures
            (r.0@, r.1@) == self@[i as int],
    {
        self.map.entry(i)
    }

    /// The value of header `name`, compared without regard to case.
    pub fn get(&self, name: &str) -> (r: Option<&String>)
        ensures
            match r {
                Some(v) => lookup(self@, lower_of(name@)) == Some(v@),
                None => lookup(self@, lower_of(name@)) is None,
            },
    {
        let key = to_lowercase(name);
        self.map.get(key.as_str())
    }

    /// Sets header `name` (lower-cased) to `value`; a later value replaces an
    /// earlier one in its place.
    pub fn insert(&mut self, name: &str, value: String)
        requires
            old(self).wf(),
        ensures
            final(self).wf(),
            final(self)@ == insert_pair(old(self)@, lower_of(name@), value@),
    {
        let key = to_lowercase(name);
        self.map.insert(key, value);
    }
}

} // verus!
