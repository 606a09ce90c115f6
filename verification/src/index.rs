//! The staging index: which blob hash each tracked file had when it was last
//! added.

use vstd::prelude::*;
use crate::strmap::StrMap;

verus! {

/// The staging index: file name (relative to the working directory) to the
/// blob hash of its latest added version.
#[derive(Debug)]
pub struct Index {
    pub entries: StrMap,
}

/// What a lookup of `filename` in index entries `entries` gives.
pub open spec fn index_lookup(entries: Map<Seq<char>, Seq<char>>, filename: Seq<char>) -> Option<Seq<char>> {
    if entries.dom().contains(filename) {
        Some(entries[filename])
    } else {
        None
    }
}

impl Index {
    /// An empty index.
    pub fn new() -> (i: Index)
        ensures
            i.entries@ == Map::<Seq<char>, Seq<char>>::empty(),
    {
        Index { entries: StrMap::new() }
    }

    /// Stages `hash` as the latest version of `filename`.
    pub fn insert(&mut self, filename: String, hash: String)
        ensures
            final(self).entries@ == old(self).entries@.insert(filename@, hash@),
    {
        self.entries.insert(filename, hash);
    }

    /// The staged hash of `filename`, if it is in the index.
    pub fn get(&self, filename: &str) -> (r: Option<&String>)
        ensures
            match r {
                Some(h) => index_lookup(self.entries@, filename@) == Some(h@),
                None => index_lookup(self.entries@, filename@) == None::<Seq<char>>,
            },
    {
        self.entries.get(filename)
    }

    /// Takes `filename` out of the index; tells whether it was there.
    pub fn remove(&mut self, filename: &str) -> (r: bool)
        ensures
            r == old(self).entries@.dom().contains(filename@),
            final(self).entries@ == old(self).entries@.remove(filename@),
    {
        self.entries.remove(filename)
    }
}

impl Default for Index {
    /// An empty index.
    fn default() -> (i: Index)
        ensures
            i.entries@ == Map::<Seq<char>, Seq<char>>::empty(),
    {
        Index::new()
    }
}

impl Clone for Index {
    /// An index with the same entries.
    fn clone(&self) -> (res: Self)
        ensures
            res.entries@ == self.entries@,
    {
        Index { entries: self.entries.clone() }
    }
}

} // verus!
