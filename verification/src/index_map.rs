//! The entity-to-slot index of one dense store, backed by a hash table.
//!
//! The table itself comes from the `hashbrown` crate and is taken on
//! trust: Verus sees only the contracts below, each of which restates what
//! the crate's documentation promises of the call it wraps.

use vstd::prelude::*;
use hashbrown::HashMap;

verus! {

/// A mapping from entity ids to slot positions inside one dense store.
#[verifier::external_body]
pub struct IndexMap {
    table: HashMap<u32, usize>,
}

/// The entries that an [`IndexMap`] currently holds, as a mathematical map.
pub uninterp spec fn index_entries(m: IndexMap) -> Map<u32, usize>;

/// The entries of a table that holds nothing.
pub open spec fn no_entries() -> Map<u32, usize> {
    Map::empty()
}

impl IndexMap {
    /// Relies on `hashbrown::HashMap::new`: a fresh table holds no entries.
    #[verifier::external_body]
    pub fn new() -> (m: IndexMap)
        ensures
            index_entries(m) == no_entries(),
    {
        IndexMap { table: HashMap::new() }
    }

    /// Relies on `hashbrown::HashMap::get`: hands back the value stored
    /// under the key, or nothing when the key has no entry.
    #[verifier::external_body]
    pub fn get(&self, key: u32) -> (r: Option<usize>)
        ensures
            r == (if index_entries(*self).dom().contains(key) {
                Some(index_entries(*self)[key])
            } else {
                None::<usize>
            }),
    {
        self.table.get(&key).copied()
    }

    /// Relies on `hashbrown::HashMap::insert`: stores the value under the
    /// key and hands back the value that was there before, if any.
    #[verifier::external_body]
    pub fn insert(&mut self, key: u32, value: usize) -> (r: Option<usize>)
        ensures
            index_entries(*final(self)) == index_entries(*old(self)).insert(key, value),
            r == (if index_entries(*old(self)).dom().contains(key) {
                Some(index_entries(*old(self))[key])
            } else {
                None::<usize>
            }),
    {
        self.table.insert(key, value)
    }

    /// Relies on `hashbrown::HashMap::remove`: takes the entry under the
    /// key out of the table and hands back its value, if there was one.
    #[verifier::external_body]
    pub fn remove(&mut self, key: u32) -> (r: Option<usize>)
        ensures
            index_entries(*final(self)) == index_entries(*old(self)).remove(key),
            r == (if index_entries(*old(self)).dom().contains(key) {
                Some(index_entries(*old(self))[key])
            } else {
                None::<usize>
            }),
    {
        self.table.remove(&key)
    }
}

} // verus!
