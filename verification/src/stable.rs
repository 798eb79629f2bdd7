//! Trusted interface to the durable storage substrate.
//!
//! The substrate holds two durable regions: a scalar id counter and a
//! key-ordered map from record id to the encoded record bytes. Both persist
//! every mutation before the call returns and are recovered intact when the
//! store is reopened from the same memory.

use ic_stable_structures::btreemap::BTreeMap;
use ic_stable_structures::cell::Cell;
use ic_stable_structures::memory_manager::{MemoryId, MemoryManager, VirtualMemory};
use ic_stable_structures::DefaultMemoryImpl;
use vstd::prelude::*;

verus! {

/// The durable substrate: a stable counter cell and a stable B-tree map,
/// backed by two regions of one managed memory.
#[verifier::external_body]
pub struct StableStore {
    counter: Cell<u64, VirtualMemory<DefaultMemoryImpl>>,
    map: BTreeMap<u64, Vec<u8>, VirtualMemory<DefaultMemoryImpl>>,
}

/// The entries held by the durable map: encoded record bytes keyed by id.
pub uninterp spec fn stored_bytes(s: &StableStore) -> Map<u64, Seq<u8>>;

/// The contents of a store that holds no entry.
pub open spec fn no_bytes() -> Map<u64, Seq<u8>> {
    Map::empty()
}

/// The persisted value of the id counter.
pub uninterp spec fn counter_value(s: &StableStore) -> u64;

impl StableStore {
    /// Opens the store on a fresh default memory substrate.
    ///
    /// Relies on MemoryManager::init, Cell::init (a fresh region yields the
    /// given default value, here zero) and BTreeMap::init (a fresh region
    /// yields an empty map).
    #[verifier::external_body]
    pub(crate) fn new() -> (r: StableStore)
        ensures
            counter_value(&r) == 0,
            stored_bytes(&r) == no_bytes(),
    {
        let mm = MemoryManager::init(DefaultMemoryImpl::default());
        StableStore {
            counter: Cell::init(mm.get(MemoryId::new(0)), 0),
            map: BTreeMap::init(mm.get(MemoryId::new(1))),
        }
    }

    /// Reopens the store from its own memory, as a process restart does.
    ///
    /// Relies on Cell::into_memory and Cell::init (the persisted counter is
    /// re-read from the memory), and on BTreeMap::into_memory and
    /// BTreeMap::init (the persisted map is reloaded from the memory).
    #[verifier::external_body]
    pub(crate) fn restart(self) -> (r: StableStore)
        ensures
            counter_value(&r) == counter_value(&self),
            stored_bytes(&r) == stored_bytes(&self),
    {
        let cm = self.counter.into_memory();
        let mm = self.map.into_memory();
        StableStore { counter: Cell::init(cm, 0), map: BTreeMap::init(mm) }
    }

    /// Relies on Cell::get: returns the persisted counter value.
    #[verifier::external_body]
    pub(crate) fn counter_get(&self) -> (r: u64)
        ensures
            r == counter_value(self),
    {
        *self.counter.get()
    }

    /// Relies on Cell::set: durably persists the new counter value before
    /// returning (a substrate write failure traps, it is not reported).
    #[verifier::external_body]
    pub(crate) fn counter_set(&mut self, v: u64)
        ensures
            counter_value(final(self)) == v,
            stored_bytes(final(self)) == stored_bytes(old(self)),
    {
        self.counter.set(v);
    }

    /// Relies on BTreeMap::get: returns the value stored at the key, if any.
    #[verifier::external_body]
    pub(crate) fn map_get(&self, k: u64) -> (r: Option<Vec<u8>>)
        ensures
            match r {
                Some(v) => stored_bytes(self).contains_key(k) && v@ == stored_bytes(self)[k],
                None => !stored_bytes(self).contains_key(k),
            },
    {
        self.map.get(&k)
    }

    /// Relies on BTreeMap::insert: inserts or overwrites the value at the
    /// key, durably (a substrate write failure traps, it is not reported).
    /// Values are bounded at the store's maximum encoded record size.
    #[verifier::external_body]
    pub(crate) fn map_insert(&mut self, k: u64, v: Vec<u8>)
        requires
            v@.len() <= 1024,
        ensures
            stored_bytes(final(self)) == stored_bytes(old(self)).insert(k, v@),
            counter_value(final(self)) == counter_value(old(self)),
    {
        self.map.insert(k, v);
    }

    /// Relies on BTreeMap::remove: removes and returns the value at the key.
    #[verifier::external_body]
    pub(crate) fn map_remove(&mut self, k: u64) -> (r: Option<Vec<u8>>)
        ensures
            stored_bytes(final(self)) == stored_bytes(old(self)).remove(k),
            counter_value(final(self)) == counter_value(old(self)),
            match r {
                Some(v) => stored_bytes(old(self)).contains_key(k) && v@ == stored_bytes(old(self))[k],
                None => !stored_bytes(old(self)).contains_key(k),
            },
    {
        self.map.remove(&k)
    }

    /// Relies on BTreeMap::is_empty: true exactly when the map has no entry.
    #[verifier::external_body]
    pub(crate) fn map_is_empty(&self) -> (r: bool)
        ensures
            r <==> stored_bytes(self).dom() == Set::<u64>::empty(),
    {
        self.map.is_empty()
    }

    /// Relies on BTreeMap::last_key_value: the entry with the greatest key,
    /// or nothing when the map is empty.
    #[verifier::external_body]
    pub(crate) fn map_last(&self) -> (r: Option<(u64, Vec<u8>)>)
        ensures
            match r {
                Some(p) => stored_bytes(self).contains_key(p.0) && p.1@ == stored_bytes(self)[p.0]
                    && (forall|k2: u64| #[trigger]
                    stored_bytes(self).contains_key(k2) ==> k2 <= p.0),
                None => stored_bytes(self).dom() == Set::<u64>::empty(),
            },
    {
        self.map.last_key_value()
    }

    /// Relies on BTreeMap::iter, which yields every entry in ascending key
    /// order, and on LazyEntry::into_pair to obtain the owned pairs.
    #[verifier::external_body]
    pub(crate) fn map_entries(&self) -> (r: Vec<(u64, Vec<u8>)>)
        ensures
            forall|i: int| #![trigger r@[i]]
                0 <= i < r@.len() ==> stored_bytes(self).contains_key(r@[i].0) && r@[i].1@
                    == stored_bytes(self)[r@[i].0],
            forall|i: int, j: int| #![trigger r@[i], r@[j]]
                0 <= i < j < r@.len() ==> r@[i].0 < r@[j].0,
            forall|k: u64| #[trigger]
                stored_bytes(self).contains_key(k) ==> exists|i: int|
                    0 <= i < r@.len() && r@[i].0 == k,
    {
        self.map.iter().map(|e| e.into_pair()).collect()
    }
}

} // verus!
