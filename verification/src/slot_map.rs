//! A map from symbol index to table slot, backed by `hashbrown::HashMap`.

use vstd::prelude::*;

verus! {

/// A `hashbrown::HashMap<usize, usize>` from symbol index to slot index.
#[verifier::external_body]
pub struct SlotMap {
    map: hashbrown::HashMap<usize, usize>,
}

/// The key/value pairs a `SlotMap` holds.
pub uninterp spec fn slot_map_contents(m: SlotMap) -> Map<usize, usize>;

impl SlotMap {
    /// `hashbrown::HashMap::new`: a map with no entries.
    #[verifier::external_body]
    pub(crate) fn new() -> (r: SlotMap)
        ensures
            slot_map_contents(r) == (Map::<usize, usize>::empty()),
    {
        SlotMap { map: hashbrown::HashMap::new() }
    }

    /// `hashbrown::HashMap::get`: the value stored under `key`, if any.
    #[verifier::external_body]
    pub(crate) fn get(&self, key: usize) -> (r: Option<usize>)
        ensures
            r == (if slot_map_contents(*self).dom().contains(key) {
                Some(slot_map_contents(*self)[key])
            } else {
                None
            }),
    {
        self.map.get(&key).copied()
    }

    /// `hashbrown::HashMap::insert`: store `value` under `key`, returning the
    /// value it replaces.
    #[verifier::external_body]
    pub(crate) fn insert(&mut self, key: usize, value: usize) -> (r: Option<usize>)
        ensures
            slot_map_contents(*final(self)) == slot_map_contents(*old(self)).insert(key, value),
            r == (if slot_map_contents(*old(self)).dom().contains(key) {
                Some(slot_map_contents(*old(self))[key])
            } else {
                None
            }),
    {
        self.map.insert(key, value)
    }
}

} // verus!
