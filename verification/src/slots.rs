//! Slot storage with stable ids, backed by the `slotmap` crate.
//!
//! The contracts in this module are taken on trust: Verus reads them and not
//! the bodies, which call into `slotmap`. Each says what the source of
//! `slotmap` shows of the method it names.

use slotmap::{DefaultKey, Key, KeyData, SlotMap};
use std::collections::HashSet;
use vstd::prelude::*;

verus! {

/// The largest number of entries a table may hold before an insertion.
pub const SLOT_LIMIT: usize = 4294967294;

/// A `slotmap::SlotMap` whose slots each hold a set of 64-bit ids.
///
/// Verus cannot look inside a `SlotMap`, so the map sits behind this opaque
/// struct. Its entries are addressed by the 64-bit form of their keys, which
/// `slotmap::KeyData::as_ffi` produces and `slotmap::KeyData::from_ffi` reads
/// back.
#[verifier::external_body]
pub struct SlotTable {
    slots: SlotMap<DefaultKey, HashSet<u64>>,
}

/// The contents of a table: for each live key, taken in its 64-bit form, the
/// set stored under it.
pub uninterp spec fn slot_sets(table: SlotTable) -> Map<u64, Set<u64>>;

impl SlotTable {
    /// `SlotMap::with_key`: a new table has no live key.
    #[verifier::external_body]
    pub(crate) fn new() -> (table: Self)
        ensures
            slot_sets(table).dom() == Set::<u64>::empty(),
    {
        SlotTable { slots: SlotMap::with_key() }
    }

    /// `SlotMap::len`: the number of live keys.
    #[verifier::external_body]
    pub(crate) fn len(&self) -> (n: usize)
        requires
            slot_sets(*self).dom().finite(),
        ensures
            n == slot_sets(*self).dom().len(),
    {
        self.slots.len()
    }

    /// `SlotMap::insert`: stores `set` under a key that no live entry has,
    /// leaves every other entry as it was, and returns the new key in its
    /// 64-bit form. `SlotMap` panics once it has handed out 2^32 - 2 slots and
    /// none is free; the precondition keeps the table below that.
    #[verifier::external_body]
    pub(crate) fn insert(&mut self, set: HashSet<u64>) -> (id: u64)
        requires
            slot_sets(*old(self)).dom().finite(),
            slot_sets(*old(self)).dom().len() < SLOT_LIMIT,
        ensures
            !slot_sets(*old(self)).contains_key(id),
            slot_sets(*final(self)) == slot_sets(*old(self)).insert(id, set@),
    {
        self.slots.insert(set).data().as_ffi()
    }

    /// `SlotMap`'s `Index`: the set stored under a live key. Indexing panics
    /// on a key that is not live; the precondition leaves those out.
    #[verifier::external_body]
    pub(crate) fn get(&self, id: u64) -> (set: &HashSet<u64>)
        requires
            slot_sets(*self).contains_key(id),
        ensures
            set@ == slot_sets(*self)[id],
    {
        &self.slots[DefaultKey::from(KeyData::from_ffi(id))]
    }

    /// `SlotMap`'s `IndexMut`: mutable access to the set stored under a live
    /// key. Whatever the caller leaves in the set is what the table then holds
    /// under that key; no other entry changes.
    #[verifier::external_body]
    pub(crate) fn get_mut(&mut self, id: u64) -> (set: &mut HashSet<u64>)
        requires
            slot_sets(*old(self)).contains_key(id),
        ensures
            set@ == slot_sets(*old(self))[id],
            slot_sets(*final(self)) == slot_sets(*old(self)).insert(id, final(set)@),
    {
        &mut self.slots[DefaultKey::from(KeyData::from_ffi(id))]
    }
}

} // verus!
