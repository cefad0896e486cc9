//! The client's belief about the next version to write into each slot.
use vstd::prelude::*;

verus! {

/// Key of a cache entry: the message category's index and the slot id.
pub type SlotKey = (u8, u32);

/// Next-version cache, keyed by (category index, slot id), held in a
/// `hashbrown` map.
#[verifier::external_body]
pub struct SlotVersionCache {
    versions: hashbrown::HashMap<SlotKey, u32>,
}

/// What a cache holds: each key with its next version.
pub uninterp spec fn cache_entries(c: SlotVersionCache) -> Map<SlotKey, u32>;

impl SlotVersionCache {
    /// Relies on `hashbrown::HashMap::new`: a map that holds no entry.
    #[verifier::external_body]
    pub(crate) fn new() -> (r: SlotVersionCache)
        ensures
            forall|k: SlotKey| !cache_entries(r).contains_key(k),
    {
        SlotVersionCache { versions: hashbrown::HashMap::new() }
    }

    /// Relies on `hashbrown::HashMap::get`: the value stored under `key`, if any.
    #[verifier::external_body]
    pub(crate) fn get(&self, key: SlotKey) -> (r: Option<u32>)
        ensures
            cache_entries(*self).contains_key(key) ==> r == Some(cache_entries(*self)[key]),
            !cache_entries(*self).contains_key(key) ==> r.is_none(),
    {
        self.versions.get(&key).copied()
    }

    /// Relies on `hashbrown::HashMap::insert`: `key` now maps to `version`, and
    /// every other entry is kept.
    #[verifier::external_body]
    pub(crate) fn insert(&mut self, key: SlotKey, version: u32)
        ensures
            cache_entries(*final(self)) == cache_entries(*old(self)).insert(key, version),
    {
        self.versions.insert(key, version);
    }
}

} // verus!
