//! The map from effects to their slices.
use bevy::utils::HashMap;
use vstd::prelude::*;

use crate::slice::SliceRef;

verus! {

/// A `bevy::utils::HashMap` from the identifier of an effect to the index of its buffer and to
/// its slice in that buffer.
#[verifier::external_body]
pub struct EffectMap {
    inner: HashMap<u64, (usize, SliceRef)>,
}

/// The entries of a map.
pub uninterp spec fn effect_entries(effects: EffectMap) -> Map<u64, (usize, SliceRef)>;

impl EffectMap {
    /// Creates a map with `HashMap::default`. The map is empty.
    #[verifier::external_body]
    pub(crate) fn new() -> (effects: Self)
        ensures
            effect_entries(effects).is_empty(),
    {
        EffectMap { inner: HashMap::default() }
    }

    /// Looks an effect up with `HashMap::get`, which returns its entry if there is one.
    #[verifier::external_body]
    pub(crate) fn get(&self, id: u64) -> (entry: Option<&(usize, SliceRef)>)
        ensures
            match entry {
                Some(entry) => effect_entries(*self).contains_key(id) && *entry == effect_entries(
                    *self,
                )[id],
                None => !effect_entries(*self).contains_key(id),
            },
    {
        self.inner.get(&id)
    }

    /// Adds an effect with `HashMap::insert`, which replaces its entry if there is one.
    #[verifier::external_body]
    pub(crate) fn insert(&mut self, id: u64, buffer_index: usize, slice: SliceRef)
        ensures
            effect_entries(*final(self)) == effect_entries(*old(self)).insert(
                id,
                (buffer_index, slice),
            ),
    {
        self.inner.insert(id, (buffer_index, slice));
    }

    /// Removes an effect with `HashMap::remove`, which returns its entry if there was one.
    #[verifier::external_body]
    pub(crate) fn remove(&mut self, id: u64) -> (entry: Option<(usize, SliceRef)>)
        ensures
            effect_entries(*final(self)) == effect_entries(*old(self)).remove(id),
            match entry {
                Some(entry) => effect_entries(*old(self)).contains_key(id) && entry
                    == effect_entries(*old(self))[id],
                None => !effect_entries(*old(self)).contains_key(id),
            },
    {
        self.inner.remove(&id)
    }
}

} // verus!
