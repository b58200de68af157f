//! The cache of effect instances.
use bevy::asset::HandleId;
use std::ops::Range;
use vstd::prelude::*;

use crate::allocation::{recycle, Allocation, BufferState};
use crate::buffer::{BufferModel, EffectBuffer, EffectBufferResources};
use crate::cache_laws::{
    law_insert_in_new_buffer_keeps_consistency, law_insert_keeps_consistency,
    law_remove_drops_buffer_of_last_effect,
};
use crate::effect_map::{effect_entries, EffectMap};
use crate::layout::{LayoutFlags, ParticleLayout, PropertyLayout};
use crate::plan::{particle_buffer_label, slot_label, EffectBufferPlan, GpuRecordSizes};
use crate::slice::{EffectSlice, SliceRef};

verus! {

/// A counter that numbers effects. All caches of a process share one.
#[derive(Debug)]
pub struct EffectCacheIds {
    next: u64,
}

impl View for EffectCacheIds {
    type V = u64;

    /// The number of the next effect.
    closed spec fn view(&self) -> u64 {
        self.next
    }
}

/// The number that follows, starting over after the largest one.
pub open spec fn next_number(number: u64) -> u64 {
    if number == u64::MAX {
        0
    } else {
        (number + 1) as u64
    }
}

impl EffectCacheIds {
    /// A counter that starts at zero.
    pub fn new() -> (ids: Self)
        ensures
            ids@ == 0,
    {
        EffectCacheIds { next: 0 }
    }
}

/// Identifier of an effect in an effect cache.
#[derive(Debug, Clone, Copy, PartialEq, Eq, Hash, Structural)]
pub struct EffectCacheId(pub u64);

impl EffectCacheId {
    /// The number of the identifier that corresponds to nothing.
    pub const INVALID: u64 = u64::MAX;

    /// Generates a new identifier.
    pub fn new(ids: &mut EffectCacheIds) -> (id: Self)
        ensures
            id.0 == old(ids)@,
            final(ids)@ == next_number(old(ids)@),
    {
        let id = EffectCacheId(ids.next);
        ids.next = if ids.next == u64::MAX {
            0
        } else {
            ids.next + 1
        };
        id
    }

    /// Whether the identifier is valid.
    pub fn is_valid(&self) -> (valid: bool)
        ensures
            valid == (self.0 != EffectCacheId::INVALID),
    {
        self.0 != EffectCacheId::INVALID
    }
}

impl Default for EffectCacheId {
    fn default() -> (id: Self)
        ensures
            id.0 == 0,
    {
        EffectCacheId(0)
    }
}

/// A buffer that has to be created before an effect can be inserted.
#[derive(Debug)]
pub struct NewBuffer {
    /// Index that the buffer will have.
    pub buffer_index: usize,
    /// The GPU objects that back it.
    pub plan: EffectBufferPlan,
}

/// The outcome of an attempt to insert an effect.
#[derive(Debug)]
pub enum InsertStep {
    /// The effect was inserted into an existing buffer.
    Inserted(EffectCacheId),
    /// No buffer has room for the effect. Once the GPU objects are created, the effect can be
    /// inserted with `insert_in_new_buffer`.
    CreateBuffer(NewBuffer),
}

/// Cache for effect instances.
pub struct EffectCache<B, L> {
    /// Buffers managed by this cache, or `None` for an entry that is not used. Since the buffers
    /// are referenced by index, they are never moved.
    buffers: Vec<Option<EffectBuffer<B, L>>>,
    /// Map from an effect to the index of its buffer and its slice into that buffer.
    effects: EffectMap,
}

/// What the entry of a cache stands for.
pub open spec fn slot_model<B, L>(slot: Option<EffectBuffer<B, L>>) -> Option<BufferModel<B, L>> {
    match slot {
        Some(buffer) => Some(buffer@),
        None => None,
    }
}

/// What the entries of a cache stand for.
pub open spec fn slot_models<B, L>(slots: Seq<Option<EffectBuffer<B, L>>>) -> Seq<
    Option<BufferModel<B, L>>,
> {
    Seq::new(slots.len(), |k: int| slot_model(slots[k]))
}

/// What a cache stands for.
pub struct CacheModel<B, L> {
    /// The buffers, by index.
    pub buffers: Seq<Option<BufferModel<B, L>>>,
    /// The index of the buffer and the slice of each effect.
    pub effects: Map<u64, (usize, SliceRef)>,
}

impl<B, L> CacheModel<B, L> {
    /// What every operation keeps, whatever the capacity of the effects.
    pub open spec fn wf(self) -> bool {
        &&& self.buffers.len() <= usize::MAX
        &&& forall|k: int|
            0 <= k < self.buffers.len() ==> (#[trigger] self.buffers[k] matches Some(buffer)
                ==> buffer.wf())
        &&& forall|id: u64| #[trigger]
            self.effects.contains_key(id) ==> self.effects[id].0 < self.buffers.len()
                && self.effects[id].1.wf()
    }

    /// A buffer exists at the index and stores effects of the asset.
    pub open spec fn compatible(self, k: int, asset: HandleId) -> bool {
        self.buffers[k] matches Some(buffer) && buffer.asset == asset
    }

    /// The buffer at the index stores effects of the asset and has room for the effect.
    pub open spec fn accepts(self, k: int, asset: HandleId, capacity: u32) -> bool {
        self.compatible(k, asset) && self.buffers[k].unwrap().allocation.allocate(capacity) is Some
    }

    /// The first buffer that accepts the effect.
    pub open spec fn is_first_accepting(self, k: int, asset: HandleId, capacity: u32) -> bool {
        &&& 0 <= k < self.buffers.len()
        &&& self.accepts(k, asset, capacity)
        &&& forall|j: int| 0 <= j < k ==> !#[trigger] self.accepts(j, asset, capacity)
    }

    /// The index of the first buffer that accepts the effect, if any does.
    pub open spec fn first_accepting(self, asset: HandleId, capacity: u32) -> Option<int> {
        if exists|k: int| self.is_first_accepting(k, asset, capacity) {
            Some(choose|k: int| self.is_first_accepting(k, asset, capacity))
        } else {
            None
        }
    }

    /// The used size or the number of slices of the buffer at the index would exceed the largest
    /// integer, and the buffer is tried before any other accepts the effect.
    pub open spec fn overflows_at(self, k: int, asset: HandleId, capacity: u32) -> bool {
        &&& 0 <= k < self.buffers.len()
        &&& self.compatible(k, asset)
        &&& self.buffers[k].unwrap().allocation.allocate_overflows(capacity)
        &&& forall|j: int| 0 <= j < k ==> !#[trigger] self.accepts(j, asset, capacity)
    }

    /// The used size or the number of slices of some buffer that is tried would exceed the largest
    /// integer.
    pub open spec fn insert_overflows(self, asset: HandleId, capacity: u32) -> bool {
        exists|k: int| self.overflows_at(k, asset, capacity)
    }

    /// The effect needs a new buffer, and is too large for one.
    pub open spec fn effect_size_overflows(
        self,
        asset: HandleId,
        capacity: u32,
        particle_layout: ParticleLayout,
    ) -> bool {
        self.first_accepting(asset, capacity) is None && capacity
            * particle_layout.min_binding_size > u32::MAX
    }

    /// The first entry that is not used, or the entry past the last.
    pub open spec fn is_vacant_slot(self, k: int) -> bool {
        &&& 0 <= k <= self.buffers.len()
        &&& k < self.buffers.len() ==> self.buffers[k] is None
        &&& forall|j: int| 0 <= j < k ==> #[trigger] self.buffers[j] is Some
    }

    /// The index at which a new buffer is put.
    pub open spec fn vacant_slot(self) -> int {
        choose|k: int| self.is_vacant_slot(k)
    }

    /// The cache with a buffer put at an index and an effect in it.
    pub open spec fn with_effect(
        self,
        id: u64,
        k: int,
        buffer: BufferModel<B, L>,
        slice: SliceRef,
    ) -> Self {
        CacheModel {
            buffers: if k < self.buffers.len() {
                self.buffers.update(k, Some(buffer))
            } else {
                self.buffers.push(Some(buffer))
            },
            effects: self.effects.insert(id, (k as usize, slice)),
        }
    }

    /// The cache after an effect was inserted into the buffer at an index that accepts it.
    pub open spec fn with_effect_at(
        self,
        id: u64,
        k: int,
        capacity: u32,
        particle_layout: ParticleLayout,
    ) -> Self {
        let buffer = self.buffers[k].unwrap();
        let (range, allocation) = buffer.allocation.allocate(capacity).unwrap();
        self.with_effect(
            id,
            k,
            buffer.with_allocation(allocation),
            SliceRef { range, particle_layout },
        )
    }

    /// The cache after an effect was inserted into a new buffer.
    pub open spec fn with_effect_in_new_buffer(
        self,
        id: u64,
        capacity: u32,
        new: BufferModel<B, L>,
    ) -> Self {
        self.with_effect(
            id,
            self.vacant_slot(),
            new.with_allocation(
                Allocation { used_size: capacity, ..new.allocation.counting(capacity) },
            ),
            SliceRef {
                range: Range { start: 0, end: capacity },
                particle_layout: new.particle_layout,
            },
        )
    }

    /// The cache after an effect was removed, and the index of the buffer that was dropped.
    pub open spec fn without_effect(self, id: u64) -> (Self, Option<u32>) {
        if self.effects.contains_key(id) {
            let (k, slice) = self.effects[id];
            let effects = self.effects.remove(id);
            match self.buffers[k as int] {
                Some(buffer) => match buffer.allocation.release_state(slice.range) {
                    BufferState::Free => (
                        CacheModel { buffers: self.buffers.update(k as int, None), effects },
                        Some(k as u32),
                    ),
                    BufferState::Used => (
                        CacheModel {
                            buffers: self.buffers.update(
                                k as int,
                                Some(
                                    buffer.with_allocation(
                                        buffer.allocation.release(slice.range),
                                    ),
                                ),
                            ),
                            effects,
                        },
                        None,
                    ),
                },
                None => (CacheModel { effects, ..self }, None),
            }
        } else {
            (self, None)
        }
    }

    /// The GPU buffer holding the properties of an effect, if it has any.
    pub open spec fn property_buffer(self, id: u64) -> Option<B> {
        if self.effects.contains_key(id) {
            match self.buffers[self.effects[id].0 as int] {
                Some(buffer) => buffer.resources.properties_buffer,
                None => None,
            }
        } else {
            None
        }
    }

    /// Removing the effect would lower the used size of its buffer to zero below free slices.
    pub open spec fn remove_corrupts(self, id: u64) -> bool {
        &&& self.effects.contains_key(id)
        &&& self.buffers[self.effects[id].0 as int] matches Some(buffer)
            && buffer.allocation.release_corrupts(self.effects[id].1.range)
    }

    /// At most one buffer is the first that accepts an effect.
    pub proof fn lemma_first_accepting_is_unique(self, k: int, asset: HandleId, capacity: u32)
        requires
            self.is_first_accepting(k, asset, capacity),
        ensures
            self.first_accepting(asset, capacity) == Some(k),
    {
        let c = choose|c: int| self.is_first_accepting(c, asset, capacity);
        assert(self.is_first_accepting(c, asset, capacity));
    }

    /// At most one entry is the first that is not used.
    pub proof fn lemma_vacant_slot_is_unique(self, k: int)
        requires
            self.is_vacant_slot(k),
        ensures
            self.vacant_slot() == k,
    {
        let c = choose|c: int| self.is_vacant_slot(c);
        assert(self.is_vacant_slot(c));
        if c < k {
            assert(self.buffers[c] is Some);
        } else if k < c {
            assert(self.buffers[k] is Some);
        }
    }
}

impl<B, L> View for EffectCache<B, L> {
    type V = CacheModel<B, L>;

    closed spec fn view(&self) -> CacheModel<B, L> {
        CacheModel {
            buffers: slot_models(self.buffers@),
            effects: effect_entries(self.effects),
        }
    }
}

impl<B, L> EffectCache<B, L> {
    /// The cache is well formed.
    pub open spec fn wf(&self) -> bool {
        self@.wf()
    }

    /// Creates a cache without any buffer.
    pub fn new() -> (cache: Self)
        ensures
            cache.wf(),
            cache@.buffers.len() == 0,
            cache@.effects.is_empty(),
            cache@.consistent(),
    {
        EffectCache { buffers: Vec::new(), effects: EffectMap::new() }
    }

    /// The buffers of this cache, by index.
    pub fn buffers(&self) -> (buffers: &[Option<EffectBuffer<B, L>>])
        ensures
            slot_models(buffers@) == self@.buffers,
    {
        self.buffers.as_slice()
    }

    /// The buffers of this cache, by index, for modification.
    pub fn buffers_mut(&mut self) -> (buffers: &mut [Option<EffectBuffer<B, L>>])
        ensures
            slot_models(buffers@) == old(self)@.buffers,
            final(self)@.buffers == slot_models(final(buffers)@),
            final(self)@.effects == old(self)@.effects,
    {
        self.buffers.as_mut_slice()
    }

    /// Index of the first entry that is not used.
    fn find_vacant_slot(&self) -> (index: usize)
        ensures
            index == self@.vacant_slot(),
            self@.is_vacant_slot(index as int),
    {
        let mut index: usize = 0;
        while index < self.buffers.len() && self.buffers[index].is_some()
            invariant
                index <= self.buffers.len(),
                forall|j: int| 0 <= j < index ==> #[trigger] self.buffers@[j] is Some,
            decreases self.buffers.len() - index,
        {
            index += 1;
        }
        proof {
            self@.lemma_vacant_slot_is_unique(index as int);
        }
        index
    }

    /// Inserts an effect into the first buffer that stores effects of the same asset and has
    /// room for `capacity` particles. If there is none, leaves the cache as it is and describes
    /// the buffer to create.
    pub fn insert(
        &mut self,
        asset: HandleId,
        capacity: u32,
        particle_layout: &ParticleLayout,
        property_layout: &PropertyLayout,
        layout_flags: LayoutFlags,
        sizes: GpuRecordSizes,
        ids: &mut EffectCacheIds,
    ) -> (step: InsertStep)
        requires
            old(self).wf(),
            !old(self)@.insert_overflows(asset, capacity),
            !old(self)@.effect_size_overflows(asset, capacity, *particle_layout),
            old(self)@.first_accepting(asset, capacity) is None ==> !particle_layout.is_empty()
                && sizes.wf(),
        ensures
            final(self).wf(),
            match old(self)@.first_accepting(asset, capacity) {
                Some(k) => {
                    &&& step == InsertStep::Inserted(EffectCacheId(old(ids)@))
                    &&& final(ids)@ == next_number(old(ids)@)
                    &&& final(self)@ == old(self)@.with_effect_at(
                        old(ids)@,
                        k,
                        capacity,
                        *particle_layout,
                    )
                },
                None => {
                    &&& step matches InsertStep::CreateBuffer(new) && {
                        &&& new.buffer_index == old(self)@.vacant_slot()
                        &&& new.plan.backs(
                            capacity,
                            *particle_layout,
                            *property_layout,
                            layout_flags,
                            sizes,
                            Some(slot_label(new.buffer_index as nat)),
                        )
                    }
                    &&& final(ids)@ == old(ids)@
                    &&& final(self)@ == old(self)@
                },
            },
            old(self)@.consistent() && !old(self)@.effects.contains_key(old(ids)@)
                ==> final(self)@.consistent(),
    {
        let ghost model = self@;
        let mut index: usize = 0;
        while index < self.buffers.len()
            invariant
                index <= self.buffers.len(),
                self@ == model,
                model == old(self)@,
                ids@ == old(ids)@,
                model.wf(),
                !model.insert_overflows(asset, capacity),
                forall|j: int| 0 <= j < index ==> !#[trigger] model.accepts(j, asset, capacity),
            decreases self.buffers.len() - index,
        {
            assert(model.buffers[index as int] == slot_model(self.buffers@[index as int]));
            let mut slot: Option<SliceRef> = None;
            if let Some(buffer) = &mut self.buffers[index] {
                if buffer.is_compatible(&asset) {
                    proof {
                        assert(!model.overflows_at(index as int, asset, capacity));
                    }
                    slot = buffer.allocate_slice(capacity, particle_layout);
                }
            }
            assert(slot_models(self.buffers@)[index as int] == slot_model(
                self.buffers@[index as int],
            ));
            if let Some(slice) = slot {
                let id = EffectCacheId::new(ids);
                self.effects.insert(id.0, index, slice);
                proof {
                    assert(model.is_first_accepting(index as int, asset, capacity));
                    model.lemma_first_accepting_is_unique(index as int, asset, capacity);
                    assert(self@.buffers =~= model.with_effect_at(
                        id.0,
                        index as int,
                        capacity,
                        *particle_layout,
                    ).buffers);
                    if model.consistent() && !model.effects.contains_key(id.0) {
                        law_insert_keeps_consistency(
                            model,
                            id.0,
                            asset,
                            capacity,
                            *particle_layout,
                        );
                    }
                }
                return InsertStep::Inserted(id);
            }
            assert(slot_models(self.buffers@) =~= model.buffers);
            index += 1;
        }
        let buffer_index: usize = self.find_vacant_slot();
        let label = particle_buffer_label(buffer_index);
        let plan = EffectBufferPlan::new(
            capacity,
            particle_layout,
            property_layout,
            layout_flags,
            sizes,
            Some(label.as_str()),
        );
        InsertStep::CreateBuffer(NewBuffer { buffer_index, plan })
    }

    /// Whether the used size or the number of slices of a buffer that is tried for an effect
    /// would exceed the largest integer. Such an effect cannot be inserted.
    pub fn insert_overflows(&self, asset: &HandleId, capacity: u32) -> (overflows: bool)
        requires
            self.wf(),
        ensures
            overflows == self@.insert_overflows(*asset, capacity),
    {
        let mut index: usize = 0;
        while index < self.buffers.len()
            invariant
                index <= self.buffers.len(),
                self.wf(),
                forall|j: int| 0 <= j < index ==> !#[trigger] self@.accepts(j, *asset, capacity),
                forall|j: int|
                    0 <= j < index ==> !#[trigger] self@.overflows_at(j, *asset, capacity),
            decreases self.buffers.len() - index,
        {
            assert(self@.buffers[index as int] == slot_model(self.buffers@[index as int]));
            if let Some(buffer) = &self.buffers[index] {
                if buffer.is_compatible(asset) {
                    if buffer.allocation_overflows(capacity) {
                        assert(self@.overflows_at(index as int, *asset, capacity));
                        return true;
                    }
                    if buffer.can_allocate(capacity) {
                        assert(self@.accepts(index as int, *asset, capacity));
                        return false;
                    }
                }
            }
            index += 1;
        }
        false
    }

    /// Index of the first buffer that accepts an effect.
    fn find_accepting(&self, asset: &HandleId, capacity: u32) -> (index: Option<usize>)
        requires
            self.wf(),
        ensures
            match index {
                Some(index) => self@.first_accepting(*asset, capacity) == Some(index as int),
                None => self@.first_accepting(*asset, capacity) is None,
            },
    {
        let mut index: usize = 0;
        while index < self.buffers.len()
            invariant
                index <= self.buffers.len(),
                self.wf(),
                forall|j: int| 0 <= j < index ==> !#[trigger] self@.accepts(j, *asset, capacity),
            decreases self.buffers.len() - index,
        {
            assert(self@.buffers[index as int] == slot_model(self.buffers@[index as int]));
            if let Some(buffer) = &self.buffers[index] {
                if buffer.is_compatible(asset) && buffer.can_allocate(capacity) {
                    proof {
                        assert(self@.is_first_accepting(index as int, *asset, capacity));
                        self@.lemma_first_accepting_is_unique(index as int, *asset, capacity);
                    }
                    return Some(index);
                }
            }
            index += 1;
        }
        None
    }

    /// Whether no existing buffer accepts an effect, so that a new one has to be created.
    pub fn needs_new_buffer(&self, asset: &HandleId, capacity: u32) -> (needed: bool)
        requires
            self.wf(),
        ensures
            needed == (self@.first_accepting(*asset, capacity) is None),
    {
        self.find_accepting(asset, capacity).is_none()
    }

    /// Whether an effect needs a new buffer, and its size in bytes exceeds the largest 32-bit
    /// integer. Such an effect cannot be inserted.
    pub fn effect_size_overflows(
        &self,
        asset: &HandleId,
        capacity: u32,
        particle_layout: &ParticleLayout,
    ) -> (overflows: bool)
        requires
            self.wf(),
        ensures
            overflows == self@.effect_size_overflows(*asset, capacity, *particle_layout),
    {
        let item_size: u32 = particle_layout.min_binding_size;
        assert(capacity * item_size <= u64::MAX) by (nonlinear_arith)
            requires
                capacity <= u32::MAX,
                item_size <= u32::MAX,
        ;
        self.needs_new_buffer(asset, capacity) && capacity as u64 * item_size as u64
            > u32::MAX as u64
    }

    /// Inserts an effect into a new buffer, on top of the GPU objects that back it. The buffer is
    /// put into the first entry that is not used.
    ///
    /// The size of the effect in bytes must not exceed the largest 32-bit integer.
    pub fn insert_in_new_buffer(
        &mut self,
        asset: HandleId,
        capacity: u32,
        particle_layout: &ParticleLayout,
        property_layout: &PropertyLayout,
        layout_flags: LayoutFlags,
        resources: EffectBufferResources<B, L>,
        ids: &mut EffectCacheIds,
    ) -> (id: EffectCacheId)
        requires
            old(self).wf(),
            !particle_layout.is_empty(),
            capacity * particle_layout.min_binding_size <= u32::MAX,
            resources.properties_buffer is Some <==> !property_layout.is_empty(),
        ensures
            final(self).wf(),
            id.0 == old(ids)@,
            final(ids)@ == next_number(old(ids)@),
            final(self)@ == old(self)@.with_effect_in_new_buffer(
                old(ids)@,
                capacity,
                BufferModel::fresh(
                    asset,
                    capacity,
                    *particle_layout,
                    *property_layout,
                    layout_flags,
                    resources,
                ),
            ),
            old(self)@.consistent() && !old(self)@.effects.contains_key(old(ids)@)
                ==> final(self)@.consistent(),
    {
        let ghost model = self@;
        let buffer_index: usize = self.find_vacant_slot();
        let mut buffer = EffectBuffer::new(
            asset,
            capacity,
            *particle_layout,
            *property_layout,
            layout_flags,
            resources,
        );
        let ghost fresh = buffer@;
        assert(recycle(fresh.allocation.free_slices, capacity) is None);
        let slice = buffer.allocate_slice(capacity, particle_layout).unwrap();
        if buffer_index >= self.buffers.len() {
            self.buffers.push(Some(buffer));
        } else {
            self.buffers[buffer_index] = Some(buffer);
        }
        let id = EffectCacheId::new(ids);
        self.effects.insert(id.0, buffer_index, slice);
        proof {
            assert(self.buffers.len() == self.buffers@.len());
            assert(self@.buffers =~= model.with_effect_in_new_buffer(
                id.0,
                capacity,
                fresh,
            ).buffers);
            if model.consistent() && !model.effects.contains_key(id.0) {
                law_insert_in_new_buffer_keeps_consistency(model, id.0, capacity, fresh);
            }
        }
        id
    }

    /// The slice of an effect.
    pub fn get_slice(&self, id: EffectCacheId) -> (slice: EffectSlice)
        requires
            self@.effects.contains_key(id.0),
        ensures
            slice.slice == self@.effects[id.0].1.range,
            slice.group_index == self@.effects[id.0].0 as u32,
            slice.particle_layout == self@.effects[id.0].1.particle_layout,
    {
        let (buffer_index, slice) = self.effects.get(id.0).unwrap();
        EffectSlice {
            slice: slice.range.start..slice.range.end,
            group_index: #[verifier::truncate] (*buffer_index as u32),
            particle_layout: slice.particle_layout,
        }
    }

    /// The GPU buffer holding the properties of an effect, if it has any.
    pub fn get_property_buffer(&self, id: EffectCacheId) -> (buffer: Option<&B>)
        requires
            self.wf(),
        ensures
            match buffer {
                Some(buffer) => self@.property_buffer(id.0) == Some(*buffer),
                None => self@.property_buffer(id.0) is None,
            },
    {
        if let Some((buffer_index, _)) = self.effects.get(id.0) {
            assert(self@.buffers[*buffer_index as int] == slot_model(
                self.buffers@[*buffer_index as int],
            ));
            if let Some(buffer) = &self.buffers[*buffer_index] {
                buffer.properties_buffer()
            } else {
                None
            }
        } else {
            None
        }
    }

    /// The zero-based index of the buffer of an effect.
    pub fn buffer_index(&self, id: EffectCacheId) -> (index: Option<usize>)
        ensures
            match index {
                Some(index) => self@.effects.contains_key(id.0) && index
                    == self@.effects[id.0].0,
                None => !self@.effects.contains_key(id.0),
            },
    {
        match self.effects.get(id.0) {
            Some((buffer_index, _)) => Some(*buffer_index),
            None => None,
        }
    }

    /// Whether removing an effect would lower the used size of its buffer to zero below free
    /// slices. That cannot happen in a consistent cache.
    pub fn remove_corrupts(&self, id: EffectCacheId) -> (corrupts: bool)
        requires
            self.wf(),
        ensures
            corrupts == self@.remove_corrupts(id.0),
    {
        if let Some((buffer_index, slice)) = self.effects.get(id.0) {
            assert(self@.effects.contains_key(id.0));
            assert(self@.buffers[*buffer_index as int] == slot_model(
                self.buffers@[*buffer_index as int],
            ));
            if let Some(buffer) = &self.buffers[*buffer_index] {
                return buffer.free_slice_corrupts(slice);
            }
        }
        false
    }

    /// Removes an effect from the cache. If this was the last effect in its buffer, drops the
    /// buffer and returns its index.
    pub fn remove(&mut self, id: EffectCacheId) -> (dropped: Option<u32>)
        requires
            old(self).wf(),
            old(self)@.consistent() || !old(self)@.remove_corrupts(id.0),
        ensures
            final(self).wf(),
            (final(self)@, dropped) == old(self)@.without_effect(id.0),
            old(self)@.consistent() ==> final(self)@.consistent(),
            old(self)@.consistent() && old(self)@.effects.contains_key(id.0) ==> (dropped is Some
                <==> old(self)@.is_last_effect(id.0, old(self)@.effects[id.0].0 as int)),
    {
        let ghost model = self@;
        proof {
            if model.consistent() {
                law_remove_drops_buffer_of_last_effect(model, id.0);
            }
        }
        if let Some((buffer_index, slice)) = self.effects.remove(id.0) {
            assert(model.buffers[buffer_index as int] == slot_model(
                self.buffers@[buffer_index as int],
            ));
            let mut state = BufferState::Used;
            if let Some(buffer) = &mut self.buffers[buffer_index] {
                state = buffer.free_slice(slice);
            }
            if state == BufferState::Free {
                self.buffers[buffer_index] = None;
                assert(self@.buffers =~= model.without_effect(id.0).0.buffers);
                return Some(#[verifier::truncate] (buffer_index as u32));
            }
            assert(self@.buffers =~= model.without_effect(id.0).0.buffers);
        } else {
            assert(self@.effects =~= model.effects);
        }
        None
    }
}

} // verus!
