//! Buffers that hold the particles of effects.
use bevy::asset::HandleId;
use std::ops::Range;
use vstd::prelude::*;

use crate::allocation::{
    best_fit, drain, fill_gap, fits, insert_ordered, is_best_fit, is_gap,
    lemma_best_fit_is_unique, lemma_filled_gap_is_ordered, lemma_gap_is_unique, ordered,
    overlaps_any, overlaps_particles, range_len, recycle, round_capacity, rounded_capacity,
    separate, Allocation, BufferState, MIN_CAPACITY,
};
use crate::asset::same_asset;
use crate::layout::{LayoutFlags, ParticleLayout, PropertyLayout};
use crate::slice::SliceRef;

verus! {

/// The GPU objects that back an effect buffer.
#[derive(Debug)]
pub struct EffectBufferResources<B, L> {
    /// GPU buffer holding all particles.
    pub particle_buffer: B,
    /// GPU buffer holding the indirection indices. This is a triple buffer containing:
    /// - the ping-pong alive particles and render indirect indices at offsets 0 and 1
    /// - the dead particle indices at offset 2
    pub indirect_buffer: B,
    /// GPU buffer holding the properties of the effect, if it has any.
    pub properties_buffer: Option<B>,
    /// Layout of the bind group of the simulation passes.
    pub particles_buffer_layout_simulate: L,
    /// Layout of the bind group of the render pass.
    pub particles_buffer_layout_with_dispatch: L,
}

/// A binding of the first bytes of a GPU buffer.
#[derive(Debug)]
pub struct BufferBinding<'a, B> {
    /// The bound buffer.
    pub buffer: &'a B,
    /// Offset of the first bound byte.
    pub offset: u64,
    /// Number of bound bytes. Never zero.
    pub size: u64,
}

/// Storage for the particles of the instances of a single effect asset.
///
/// All particles in a buffer have the same layout, fixed at creation.
#[derive(Debug)]
pub struct EffectBuffer<B, L> {
    resources: EffectBufferResources<B, L>,
    /// Layout of particles.
    particle_layout: ParticleLayout,
    /// Layout of the properties of the effect.
    property_layout: PropertyLayout,
    /// Flags of the effect.
    layout_flags: LayoutFlags,
    /// Total capacity, in number of particles.
    capacity: u32,
    /// Used size, in number of particles, either from allocated slices or from slices in the
    /// free list.
    used_size: u32,
    /// Free slices for new allocations, sorted in increasing order.
    free_slices: Vec<Range<u32>>,
    /// Number of allocated slices that hold particles.
    slice_count: u64,
    /// Number of allocated slices without any particle.
    empty_count: u64,
    /// Identifier of the asset of all effects in this buffer.
    asset: HandleId,
}

/// What an effect buffer stands for.
pub struct BufferModel<B, L> {
    /// The GPU objects that back the buffer.
    pub resources: EffectBufferResources<B, L>,
    /// Layout of particles.
    pub particle_layout: ParticleLayout,
    /// Layout of the properties of the effect.
    pub property_layout: PropertyLayout,
    /// Flags of the effect.
    pub layout_flags: LayoutFlags,
    /// Identifier of the asset of all effects in this buffer.
    pub asset: HandleId,
    /// Which particles are in use.
    pub allocation: Allocation,
}

impl<B, L> BufferModel<B, L> {
    /// The model of a new buffer.
    pub open spec fn fresh(
        asset: HandleId,
        capacity: u32,
        particle_layout: ParticleLayout,
        property_layout: PropertyLayout,
        layout_flags: LayoutFlags,
        resources: EffectBufferResources<B, L>,
    ) -> Self {
        BufferModel {
            resources,
            particle_layout,
            property_layout,
            layout_flags,
            asset,
            allocation: Allocation::unused(rounded_capacity(capacity)),
        }
    }

    /// The same buffer with another allocation state.
    pub open spec fn with_allocation(self, allocation: Allocation) -> Self {
        BufferModel { allocation, ..self }
    }

    /// A buffer always has particles with a size, and a properties buffer exactly if the effect
    /// has properties.
    pub open spec fn wf(self) -> bool {
        &&& !self.particle_layout.is_empty()
        &&& self.resources.properties_buffer is Some <==> !self.property_layout.is_empty()
        &&& self.allocation.wf()
    }
}

impl<B, L> View for EffectBuffer<B, L> {
    type V = BufferModel<B, L>;

    closed spec fn view(&self) -> BufferModel<B, L> {
        BufferModel {
            resources: self.resources,
            particle_layout: self.particle_layout,
            property_layout: self.property_layout,
            layout_flags: self.layout_flags,
            asset: self.asset,
            allocation: Allocation {
                capacity: self.capacity,
                used_size: self.used_size,
                free_slices: self.free_slices@,
                slice_count: self.slice_count,
                empty_count: self.empty_count,
            },
        }
    }
}

impl<B, L> EffectBuffer<B, L> {
    /// Minimum buffer capacity, in number of particles.
    pub const MIN_CAPACITY: u32 = MIN_CAPACITY;

    /// The buffer is well formed.
    pub open spec fn wf(&self) -> bool {
        self@.wf()
    }

    /// Creates a buffer without any slice, on top of the GPU objects that back it.
    ///
    /// The buffer cannot contain less than `MIN_CAPACITY` particles. If `capacity` is smaller,
    /// it is rounded up.
    pub fn new(
        asset: HandleId,
        capacity: u32,
        particle_layout: ParticleLayout,
        property_layout: PropertyLayout,
        layout_flags: LayoutFlags,
        resources: EffectBufferResources<B, L>,
    ) -> (buffer: Self)
        requires
            !particle_layout.is_empty(),
            resources.properties_buffer is Some <==> !property_layout.is_empty(),
        ensures
            buffer.wf(),
            buffer@ == BufferModel::fresh(
                asset,
                capacity,
                particle_layout,
                property_layout,
                layout_flags,
                resources,
            ),
    {
        let capacity: u32 = round_capacity(capacity);
        let buffer = EffectBuffer {
            resources,
            particle_layout,
            property_layout,
            layout_flags,
            capacity,
            used_size: 0,
            free_slices: Vec::new(),
            slice_count: 0,
            empty_count: 0,
            asset,
        };
        assert(buffer@.allocation =~= Allocation::unused(capacity));
        buffer
    }

    /// Index of the free slice that fits `size` particles best: the shortest one that is long
    /// enough, and the first of those.
    fn find_best_fit(&self, size: u32) -> (index: Option<usize>)
        requires
            self.wf(),
        ensures
            match index {
                Some(i) => best_fit(self@.allocation.free_slices, size) == Some(i as int)
                    && is_best_fit(self@.allocation.free_slices, size, i as int),
                None => best_fit(self@.allocation.free_slices, size) is None,
            },
    {
        let mut best: Option<usize> = None;
        let mut best_capacity: u32 = u32::MAX;
        let mut index: usize = 0;
        while index < self.free_slices.len()
            invariant
                index <= self.free_slices.len(),
                ordered(self.free_slices@),
                match best {
                    Some(i) => {
                        &&& i < index
                        &&& fits(self.free_slices@, size, i as int)
                        &&& best_capacity == range_len(self.free_slices@[i as int])
                        &&& forall|j: int|
                            0 <= j < index && #[trigger] fits(self.free_slices@, size, j)
                                ==> best_capacity <= range_len(self.free_slices@[j])
                        &&& forall|j: int|
                            0 <= j < i && #[trigger] fits(self.free_slices@, size, j)
                                ==> best_capacity < range_len(self.free_slices@[j])
                    },
                    None => best_capacity == u32::MAX && forall|j: int|
                        0 <= j < index ==> !#[trigger] fits(self.free_slices@, size, j),
                },
            decreases self.free_slices.len() - index,
        {
            let slice = &self.free_slices[index];
            let capacity: u32 = slice.end - slice.start;
            assert(capacity == range_len(self.free_slices@[index as int]));
            if size <= capacity && capacity < best_capacity {
                best = Some(index);
                best_capacity = capacity;
            }
            index += 1;
        }
        proof {
            let free = self.free_slices@;
            match best {
                Some(i) => {
                    assert(is_best_fit(free, size, i as int));
                    lemma_best_fit_is_unique(free, size, i as int);
                },
                None => {
                    assert forall|i: int| !is_best_fit(free, size, i) by {
                        if 0 <= i < free.len() {
                            assert(!fits(free, size, i));
                        }
                    }
                },
            }
        }
        best
    }

    /// Tries to recycle a free slice to store `size` particles.
    fn pop_free_slice(&mut self, size: u32) -> (slice: Option<Range<u32>>)
        requires
            old(self).wf(),
        ensures
            final(self)@.wf(),
            match recycle(old(self)@.allocation.free_slices, size) {
                Some((range, free_slices)) => {
                    &&& slice == Some(range)
                    &&& final(self)@ == old(self)@.with_allocation(
                        Allocation { free_slices, ..old(self)@.allocation },
                    )
                },
                None => slice is None && final(self)@ == old(self)@,
            },
    {
        match self.find_best_fit(size) {
            Some(index) => {
                let start: u32 = self.free_slices[index].start;
                let end: u32 = self.free_slices[index].end;
                if start >= end {
                    None
                } else if end - start > size {
                    // split
                    let used_end: u32 = start + size;
                    self.free_slices[index] = used_end..end;
                    Some(start..used_end)
                } else {
                    // recycle entirely
                    Some(self.free_slices.remove(index))
                }
            },
            None => None,
        }
    }

    /// Allocates a slice in the buffer to store the particles of a single effect.
    ///
    /// Returns `None`, and leaves the buffer as it is, if there is no room for it.
    pub fn allocate_slice(&mut self, capacity: u32, particle_layout: &ParticleLayout) -> (slice:
        Option<SliceRef>)
        requires
            old(self).wf(),
            !old(self)@.allocation.allocate_overflows(capacity),
        ensures
            final(self).wf(),
            match old(self)@.allocation.allocate(capacity) {
                Some((range, allocation)) => {
                    &&& slice == Some(SliceRef { range, particle_layout: *particle_layout })
                    &&& final(self)@ == old(self)@.with_allocation(allocation)
                },
                None => slice is None && final(self)@ == old(self)@,
            },
    {
        if capacity > self.capacity {
            return None;
        }
        let range = match self.pop_free_slice(capacity) {
            Some(range) => range,
            None => {
                let new_size: u32 = self.used_size + capacity;
                if new_size <= self.capacity {
                    let range = self.used_size..new_size;
                    self.used_size = new_size;
                    range
                } else {
                    return None;
                }
            },
        };
        if capacity == 0 {
            self.empty_count += 1;
        } else {
            self.slice_count += 1;
        }
        Some(SliceRef { range, particle_layout: *particle_layout })
    }

    /// Whether allocating a slice would raise the used size or the number of slices past the
    /// largest integer. Such a slice cannot be requested.
    pub fn allocation_overflows(&self, capacity: u32) -> (overflows: bool)
        requires
            self.wf(),
        ensures
            overflows == self@.allocation.allocate_overflows(capacity),
    {
        let count: u64 = if capacity == 0 {
            self.empty_count
        } else {
            self.slice_count
        };
        if count == u64::MAX && self.can_allocate(capacity) {
            return true;
        }
        capacity <= self.capacity && !self.can_recycle(capacity) && self.used_size > u32::MAX
            - capacity
    }

    /// Whether a free slice can be recycled to store `size` particles.
    fn can_recycle(&self, size: u32) -> (can: bool)
        requires
            self.wf(),
        ensures
            can == (recycle(self@.allocation.free_slices, size) is Some),
    {
        match self.find_best_fit(size) {
            Some(index) => self.free_slices[index].start < self.free_slices[index].end,
            None => false,
        }
    }

    /// Whether there is room for a slice.
    pub fn can_allocate(&self, capacity: u32) -> (can: bool)
        requires
            self.wf(),
        ensures
            can == (self@.allocation.allocate(capacity) is Some),
    {
        capacity <= self.capacity && (self.can_recycle(capacity) || capacity <= self.capacity
            - self.used_size)
    }

    /// Looks for the place of a range among the free slices: the index of the first one that does
    /// not end before the range starts, the index past those that lie inside the range without
    /// holding any particle, and whether the next one overlaps the range.
    fn search_free_slices(&self, range: &Range<u32>) -> (place: (usize, usize, bool))
        requires
            self.wf(),
            range.start <= range.end,
        ensures
            ({
                let free = self@.allocation.free_slices;
                let (first, past, overlaps) = place;
                &&& overlaps == overlaps_particles(free, *range)
                &&& !overlaps ==> is_gap(free, *range, first as int, past as int)
                &&& overlaps_any(free, *range) == (overlaps || first < past)
                &&& range.start == range.end ==> overlaps_any(free, *range) == overlaps
            }),
    {
        let mut first: usize = 0;
        let mut high: usize = self.free_slices.len();
        while first < high
            invariant
                first <= high <= self.free_slices.len(),
                ordered(self.free_slices@),
                forall|i: int|
                    0 <= i < first ==> (#[trigger] self.free_slices@[i]).end <= range.start,
                forall|i: int|
                    high <= i < self.free_slices.len() ==> (#[trigger] self.free_slices@[i]).end
                        > range.start,
            decreases high - first,
        {
            let middle: usize = first + (high - first) / 2;
            if self.free_slices[middle].end <= range.start {
                first = middle + 1;
            } else {
                high = middle;
            }
        }
        let mut past: usize = first;
        while past < self.free_slices.len() && self.free_slices[past].start < range.end
            && self.free_slices[past].start == self.free_slices[past].end
            invariant
                first <= past <= self.free_slices.len(),
                forall|i: int|
                    first <= i < past ==> (#[trigger] self.free_slices@[i]).start
                        == self.free_slices@[i].end && self.free_slices@[i].start < range.end,
            decreases self.free_slices.len() - past,
        {
            past += 1;
        }
        let overlaps = past < self.free_slices.len() && self.free_slices[past].start < range.end;
        proof {
            let free = self.free_slices@;
            if overlaps {
                assert(!separate(free[past as int], *range));
            } else {
                assert forall|i: int| past <= i < free.len() implies (#[trigger] free[i]).start
                    >= range.end by {
                    assert(free[past as int].start >= range.end);
                }
            }
            if first < past {
                assert(!separate(free[first as int], *range));
            }
        }
        (first, past, overlaps)
    }

    /// Puts a range into a gap between the free slices, in the place of those inside it.
    fn insert_free_slice(&mut self, range: Range<u32>, first: usize, past: usize)
        requires
            old(self).wf(),
            range.start <= range.end,
            is_gap(old(self)@.allocation.free_slices, range, first as int, past as int),
        ensures
            final(self).wf(),
            final(self)@ == old(self)@.with_allocation(
                Allocation {
                    free_slices: insert_ordered(old(self)@.allocation.free_slices, range),
                    ..old(self)@.allocation
                },
            ),
    {
        let ghost free = self.free_slices@;
        let mut inside: usize = past - first;
        assert(free.take(first as int) + free.skip(past - inside) =~= free);
        while inside > 0
            invariant
                first <= past <= free.len(),
                inside <= past - first,
                self.free_slices@ == free.take(first as int) + free.skip(past - inside),
                self@ == old(self)@.with_allocation(self@.allocation),
                self@.allocation == (Allocation {
                    free_slices: self.free_slices@,
                    ..old(self)@.allocation
                }),
            decreases inside,
        {
            self.free_slices.remove(first);
            inside -= 1;
            assert(self.free_slices@ =~= free.take(first as int) + free.skip(past - inside));
        }
        self.free_slices.insert(first, range);
        proof {
            lemma_gap_is_unique(free, range, first as int, past as int);
            lemma_filled_gap_is_ordered(free, range, first as int, past as int);
            assert(self.free_slices@ =~= fill_gap(free, range, first as int, past as int));
        }
    }

    /// Lowers the used size to the start of a range that ends there, and further past the free
    /// slices that then end there.
    fn lower_used_size(&mut self, range: &Range<u32>)
        requires
            old(self).wf(),
            range.start <= range.end,
            range.end == old(self)@.allocation.used_size,
        ensures
            final(self).wf(),
            ({
                let (used_size, free_slices) = drain(
                    range.start,
                    old(self)@.allocation.free_slices,
                );
                final(self)@ == old(self)@.with_allocation(
                    Allocation { used_size, free_slices, ..old(self)@.allocation },
                )
            }),
    {
        self.used_size = range.start;
        // Check other free slices to further reduce the used size and drain the free list
        while self.free_slices.len() > 0 && self.free_slices[self.free_slices.len() - 1].end
            == self.used_size
            invariant
                drain(self.used_size, self.free_slices@) == drain(
                    range.start,
                    old(self)@.allocation.free_slices,
                ),
                ordered(self.free_slices@),
                self.used_size <= self.capacity,
                self@ == old(self)@.with_allocation(self@.allocation),
                self@.allocation == (Allocation {
                    used_size: self.used_size,
                    free_slices: self.free_slices@,
                    ..old(self)@.allocation
                }),
                old(self).wf(),
            decreases self.free_slices.len(),
        {
            let last: usize = self.free_slices.len() - 1;
            self.used_size = self.free_slices[last].start;
            self.free_slices.pop();
        }
    }

    /// Frees an allocated slice, and if this was the last allocated slice also frees the buffer,
    /// which is then as new.
    ///
    /// A range that is free already, or that no allocated slice can have, is not counted as an
    /// allocated slice.
    pub fn free_slice(&mut self, slice: SliceRef) -> (state: BufferState)
        requires
            old(self).wf(),
            slice.wf(),
            !old(self)@.allocation.release_corrupts(slice.range),
        ensures
            final(self).wf(),
            final(self)@ == old(self)@.with_allocation(
                old(self)@.allocation.release(slice.range),
            ),
            state == old(self)@.allocation.release_state(slice.range),
    {
        let range = slice.range;
        let (first, past, overlaps) = self.search_free_slices(&range);
        let holds_particles = range.start < range.end;
        let frees = if holds_particles {
            self.slice_count > 0 && range.end <= self.used_size && !overlaps
        } else {
            self.empty_count > 0 && range.end <= self.capacity
        };
        assert(frees == self@.allocation.frees(range));
        if frees {
            if holds_particles {
                self.slice_count -= 1;
            } else {
                self.empty_count -= 1;
            }
            if self.slice_count == 0 && self.empty_count == 0 {
                // No slice is allocated anymore
                self.used_size = 0;
                self.free_slices.clear();
                return BufferState::Free;
            }
        }
        if range.end == self.used_size {
            // The slice is at the end of the buffer; reduce the total used size
            self.lower_used_size(&range);
            if self.used_size == 0 && self.slice_count == 0 && self.empty_count == 0 {
                return BufferState::Free;
            }
        } else if !overlaps && ((frees && holds_particles) || first == past) {
            // The slice is not at the end; insert it in the free list
            self.insert_free_slice(range, first, past);
        }
        BufferState::Used
    }

    /// Whether a range is not at the end of the used part, and some of it is free already.
    /// Freeing it then adds no free slice.
    pub fn is_already_free(&self, slice: &SliceRef) -> (already_free: bool)
        requires
            self.wf(),
            slice.wf(),
        ensures
            already_free == self@.allocation.already_free(slice.range),
    {
        let (first, past, overlaps) = self.search_free_slices(&slice.range);
        let holds_particles = slice.range.start < slice.range.end;
        let frees = holds_particles && self.slice_count > 0 && slice.range.end <= self.used_size
            && !overlaps;
        slice.range.end != self.used_size && (overlaps || (!frees && first < past))
    }

    /// Whether freeing a slice would lower the used size to zero below free slices. That cannot
    /// happen with a slice in use.
    pub fn free_slice_corrupts(&self, slice: &SliceRef) -> (corrupts: bool)
        requires
            self.wf(),
            slice.wf(),
        ensures
            corrupts == self@.allocation.release_corrupts(slice.range),
    {
        if slice.range.end != self.used_size {
            return false;
        }
        let mut used_size: u32 = slice.range.start;
        let mut remaining: usize = self.free_slices.len();
        assert(self.free_slices@.take(remaining as int) =~= self.free_slices@);
        while remaining > 0 && self.free_slices[remaining - 1].end == used_size
            invariant
                remaining <= self.free_slices.len(),
                drain(used_size, self.free_slices@.take(remaining as int)) == drain(
                    slice.range.start,
                    self.free_slices@,
                ),
            decreases remaining,
        {
            let ghost before = self.free_slices@.take(remaining as int);
            used_size = self.free_slices[remaining - 1].start;
            remaining -= 1;
            assert(before.drop_last() =~= self.free_slices@.take(remaining as int));
        }
        if used_size != 0 || remaining == 0 {
            return false;
        }
        let ghost rest = self.free_slices@.take(remaining as int);
        assert(drain(slice.range.start, self.free_slices@) == (0u32, rest));
        let (_, _, overlaps) = self.search_free_slices(&slice.range);
        let frees = if slice.range.start < slice.range.end {
            self.slice_count > 0 && !overlaps
        } else {
            self.empty_count > 0
        };
        assert(frees == self@.allocation.frees(slice.range));
        if !frees {
            return true;
        }
        let mut index: usize = 0;
        while index < remaining
            invariant
                index <= remaining <= self.free_slices.len(),
                ordered(self.free_slices@),
                rest == self.free_slices@.take(remaining as int),
                rest.len() > 0,
                slice.range.end == self.used_size,
                drain(slice.range.start, self.free_slices@) == (0u32, rest),
                forall|i: int| 0 <= i < index ==> (#[trigger] rest[i]).start >= rest[i].end,
            decreases remaining - index,
        {
            if self.free_slices[index].start < self.free_slices[index].end {
                assert(rest[index as int].start < rest[index as int].end);
                assert(self@.allocation.release_corrupts(slice.range));
                return true;
            }
            index += 1;
        }
        false
    }

    /// Whether the effects of an asset can be stored in this buffer.
    pub fn is_compatible(&self, handle: &HandleId) -> (compatible: bool)
        ensures
            compatible == (*handle == self@.asset),
    {
        same_asset(handle, &self.asset)
    }

    /// The GPU buffer holding the properties of the effect, if it has any.
    pub fn properties_buffer(&self) -> (buffer: Option<&B>)
        ensures
            match buffer {
                Some(buffer) => self@.resources.properties_buffer == Some(*buffer),
                None => self@.resources.properties_buffer is None,
            },
    {
        match &self.resources.properties_buffer {
            Some(buffer) => Some(buffer),
            None => None,
        }
    }

    /// The layout of particles.
    pub fn particle_layout(&self) -> (layout: &ParticleLayout)
        ensures
            *layout == self@.particle_layout,
    {
        &self.particle_layout
    }

    /// The layout of the properties of the effect.
    pub fn property_layout(&self) -> (layout: &PropertyLayout)
        ensures
            *layout == self@.property_layout,
    {
        &self.property_layout
    }

    /// The flags of the effect.
    pub fn layout_flags(&self) -> (flags: LayoutFlags)
        ensures
            flags == self@.layout_flags,
    {
        self.layout_flags
    }

    /// The layout of the bind group of the simulation passes.
    pub fn particle_layout_bind_group_simulate(&self) -> (layout: &L)
        ensures
            *layout == self@.resources.particles_buffer_layout_simulate,
    {
        &self.resources.particles_buffer_layout_simulate
    }

    /// The layout of the bind group of the render pass.
    pub fn particle_layout_bind_group_with_dispatch(&self) -> (layout: &L)
        ensures
            *layout == self@.resources.particles_buffer_layout_with_dispatch,
    {
        &self.resources.particles_buffer_layout_with_dispatch
    }

    /// Total capacity, in number of particles.
    pub fn capacity(&self) -> (capacity: u32)
        ensures
            capacity == self@.allocation.capacity,
    {
        self.capacity
    }

    /// Used size, in number of particles, either from allocated slices or from free slices.
    pub fn used_size(&self) -> (size: u32)
        ensures
            size == self@.allocation.used_size,
    {
        self.used_size
    }

    /// Number of allocated slices that hold particles.
    pub fn slice_count(&self) -> (count: u64)
        ensures
            count == self@.allocation.slice_count,
    {
        self.slice_count
    }

    /// Number of allocated slices without any particle.
    pub fn empty_count(&self) -> (count: u64)
        ensures
            count == self@.allocation.empty_count,
    {
        self.empty_count
    }

    /// Slices that wait to be recycled, sorted in increasing order.
    pub fn free_slices(&self) -> (slices: &[Range<u32>])
        ensures
            slices@ == self@.allocation.free_slices,
    {
        self.free_slices.as_slice()
    }

    /// A binding for the entire particle buffer.
    pub fn max_binding(&self) -> (binding: BufferBinding<'_, B>)
        requires
            self.wf(),
        ensures
            *binding.buffer == self@.resources.particle_buffer,
            binding.offset == 0,
            binding.size == self@.allocation.capacity * self@.particle_layout.min_binding_size,
            binding.size > 0,
    {
        let capacity: u32 = self.capacity;
        let item_size: u64 = self.particle_layout.min_binding_size();
        assert(0 < capacity * item_size <= u64::MAX) by (nonlinear_arith)
            requires
                0 < capacity <= u32::MAX,
                0 < item_size <= u32::MAX,
        ;
        BufferBinding {
            buffer: &self.resources.particle_buffer,
            offset: 0,
            size: capacity as u64 * item_size,
        }
    }

    /// A binding of the particle buffer for a starting range of a given size, in bytes.
    pub fn binding(&self, size: u32) -> (binding: BufferBinding<'_, B>)
        requires
            size > 0,
        ensures
            *binding.buffer == self@.resources.particle_buffer,
            binding.offset == 0,
            binding.size == size,
    {
        BufferBinding { buffer: &self.resources.particle_buffer, offset: 0, size: size as u64 }
    }

    /// A binding for the entire indirect buffer.
    pub fn indirect_max_binding(&self) -> (binding: BufferBinding<'_, B>)
        requires
            self.wf(),
        ensures
            *binding.buffer == self@.resources.indirect_buffer,
            binding.offset == 0,
            binding.size == self@.allocation.capacity * 12,
            binding.size > 0,
    {
        BufferBinding {
            buffer: &self.resources.indirect_buffer,
            offset: 0,
            size: self.capacity as u64 * 4 * 3,
        }
    }

    /// A binding for the entire properties buffer, if there is one.
    pub fn properties_max_binding(&self) -> (binding: Option<BufferBinding<'_, B>>)
        requires
            self.wf(),
        ensures
            match binding {
                Some(binding) => {
                    &&& self@.resources.properties_buffer == Some(*binding.buffer)
                    &&& binding.offset == 0
                    &&& binding.size == self@.property_layout.min_binding_size
                    &&& binding.size > 0
                },
                None => self@.resources.properties_buffer is None,
            },
    {
        match &self.resources.properties_buffer {
            Some(buffer) => Some(
                BufferBinding {
                    buffer,
                    offset: 0,
                    size: self.property_layout.min_binding_size(),
                },
            ),
            None => None,
        }
    }
}

} // verus!
