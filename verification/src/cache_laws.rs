//! What holds of a cache across operations.
use bevy::asset::HandleId;
use std::ops::Range;
use vstd::prelude::*;

use crate::allocation::{
    apart, best_fit, fits, is_best_fit, range_len, recycle, rounded_capacity, separate, Allocation,
    BufferState,
};
use crate::allocation_laws::{
    law_allocate_keeps_slices_apart, law_allocate_takes_unused_particles,
    law_allocate_uses_any_room, law_release_ends_use, law_release_keeps_other_slices,
    law_release_of_last_slice_frees_buffer, law_release_undoes_allocate,
};
use crate::buffer::{BufferModel, EffectBuffer, EffectBufferResources};
use crate::cache::{next_number, slot_models, CacheModel, EffectCacheId};
use crate::layout::{LayoutFlags, ParticleLayout, PropertyLayout};
use crate::slice::SliceRef;

verus! {

impl<B, L> CacheModel<B, L> {
    /// The effect is stored in the buffer at an index.
    pub open spec fn stored_in(self, id: u64, k: int) -> bool {
        self.effects.contains_key(id) && self.effects[id].0 == k
    }

    /// The particle belongs to an effect stored in the buffer at an index.
    pub open spec fn owned(self, k: int, particle: int) -> bool {
        exists|id: u64| #[trigger]
            self.stored_in(id, k) && self.effects[id].1.range.start <= particle
                < self.effects[id].1.range.end
    }

    /// The effects stored in the buffer at an index that hold particles, or those that do not.
    pub open spec fn stored(self, k: int, empty: bool) -> Set<u64> {
        self.effects.dom().filter(
            |id: u64| self.effects[id].0 == k && self.is_empty_effect(id) == empty,
        )
    }

    /// The slice of the effect holds no particle.
    pub open spec fn is_empty_effect(self, id: u64) -> bool {
        self.effects[id].1.range.start >= self.effects[id].1.range.end
    }

    /// No other effect is stored in the buffer at an index.
    pub open spec fn is_last_effect(self, id: u64, k: int) -> bool {
        forall|other: u64| #[trigger] self.stored_in(other, k) ==> other == id
    }

    /// Effects have slices inside existing buffers, no two effects share a particle, every
    /// particle in use belongs to an effect, and a buffer counts the effects stored in it and
    /// exists only as long as there are any. Effects without any particle are no exception.
    pub open spec fn consistent(self) -> bool {
        &&& self.wf()
        &&& self.effects.dom().finite()
        &&& forall|id: u64| #[trigger]
            self.effects.contains_key(id) ==> {
                let (k, slice) = self.effects[id];
                self.buffers[k as int] matches Some(buffer) && buffer.allocation.holds(
                    slice.range,
                )
            }
        &&& forall|id: u64, other: u64| #[trigger]
            self.effects.contains_key(id) && #[trigger] self.effects.contains_key(other) && id
                != other && self.effects[id].0 == self.effects[other].0 ==> apart(
                self.effects[id].1.range,
                self.effects[other].1.range,
            )
        &&& forall|k: int|
            0 <= k < self.buffers.len() ==> (#[trigger] self.buffers[k] matches Some(buffer) ==> {
                &&& buffer.allocation.settled()
                &&& buffer.allocation.slice_count == self.stored(k, false).len()
                &&& buffer.allocation.empty_count == self.stored(k, true).len()
                &&& buffer.allocation.slice_count + buffer.allocation.empty_count > 0
                &&& forall|particle: int| #[trigger]
                    buffer.allocation.live(particle) ==> self.owned(k, particle)
            })
    }
}

/// A cache without buffers and effects is consistent, and no buffer in it is shared.
pub proof fn law_new_cache_is_consistent<B, L>(cache: CacheModel<B, L>)
    requires
        cache.buffers.len() == 0,
        cache.effects.is_empty(),
    ensures
        cache.consistent(),
        cache.unshared(),
{
}

/// The first buffer that accepts an effect can count one more slice.
proof fn lemma_room_to_count<B, L>(cache: CacheModel<B, L>, asset: HandleId, capacity: u32)
    requires
        cache.first_accepting(asset, capacity) is Some,
        !cache.insert_overflows(asset, capacity),
    ensures
        ({
            let k = cache.first_accepting(asset, capacity).unwrap();
            &&& cache.is_first_accepting(k, asset, capacity)
            &&& !cache.buffers[k].unwrap().allocation.allocate_overflows(capacity)
        }),
{
    let k = cache.first_accepting(asset, capacity).unwrap();
    assert(cache.is_first_accepting(k, asset, capacity));
    assert(!cache.overflows_at(k, asset, capacity));
}

/// Adding an effect adds it to the effects of its buffer, and changes those of no other.
proof fn lemma_stored_after_insert<B, L>(before: CacheModel<B, L>, after: CacheModel<B, L>, id: u64)
    requires
        before.effects.dom().finite(),
        !before.effects.contains_key(id),
        after.effects == before.effects.insert(id, after.effects[id]),
    ensures
        after.effects.dom().finite(),
        forall|k: int, empty: bool| #[trigger]
            after.stored(k, empty).len() == before.stored(k, empty).len() + (if k
                == after.effects[id].0 && after.is_empty_effect(id) == empty {
                1int
            } else {
                0
            }),
{
    assert forall|k: int, empty: bool| #[trigger]
        after.stored(k, empty).len() == before.stored(k, empty).len() + (if k
            == after.effects[id].0 && after.is_empty_effect(id) == empty {
            1int
        } else {
            0
        }) by {
        if k == after.effects[id].0 && after.is_empty_effect(id) == empty {
            assert(after.stored(k, empty) =~= before.stored(k, empty).insert(id));
        } else {
            assert(after.stored(k, empty) =~= before.stored(k, empty));
        }
    }
}

/// Removing an effect removes it from the effects of its buffer, and changes those of no other.
proof fn lemma_stored_after_remove<B, L>(before: CacheModel<B, L>, after: CacheModel<B, L>, id: u64)
    requires
        before.effects.dom().finite(),
        before.effects.contains_key(id),
        after.effects == before.effects.remove(id),
    ensures
        after.effects.dom().finite(),
        forall|k: int, empty: bool| #[trigger]
            after.stored(k, empty).len() == before.stored(k, empty).len() - (if k
                == before.effects[id].0 && before.is_empty_effect(id) == empty {
                1int
            } else {
                0
            }),
{
    assert forall|k: int, empty: bool| #[trigger]
        after.stored(k, empty).len() == before.stored(k, empty).len() - (if k
            == before.effects[id].0 && before.is_empty_effect(id) == empty {
            1int
        } else {
            0
        }) by {
        if k == before.effects[id].0 && before.is_empty_effect(id) == empty {
            assert(before.stored(k, empty).contains(id));
            assert(after.stored(k, empty) =~= before.stored(k, empty).remove(id));
        } else {
            assert(after.stored(k, empty) =~= before.stored(k, empty));
        }
    }
}

/// An effect is the last one in its buffer exactly if the buffer stores one effect.
proof fn lemma_last_effect<B, L>(cache: CacheModel<B, L>, id: u64, k: int)
    requires
        cache.effects.dom().finite(),
        cache.stored_in(id, k),
    ensures
        cache.is_last_effect(id, k) <==> cache.stored(k, false).len() + cache.stored(k, true).len()
            == 1,
        cache.stored(k, cache.is_empty_effect(id)).len() >= 1,
{
    let empty = cache.is_empty_effect(id);
    let same = cache.stored(k, empty).remove(id);
    let opposite = cache.stored(k, !empty);
    assert(cache.stored(k, empty).contains(id));
    if cache.is_last_effect(id, k) {
        assert forall|other: u64| !same.contains(other) && !opposite.contains(other) by {
            assert(same.contains(other) || opposite.contains(other) ==> cache.stored_in(
                other,
                k,
            ));
        }
        assert(same =~= Set::empty());
        assert(opposite =~= Set::empty());
    } else {
        let other = choose|other: u64| #[trigger] cache.stored_in(other, k) && other != id;
        if cache.is_empty_effect(other) == empty {
            assert(same.contains(other));
            assert(same.len() > 0);
        } else {
            assert(opposite.contains(other));
            assert(opposite.len() > 0);
        }
    }
}

/// Inserting an effect of any capacity into an existing buffer keeps the cache consistent.
pub proof fn law_insert_keeps_consistency<B, L>(
    before: CacheModel<B, L>,
    id: u64,
    asset: HandleId,
    capacity: u32,
    particle_layout: ParticleLayout,
)
    requires
        before.consistent(),
        !before.effects.contains_key(id),
        !before.insert_overflows(asset, capacity),
        before.first_accepting(asset, capacity) is Some,
    ensures
        before.with_effect_at(
            id,
            before.first_accepting(asset, capacity).unwrap(),
            capacity,
            particle_layout,
        ).consistent(),
{
    lemma_room_to_count(before, asset, capacity);
    let k = before.first_accepting(asset, capacity).unwrap();
    let after = before.with_effect_at(id, k, capacity, particle_layout);
    let old_allocation = before.buffers[k].unwrap().allocation;
    let (range, new_allocation) = old_allocation.allocate(capacity).unwrap();
    law_allocate_takes_unused_particles(old_allocation, capacity);
    assert(after.effects[id] == (k as usize, SliceRef { range, particle_layout }));
    lemma_stored_after_insert(before, after, id);
    assert forall|other: u64| before.stored_in(other, k) implies ({
        let other_range = before.effects[other].1.range;
        &&& #[trigger] before.effects.contains_key(other)
        &&& apart(range, other_range)
        &&& new_allocation.holds(other_range)
    }) by {
        law_allocate_keeps_slices_apart(
            old_allocation,
            capacity,
            before.effects[other].1.range,
        );
    }
    assert forall|j: int, particle: int| #[trigger] before.owned(j, particle) implies after.owned(
        j,
        particle,
    ) by {
        let owner = choose|owner: u64| #[trigger]
            before.stored_in(owner, j) && before.effects[owner].1.range.start <= particle
                < before.effects[owner].1.range.end;
        assert(after.stored_in(owner, j));
    }
    assert forall|particle: int| #[trigger] new_allocation.live(particle) implies after.owned(
        k,
        particle,
    ) by {
        if range.start <= particle < range.end {
            assert(after.stored_in(id, k));
        } else {
            assert(old_allocation.live(particle));
            assert(before.owned(k, particle));
        }
    }
    assert forall|j: int| 0 <= j < after.buffers.len() && j != k implies #[trigger] after.buffers[j]
        == before.buffers[j] && after.stored(j, false).len() == before.stored(j, false).len()
        && after.stored(j, true).len() == before.stored(j, true).len() by {}
    assert(after.stored(k, capacity == 0).len() == before.stored(k, capacity == 0).len() + 1);
    assert(after.stored(k, capacity != 0).len() == before.stored(k, capacity != 0).len());
}

/// Inserting an effect of any capacity into a new buffer keeps the cache consistent.
pub proof fn law_insert_in_new_buffer_keeps_consistency<B, L>(
    before: CacheModel<B, L>,
    id: u64,
    capacity: u32,
    new: BufferModel<B, L>,
)
    requires
        before.consistent(),
        before.vacant_slot() < usize::MAX,
        !before.effects.contains_key(id),
        new.wf(),
        new.allocation == Allocation::unused(rounded_capacity(capacity)),
    ensures
        before.with_effect_in_new_buffer(id, capacity, new).consistent(),
{
    lemma_vacant_slot_exists(before, 0);
    let k = before.vacant_slot();
    assert(before.is_vacant_slot(k));
    let after = before.with_effect_in_new_buffer(id, capacity, new);
    let allocation = Allocation { used_size: capacity, ..new.allocation.counting(capacity) };
    let range = Range { start: 0u32, end: capacity };
    assert(after.effects[id].0 == k && after.effects[id].1.range == range);
    lemma_stored_after_insert(before, after, id);
    assert forall|j: int, particle: int| #[trigger] before.owned(j, particle) implies after.owned(
        j,
        particle,
    ) by {
        let owner = choose|owner: u64| #[trigger]
            before.stored_in(owner, j) && before.effects[owner].1.range.start <= particle
                < before.effects[owner].1.range.end;
        assert(after.stored_in(owner, j));
    }
    assert(after.buffers[k].unwrap().allocation == allocation);
    assert(after.stored_in(id, k));
    assert forall|other: u64| before.effects.contains_key(other) implies before.effects[other].0
        != k && #[trigger] after.effects[other] == before.effects[other] by {}
    assert(before.stored(k, false) =~= Set::empty());
    assert(before.stored(k, true) =~= Set::empty());
    assert(after.stored(k, capacity == 0).len() == 1);
    assert(after.stored(k, capacity != 0).len() == 0);
    assert forall|j: int| 0 <= j < after.buffers.len() && j != k implies #[trigger] after.buffers[j]
        == before.buffers[j] && after.stored(j, false).len() == before.stored(j, false).len()
        && after.stored(j, true).len() == before.stored(j, true).len() by {}
}

/// Every cache has an entry for a new buffer.
proof fn lemma_vacant_slot_exists<B, L>(cache: CacheModel<B, L>, from: int)
    requires
        0 <= from <= cache.buffers.len(),
        forall|j: int| 0 <= j < from ==> #[trigger] cache.buffers[j] is Some,
    ensures
        exists|k: int| cache.is_vacant_slot(k),
    decreases cache.buffers.len() - from,
{
    if from < cache.buffers.len() && cache.buffers[from] is Some {
        lemma_vacant_slot_exists(cache, from + 1);
    } else {
        assert(cache.is_vacant_slot(from));
    }
}

/// Removing an effect from a consistent cache is always possible and keeps it consistent. Its
/// buffer is dropped exactly if no other effect is stored in it, and only then is its index
/// returned.
pub proof fn law_remove_drops_buffer_of_last_effect<B, L>(before: CacheModel<B, L>, id: u64)
    requires
        before.consistent(),
    ensures
        !before.remove_corrupts(id),
        before.without_effect(id).0.consistent(),
        before.effects.contains_key(id) ==> {
            let k = before.effects[id].0 as int;
            let (after, dropped) = before.without_effect(id);
            if before.is_last_effect(id, k) {
                dropped == Some(before.effects[id].0 as u32) && after.buffers[k] is None
            } else {
                &&& dropped is None
                &&& after.buffers[k] == Some(
                    before.buffers[k].unwrap().with_allocation(
                        before.buffers[k].unwrap().allocation.release(
                            before.effects[id].1.range,
                        ),
                    ),
                )
            }
        },
        !before.effects.contains_key(id) ==> before.without_effect(id) == (before, None::<u32>),
{
    if before.effects.contains_key(id) {
        let (index, slice) = before.effects[id];
        let k = index as int;
        let (after, dropped) = before.without_effect(id);
        let range = slice.range;
        let old_allocation = before.buffers[k].unwrap().allocation;
        let new_allocation = old_allocation.release(range);
        lemma_last_effect(before, id, k);
        lemma_stored_after_remove(before, after, id);
        assert forall|particle: int| old_allocation.is_last(range)
            && #[trigger] old_allocation.live(particle) implies range.start <= particle
            < range.end by {
            assert(before.owned(k, particle));
            let owner = choose|owner: u64| #[trigger]
                before.stored_in(owner, k) && before.effects[owner].1.range.start <= particle
                    < before.effects[owner].1.range.end;
            assert(owner == id);
        }
        law_release_ends_use(old_allocation, range);
        law_release_of_last_slice_frees_buffer(old_allocation, range);
        assert forall|other: u64| #[trigger] before.stored_in(other, k) && other
            != id implies new_allocation.holds(before.effects[other].1.range) by {
            assert(before.effects.contains_key(other));
            law_release_keeps_other_slices(
                old_allocation,
                range,
                before.effects[other].1.range,
            );
        }
        assert forall|j: int, particle: int| #[trigger]
            before.owned(j, particle) && !(j == k && range.start <= particle
                < range.end) implies after.owned(j, particle) by {
            let owner = choose|owner: u64| #[trigger]
                before.stored_in(owner, j) && before.effects[owner].1.range.start <= particle
                    < before.effects[owner].1.range.end;
            assert(after.stored_in(owner, j));
        }
        assert forall|particle: int| #[trigger] new_allocation.live(particle) implies after.owned(
            k,
            particle,
        ) by {
            assert(old_allocation.live(particle));
            assert(before.owned(k, particle));
        }
        assert forall|other: u64| #[trigger] after.effects.contains_key(other) implies (
        after.buffers[after.effects[other].0 as int] matches Some(buffer)
            && buffer.allocation.holds(after.effects[other].1.range)) by {
            assert(before.effects.contains_key(other));
            if before.effects[other].0 == k {
                assert(before.stored_in(other, k) && other != id);
            }
        }
        assert forall|j: int| 0 <= j < after.buffers.len() && j != k implies #[trigger]
        after.buffers[j] == before.buffers[j] && after.stored(j, false).len() == before.stored(
            j,
            false,
        ).len() && after.stored(j, true).len() == before.stored(j, true).len() by {}
        let empty = before.is_empty_effect(id);
        assert(after.stored(k, empty).len() == before.stored(k, empty).len() - 1);
        assert(after.stored(k, !empty).len() == before.stored(k, !empty).len());
    }
}

/// An effect inserted into an existing buffer is found there, in a slice of the requested length
/// that, in a consistent cache, ends inside the buffer. The buffer stores effects of the same
/// asset, every other effect stays where it is, and every other buffer stays as it is.
pub proof fn law_insert_only_adds_the_effect<B, L>(
    before: CacheModel<B, L>,
    id: u64,
    asset: HandleId,
    capacity: u32,
    particle_layout: ParticleLayout,
)
    requires
        before.wf(),
        !before.insert_overflows(asset, capacity),
        before.first_accepting(asset, capacity) is Some,
    ensures
        ({
            let k = before.first_accepting(asset, capacity).unwrap();
            let after = before.with_effect_at(id, k, capacity, particle_layout);
            &&& before.buffers[k] is Some
            &&& before.buffers[k].unwrap().asset == asset
            &&& after.stored_in(id, k)
            &&& range_len(after.effects[id].1.range) == capacity
            &&& before.consistent() ==> after.effects[id].1.range.end
                <= after.buffers[k].unwrap().allocation.capacity
            &&& after.effects[id].1.particle_layout == particle_layout
            &&& forall|other: u64|
                other != id ==> (#[trigger] after.effects.contains_key(other)
                    <==> before.effects.contains_key(other)) && after.effects[other]
                    == before.effects[other]
            &&& after.buffers.len() == before.buffers.len()
            &&& forall|j: int|
                0 <= j < before.buffers.len() && j != k ==> #[trigger] after.buffers[j]
                    == before.buffers[j]
            &&& after.buffers[k] == Some(
                before.buffers[k].unwrap().with_allocation(
                    after.buffers[k].unwrap().allocation,
                ),
            )
        }),
{
    lemma_room_to_count(before, asset, capacity);
    let k = before.first_accepting(asset, capacity).unwrap();
    let allocation = before.buffers[k].unwrap().allocation;
    if before.consistent() {
        law_allocate_takes_unused_particles(allocation, capacity);
    }
    if recycle(allocation.free_slices, capacity) is Some {
        let i = best_fit(allocation.free_slices, capacity).unwrap();
        assert(is_best_fit(allocation.free_slices, capacity, i));
    }
}

/// An effect inserted into a new buffer is found there, at its start and inside it. The buffer is
/// put into the first entry that was not used, every other effect stays where it is, and every
/// other buffer stays as it is.
pub proof fn law_insert_in_new_buffer_only_adds_the_effect<B, L>(
    before: CacheModel<B, L>,
    id: u64,
    capacity: u32,
    new: BufferModel<B, L>,
)
    requires
        before.wf(),
        new.allocation == Allocation::unused(rounded_capacity(capacity)),
    ensures
        ({
            let k = before.vacant_slot();
            let after = before.with_effect_in_new_buffer(id, capacity, new);
            &&& before.is_vacant_slot(k)
            &&& after.stored_in(id, k)
            &&& after.effects[id].1.range == (Range { start: 0u32, end: capacity })
            &&& capacity <= after.buffers[k].unwrap().allocation.capacity
            &&& after.effects[id].1.particle_layout == new.particle_layout
            &&& forall|other: u64|
                other != id ==> (#[trigger] after.effects.contains_key(other)
                    <==> before.effects.contains_key(other)) && after.effects[other]
                    == before.effects[other]
            &&& after.buffers[k] == Some(
                new.with_allocation(
                    Allocation { used_size: capacity, ..new.allocation.counting(capacity) },
                ),
            )
            &&& after.buffers.len() == (if k < before.buffers.len() {
                before.buffers.len()
            } else {
                before.buffers.len() + 1
            })
            &&& forall|j: int|
                0 <= j < before.buffers.len() && j != k ==> #[trigger] after.buffers[j]
                    == before.buffers[j]
        }),
{
    lemma_vacant_slot_exists(before, 0);
    assert(before.is_vacant_slot(before.vacant_slot()));
}

/// A removed effect is not found anymore. Every other effect stays where it is, every other
/// buffer stays as it is, and no buffer moves.
pub proof fn law_remove_only_removes_the_effect<B, L>(before: CacheModel<B, L>, id: u64)
    requires
        before.wf(),
        before.effects.contains_key(id),
    ensures
        ({
            let k = before.effects[id].0 as int;
            let (after, _) = before.without_effect(id);
            &&& !after.effects.contains_key(id)
            &&& forall|other: u64|
                other != id ==> (#[trigger] after.effects.contains_key(other)
                    <==> before.effects.contains_key(other)) && after.effects[other]
                    == before.effects[other]
            &&& after.buffers.len() == before.buffers.len()
            &&& forall|j: int|
                0 <= j < before.buffers.len() && j != k ==> #[trigger] after.buffers[j]
                    == before.buffers[j]
        }),
{
}

/// Removing an effect right after it was inserted into an existing buffer restores the effects,
/// restores which particles of the buffer are in use, and restores its high-water mark unless the
/// slice was recycled from right below it.
pub proof fn law_remove_undoes_insert<B, L>(
    before: CacheModel<B, L>,
    id: u64,
    asset: HandleId,
    capacity: u32,
    particle_layout: ParticleLayout,
)
    requires
        before.consistent(),
        !before.effects.contains_key(id),
        !before.insert_overflows(asset, capacity),
        before.first_accepting(asset, capacity) is Some,
    ensures
        ({
            let k = before.first_accepting(asset, capacity).unwrap();
            let (restored, dropped) = before.with_effect_at(
                id,
                k,
                capacity,
                particle_layout,
            ).without_effect(id);
            &&& dropped is None
            &&& restored.effects == before.effects
            &&& restored.buffers.len() == before.buffers.len()
            &&& forall|j: int|
                0 <= j < before.buffers.len() && j != k ==> #[trigger] restored.buffers[j]
                    == before.buffers[j]
            &&& restored.buffers[k] is Some
            &&& !before.buffers[k].unwrap().allocation.recycles_at_mark(capacity)
                ==> restored.buffers[k].unwrap().allocation.used_size
                == before.buffers[k].unwrap().allocation.used_size
            &&& forall|particle: int| #[trigger]
                restored.buffers[k].unwrap().allocation.live(particle)
                    <==> before.buffers[k].unwrap().allocation.live(particle)
        }),
{
    lemma_room_to_count(before, asset, capacity);
    let k = before.first_accepting(asset, capacity).unwrap();
    let allocation = before.buffers[k].unwrap().allocation;
    law_allocate_takes_unused_particles(allocation, capacity);
    let with_effect = before.with_effect_at(id, k, capacity, particle_layout);
    law_release_undoes_allocate(allocation, capacity);
    assert(with_effect.effects[id].0 == k);
    assert(with_effect.without_effect(id).0.effects =~= before.effects);
}

/// Removing an effect right after it was inserted into a new buffer drops that buffer and
/// restores the cache, except that a buffer past the last leaves an unused entry behind.
pub proof fn law_remove_undoes_insert_in_new_buffer<B, L>(
    before: CacheModel<B, L>,
    id: u64,
    capacity: u32,
    new: BufferModel<B, L>,
)
    requires
        before.wf(),
        !before.effects.contains_key(id),
        new.allocation == Allocation::unused(rounded_capacity(capacity)),
    ensures
        ({
            let k = before.vacant_slot();
            let (restored, dropped) = before.with_effect_in_new_buffer(
                id,
                capacity,
                new,
            ).without_effect(id);
            &&& dropped == Some(k as u32)
            &&& restored.effects == before.effects
            &&& restored.buffers == (if k < before.buffers.len() {
                before.buffers
            } else {
                before.buffers.push(None)
            })
        }),
{
    lemma_vacant_slot_exists(before, 0);
    let k = before.vacant_slot();
    assert(before.is_vacant_slot(k));
    let with_effect = before.with_effect_in_new_buffer(id, capacity, new);
    let restored = with_effect.without_effect(id).0;
    assert(with_effect.effects[id].0 == k);
    assert(restored.effects =~= before.effects);
    assert(restored.buffers =~= (if k < before.buffers.len() {
        before.buffers
    } else {
        before.buffers.push(None)
    }));
}

impl<B, L> CacheModel<B, L> {
    /// Every effect fills its buffer, so that no two effects share one.
    pub open spec fn unshared(self) -> bool {
        &&& self.consistent()
        &&& forall|id: u64| #[trigger]
            self.effects.contains_key(id) ==> {
                let (k, slice) = self.effects[id];
                slice.range == (Range {
                    start: 0u32,
                    end: self.buffers[k as int].unwrap().allocation.capacity,
                })
            }
    }
}

/// A buffer filled by an effect has no free slice, and no room for another particle.
proof fn lemma_unshared_buffer_is_full<B, L>(cache: CacheModel<B, L>, k: int)
    requires
        cache.unshared(),
        0 <= k < cache.buffers.len(),
        cache.buffers[k] is Some,
    ensures
        cache.buffers[k].unwrap().allocation.used_size
            == cache.buffers[k].unwrap().allocation.capacity,
        forall|size: u32|
            1 <= size ==> #[trigger] cache.buffers[k].unwrap().allocation.allocate(size) is None,
        exists|id: u64| cache.stored_in(id, k),
{
    let allocation = cache.buffers[k].unwrap().allocation;
    let empty = allocation.slice_count == 0;
    let owner = cache.stored(k, empty).choose();
    assert(cache.stored(k, empty).contains(owner));
    assert(cache.stored_in(owner, k));
    assert(cache.effects.contains_key(owner));
    assert(allocation.holds(cache.effects[owner].1.range));
    assert forall|size: u32| 1 <= size implies #[trigger] allocation.allocate(size) is None by {
        let free = allocation.free_slices;
        law_allocate_uses_any_room(allocation, size);
        assert forall|i: int| 0 <= i < free.len() implies !#[trigger] fits(free, size, i) by {
            if free[i].start < free[i].end {
                assert(separate(free[i], cache.effects[owner].1.range));
                assert(free[i].end <= allocation.used_size);
            }
        }
    }
}

/// A new buffer just fits its effect. As long as every effect has at least one particle, each has
/// a buffer of its own, and inserting another always asks for a new buffer.
pub proof fn law_effects_get_buffers_of_their_own<B, L>(
    before: CacheModel<B, L>,
    id: u64,
    asset: HandleId,
    capacity: u32,
    new: BufferModel<B, L>,
)
    requires
        before.unshared(),
        before.vacant_slot() < usize::MAX,
        !before.effects.contains_key(id),
        1 <= capacity,
        new.wf(),
        new.allocation == Allocation::unused(rounded_capacity(capacity)),
    ensures
        before.first_accepting(asset, capacity) is None,
        before.with_effect_in_new_buffer(id, capacity, new).unshared(),
        forall|one: u64, other: u64, k: int| #[trigger]
            before.stored_in(one, k) && #[trigger] before.stored_in(other, k) ==> one == other,
{
    law_insert_in_new_buffer_keeps_consistency(before, id, capacity, new);
    law_insert_in_new_buffer_only_adds_the_effect(before, id, capacity, new);
    assert forall|k: int| !before.is_first_accepting(k, asset, capacity) by {
        if 0 <= k < before.buffers.len() && before.buffers[k] is Some {
            lemma_unshared_buffer_is_full(before, k);
        }
    }
    let after = before.with_effect_in_new_buffer(id, capacity, new);
    let slot = before.vacant_slot();
    assert forall|other: u64| #[trigger] after.effects.contains_key(other) implies
        after.effects[other].1.range == (Range {
        start: 0u32,
        end: after.buffers[after.effects[other].0 as int].unwrap().allocation.capacity,
    }) by {
        if other != id {
            assert(before.effects.contains_key(other));
            assert(before.effects[other].0 != slot);
        }
    }
    assert forall|one: u64, other: u64, k: int| #[trigger]
        before.stored_in(one, k) && #[trigger] before.stored_in(other, k) implies one == other by {
        assert(before.effects.contains_key(one) && before.effects.contains_key(other));
        if one != other {
            assert(separate(before.effects[one].1.range, before.effects[other].1.range));
        }
    }
}

/// Removing an effect that has a buffer of its own drops that buffer, and leaves every other
/// effect with a buffer of its own.
pub proof fn law_remove_drops_unshared_buffer<B, L>(before: CacheModel<B, L>, id: u64)
    requires
        before.unshared(),
        before.effects.contains_key(id),
    ensures
        before.without_effect(id).1 == Some(before.effects[id].0 as u32),
        before.without_effect(id).0.buffers[before.effects[id].0 as int] is None,
        before.without_effect(id).0.unshared(),
{
    let k = before.effects[id].0 as int;
    let after = before.without_effect(id).0;
    law_remove_drops_buffer_of_last_effect(before, id);
    law_remove_only_removes_the_effect(before, id);
    assert forall|other: u64| #[trigger] before.stored_in(other, k) implies other == id by {
        assert(before.effects.contains_key(other));
        if other != id {
            assert(separate(before.effects[id].1.range, before.effects[other].1.range));
        }
    }
    assert forall|other: u64| #[trigger] after.effects.contains_key(other) implies
        after.effects[other].1.range == (Range {
        start: 0u32,
        end: after.buffers[after.effects[other].0 as int].unwrap().allocation.capacity,
    }) by {
        assert(before.effects.contains_key(other));
        assert(before.effects[other].0 == k ==> before.stored_in(other, k));
    }
}

impl<B, L> CacheModel<B, L> {
    /// Every effect has a number below the next one.
    pub open spec fn numbered_below(self, next: u64) -> bool {
        forall|id: u64| #[trigger] self.effects.contains_key(id) ==> id < next
    }
}

/// As long as the numbers are not exhausted, the identifier of an inserted effect is valid and
/// differs from that of every effect in the cache, and the next one will.
pub proof fn law_new_identifier_is_fresh<B, L>(
    before: CacheModel<B, L>,
    number: u64,
    k: int,
    buffer: BufferModel<B, L>,
    slice: SliceRef,
    removed: u64,
)
    requires
        before.numbered_below(number),
        number < u64::MAX,
    ensures
        !before.effects.contains_key(number),
        number != EffectCacheId::INVALID,
        before.with_effect(number, k, buffer, slice).numbered_below(next_number(number)),
        before.without_effect(removed).0.numbered_below(number),
{
    let after = before.with_effect(number, k, buffer, slice);
    assert forall|id: u64| #[trigger] after.effects.contains_key(id) implies id < next_number(
        number,
    ) by {
        assert(id != number ==> before.effects.contains_key(id));
    }
    let fewer = before.without_effect(removed).0;
    assert forall|id: u64| #[trigger] fewer.effects.contains_key(id) implies id < number by {
        assert(before.effects.contains_key(id));
    }
}

/// The number of the effect that comes `count` effects after another.
pub open spec fn number_after(first: u64, count: nat) -> u64
    decreases count,
{
    if count == 0 {
        first
    } else {
        next_number(number_after(first, (count - 1) as nat))
    }
}

/// A counter that starts at zero counts effects until the numbers are exhausted.
proof fn lemma_number_after_zero(count: nat)
    requires
        count <= u64::MAX,
    ensures
        number_after(0, count) == count,
    decreases count,
{
    if count > 0 {
        lemma_number_after_zero((count - 1) as nat);
    }
}

/// The identifiers that a counter yields, starting from zero, are distinct until the numbers are
/// exhausted, and only the last of them is not valid.
pub proof fn law_identifiers_are_valid_and_distinct(count: nat, other: nat)
    requires
        count <= u64::MAX,
        other <= u64::MAX,
    ensures
        number_after(0, count) == number_after(0, other) <==> count == other,
        number_after(0, count) == EffectCacheId::INVALID <==> count == u64::MAX,
{
    lemma_number_after_zero(count);
    lemma_number_after_zero(other);
}

/// Every entry of a cache stands for its own buffer, or for none if it is not used.
pub proof fn law_entries_stand_for_their_buffers<B, L>(slots: Seq<Option<EffectBuffer<B, L>>>)
    ensures
        slot_models(slots).len() == slots.len(),
        forall|k: int|
            0 <= k < slots.len() ==> match #[trigger] slots[k] {
                Some(buffer) => slot_models(slots)[k] == Some(buffer@),
                None => slot_models(slots)[k] is None,
            },
{
}

/// A new buffer is put into the first entry that is not used. Only if every entry is used does it
/// become a new entry, past the last.
pub proof fn law_new_buffer_takes_the_first_unused_entry<B, L>(cache: CacheModel<B, L>)
    ensures
        ({
            let k = cache.vacant_slot();
            &&& (exists|j: int| 0 <= j < cache.buffers.len() && #[trigger] cache.buffers[j] is None)
                ==> 0 <= k < cache.buffers.len() && cache.buffers[k] is None
            &&& forall|j: int|
                0 <= j < cache.buffers.len() && #[trigger] cache.buffers[j] is None ==> k <= j
            &&& (forall|j: int| 0 <= j < cache.buffers.len() ==> #[trigger] cache.buffers[j] is Some)
                ==> k == cache.buffers.len()
        }),
{
    lemma_vacant_slot_exists(cache, 0);
    let k = cache.vacant_slot();
    assert(cache.is_vacant_slot(k));
}

/// An effect is inserted into the first buffer that stores effects of its asset and can allocate
/// its particles, and needs a new buffer exactly if there is none.
pub proof fn law_effect_goes_to_the_first_buffer_with_room<B, L>(
    cache: CacheModel<B, L>,
    asset: HandleId,
    capacity: u32,
)
    ensures
        match cache.first_accepting(asset, capacity) {
            Some(k) => {
                &&& 0 <= k < cache.buffers.len()
                &&& cache.buffers[k] matches Some(buffer) && buffer.asset == asset
                    && buffer.allocation.allocate(capacity) is Some
                &&& forall|j: int|
                    0 <= j < k ==> (#[trigger] cache.buffers[j] matches Some(buffer) ==> buffer.asset
                        != asset || buffer.allocation.allocate(capacity) is None)
            },
            None => forall|j: int|
                0 <= j < cache.buffers.len() ==> (#[trigger] cache.buffers[j] matches Some(buffer)
                    ==> buffer.asset != asset || buffer.allocation.allocate(capacity) is None),
        },
{
    match cache.first_accepting(asset, capacity) {
        Some(k) => {
            assert(cache.is_first_accepting(k, asset, capacity));
            assert forall|j: int| 0 <= j < k implies (#[trigger] cache.buffers[j] matches Some(
                buffer,
            ) ==> buffer.asset != asset || buffer.allocation.allocate(capacity) is None) by {
                assert(!cache.accepts(j, asset, capacity));
            }
        },
        None => {
            assert forall|j: int| 0 <= j < cache.buffers.len() implies (
            #[trigger] cache.buffers[j] matches Some(buffer) ==> buffer.asset != asset
                || buffer.allocation.allocate(capacity) is None) by {
                if cache.accepts(j, asset, capacity) {
                    lemma_first_accepting_exists(cache, asset, capacity, j);
                }
            }
        },
    }
}

/// If any buffer accepts an effect, one of them is the first.
proof fn lemma_first_accepting_exists<B, L>(
    cache: CacheModel<B, L>,
    asset: HandleId,
    capacity: u32,
    witness: int,
)
    requires
        0 <= witness < cache.buffers.len(),
        cache.accepts(witness, asset, capacity),
    ensures
        exists|k: int| cache.is_first_accepting(k, asset, capacity),
    decreases witness,
{
    if !cache.is_first_accepting(witness, asset, capacity) {
        let j = choose|j: int|
            0 <= j < witness && #[trigger] cache.accepts(j, asset, capacity);
        lemma_first_accepting_exists(cache, asset, capacity, j);
    }
}

/// An effect cannot be inserted exactly if some buffer of its asset would overflow, and no buffer
/// of that asset before it has room.
pub proof fn law_insert_overflows_in_a_buffer_that_is_tried<B, L>(
    cache: CacheModel<B, L>,
    asset: HandleId,
    capacity: u32,
)
    ensures
        cache.insert_overflows(asset, capacity) <==> exists|k: int|
            {
                &&& 0 <= k < cache.buffers.len()
                &&& #[trigger] cache.buffers[k] matches Some(buffer) && buffer.asset == asset
                    && buffer.allocation.allocate_overflows(capacity)
                &&& forall|j: int|
                    0 <= j < k ==> (#[trigger] cache.buffers[j] matches Some(buffer) ==> buffer.asset
                        != asset || buffer.allocation.allocate(capacity) is None)
            },
{
    if cache.insert_overflows(asset, capacity) {
        let k = choose|k: int| cache.overflows_at(k, asset, capacity);
        assert forall|j: int| 0 <= j < k implies (#[trigger] cache.buffers[j] matches Some(buffer)
            ==> buffer.asset != asset || buffer.allocation.allocate(capacity) is None) by {
            assert(!cache.accepts(j, asset, capacity));
        }
        assert(cache.buffers[k] is Some);
    }
    if exists|k: int|
        {
            &&& 0 <= k < cache.buffers.len()
            &&& #[trigger] cache.buffers[k] matches Some(buffer) && buffer.asset == asset
                && buffer.allocation.allocate_overflows(capacity)
            &&& forall|j: int|
                0 <= j < k ==> (#[trigger] cache.buffers[j] matches Some(buffer) ==> buffer.asset
                    != asset || buffer.allocation.allocate(capacity) is None)
        } {
        let k = choose|k: int|
            {
                &&& 0 <= k < cache.buffers.len()
                &&& #[trigger] cache.buffers[k] matches Some(buffer) && buffer.asset == asset
                    && buffer.allocation.allocate_overflows(capacity)
                &&& forall|j: int|
                    0 <= j < k ==> (#[trigger] cache.buffers[j] matches Some(buffer) ==> buffer.asset
                        != asset || buffer.allocation.allocate(capacity) is None)
            };
        assert(cache.overflows_at(k, asset, capacity));
    }
}

/// An effect is too large exactly if it needs a new buffer, and its particles do not fit into as
/// many bytes as a 32-bit integer counts.
pub proof fn law_only_new_buffers_limit_the_size<B, L>(
    cache: CacheModel<B, L>,
    asset: HandleId,
    capacity: u32,
    particle_layout: ParticleLayout,
)
    ensures
        cache.first_accepting(asset, capacity) is Some ==> !cache.effect_size_overflows(
            asset,
            capacity,
            particle_layout,
        ),
        cache.first_accepting(asset, capacity) is None ==> (cache.effect_size_overflows(
            asset,
            capacity,
            particle_layout,
        ) <==> capacity * particle_layout.min_binding_size >= 0x1_0000_0000),
{
}

/// Inserting an effect into an existing buffer allocates its slice there: the range of the effect
/// and the state of the buffer are those that the allocation gives. The effect gets the layout it
/// was inserted with. Nothing else about the buffer, no other buffer and no other effect changes.
pub proof fn law_insert_allocates_in_the_buffer<B, L>(
    before: CacheModel<B, L>,
    id: u64,
    k: int,
    capacity: u32,
    particle_layout: ParticleLayout,
)
    requires
        0 <= k < before.buffers.len() <= usize::MAX,
        before.buffers[k] matches Some(buffer) && buffer.allocation.allocate(capacity) is Some,
    ensures
        ({
            let after = before.with_effect_at(id, k, capacity, particle_layout);
            let old_buffer = before.buffers[k].unwrap();
            let new_buffer = after.buffers[k].unwrap();
            &&& after.effects.dom() == before.effects.dom().insert(id)
            &&& after.effects[id].0 == k
            &&& after.effects[id].1.particle_layout == particle_layout
            &&& after.buffers[k] is Some
            &&& old_buffer.allocation.allocate(capacity) == Some(
                (after.effects[id].1.range, new_buffer.allocation),
            )
            &&& new_buffer.resources == old_buffer.resources
            &&& new_buffer.particle_layout == old_buffer.particle_layout
            &&& new_buffer.property_layout == old_buffer.property_layout
            &&& new_buffer.layout_flags == old_buffer.layout_flags
            &&& new_buffer.asset == old_buffer.asset
            &&& after.buffers.len() == before.buffers.len()
            &&& forall|j: int|
                0 <= j < before.buffers.len() && j != k ==> #[trigger] after.buffers[j]
                    == before.buffers[j]
            &&& forall|other: u64|
                other != id && before.effects.contains_key(other) ==> #[trigger] after.effects[other]
                    == before.effects[other]
        }),
{
    let after = before.with_effect_at(id, k, capacity, particle_layout);
    assert(after.effects.dom() =~= before.effects.dom().insert(id));
}

/// An effect that is inserted into a new buffer fills its first particles, whatever the number of
/// the effect. The buffer stands in the first entry that was not used, and is made of exactly what
/// it was created from: looking the effect up finds the properties buffer that was handed over. It
/// has one slice in use, no free slice, and room for one particle at least. No other buffer and no
/// other effect changes.
pub proof fn law_new_buffer_is_made_of_what_it_was_given<B, L>(
    before: CacheModel<B, L>,
    id: u64,
    asset: HandleId,
    capacity: u32,
    particle_layout: ParticleLayout,
    property_layout: PropertyLayout,
    layout_flags: LayoutFlags,
    resources: EffectBufferResources<B, L>,
)
    requires
        before.vacant_slot() <= usize::MAX,
    ensures
        ({
            let new = BufferModel::fresh(
                asset,
                capacity,
                particle_layout,
                property_layout,
                layout_flags,
                resources,
            );
            let after = before.with_effect_in_new_buffer(id, capacity, new);
            let k = after.effects[id].0 as int;
            let buffer = after.buffers[k].unwrap();
            &&& after.effects.dom() == before.effects.dom().insert(id)
            &&& after.effects[id].1.range.start == 0
            &&& after.effects[id].1.range.end == capacity
            &&& after.effects[id].1.particle_layout == particle_layout
            &&& 0 <= k <= before.buffers.len()
            &&& k < before.buffers.len() ==> before.buffers[k] is None
            &&& forall|j: int| 0 <= j < k ==> #[trigger] before.buffers[j] is Some
            &&& after.buffers[k] is Some
            &&& buffer.resources == resources
            &&& buffer.particle_layout == particle_layout
            &&& buffer.property_layout == property_layout
            &&& buffer.layout_flags == layout_flags
            &&& buffer.asset == asset
            &&& buffer.allocation.capacity == (if capacity == 0 {
                1
            } else {
                capacity
            })
            &&& buffer.allocation.used_size == capacity
            &&& buffer.allocation.free_slices.len() == 0
            &&& buffer.allocation.slice_count == (if capacity == 0 {
                0int
            } else {
                1
            })
            &&& buffer.allocation.empty_count == (if capacity == 0 {
                1int
            } else {
                0
            })
            &&& after.property_buffer(id) == resources.properties_buffer
            &&& after.buffers.len() == (if k == before.buffers.len() {
                before.buffers.len() + 1
            } else {
                before.buffers.len()
            })
            &&& forall|j: int|
                0 <= j < before.buffers.len() && j != k ==> #[trigger] after.buffers[j]
                    == before.buffers[j]
            &&& forall|other: u64|
                other != id && before.effects.contains_key(other) ==> #[trigger] after.effects[other]
                    == before.effects[other]
        }),
{
    let new = BufferModel::fresh(
        asset,
        capacity,
        particle_layout,
        property_layout,
        layout_flags,
        resources,
    );
    let after = before.with_effect_in_new_buffer(id, capacity, new);
    lemma_vacant_slot_exists(before, 0);
    assert(before.is_vacant_slot(before.vacant_slot()));
    assert(after.effects.dom() =~= before.effects.dom().insert(id));
}

/// A new buffer has no slice, in use or free, and is made of exactly what it was created from.
pub proof fn law_fresh_buffer_is_empty<B, L>(
    asset: HandleId,
    capacity: u32,
    particle_layout: ParticleLayout,
    property_layout: PropertyLayout,
    layout_flags: LayoutFlags,
    resources: EffectBufferResources<B, L>,
)
    ensures
        ({
            let new = BufferModel::fresh(
                asset,
                capacity,
                particle_layout,
                property_layout,
                layout_flags,
                resources,
            );
            &&& new.asset == asset
            &&& new.particle_layout == particle_layout
            &&& new.property_layout == property_layout
            &&& new.layout_flags == layout_flags
            &&& new.resources == resources
            &&& new.allocation.capacity == (if capacity == 0 {
                1
            } else {
                capacity
            })
            &&& new.allocation.used_size == 0
            &&& new.allocation.free_slices.len() == 0
            &&& new.allocation.slice_count == 0
            &&& new.allocation.empty_count == 0
        }),
{
}

/// Changing which particles of a buffer are in use changes nothing else about it.
pub proof fn law_allocation_is_all_that_changes<B, L>(
    buffer: BufferModel<B, L>,
    allocation: Allocation,
)
    ensures
        ({
            let changed = buffer.with_allocation(allocation);
            &&& changed.allocation == allocation
            &&& changed.resources == buffer.resources
            &&& changed.particle_layout == buffer.particle_layout
            &&& changed.property_layout == buffer.property_layout
            &&& changed.layout_flags == buffer.layout_flags
            &&& changed.asset == buffer.asset
        }),
{
}

/// The properties buffer of an effect is that of the buffer that stores the effect. Two effects in
/// one buffer share it. An effect that is not in the cache has none.
pub proof fn law_property_buffer_is_that_of_the_buffer<B, L>(
    cache: CacheModel<B, L>,
    id: u64,
    other: u64,
)
    ensures
        !cache.effects.contains_key(id) ==> cache.property_buffer(id) is None,
        cache.effects.contains_key(id) ==> cache.property_buffer(id) == (
        match cache.buffers[cache.effects[id].0 as int] {
            Some(buffer) => buffer.resources.properties_buffer,
            None => None,
        }),
        cache.effects.contains_key(id) && cache.effects.contains_key(other)
            && cache.effects[id].0 == cache.effects[other].0 ==> cache.property_buffer(id)
            == cache.property_buffer(other),
{
}

/// In a consistent cache an effect has a properties buffer exactly if it was inserted into a buffer
/// for effects with properties.
pub proof fn law_effects_with_properties_have_a_property_buffer<B, L>(
    cache: CacheModel<B, L>,
    id: u64,
)
    requires
        cache.consistent(),
        cache.effects.contains_key(id),
    ensures
        cache.buffers[cache.effects[id].0 as int] matches Some(buffer)
            && cache.property_buffer(id) == buffer.resources.properties_buffer && (
        cache.property_buffer(id) is Some <==> buffer.property_layout.min_binding_size > 0),
{
}

/// Removing an effect frees its slice in its buffer, and drops the buffer exactly if freeing the
/// slice frees the buffer. The index of a dropped buffer is returned, and none otherwise. No other
/// effect and no other buffer changes, and removing what is not in the cache does nothing.
pub proof fn law_remove_frees_the_slice<B, L>(before: CacheModel<B, L>, id: u64)
    requires
        before.wf(),
    ensures
        ({
            let (after, dropped) = before.without_effect(id);
            let k = before.effects[id].0 as int;
            let range = before.effects[id].1.range;
            &&& after.effects.dom() == before.effects.dom().remove(id)
            &&& forall|other: u64|
                other != id && before.effects.contains_key(other) ==> #[trigger] after.effects[other]
                    == before.effects[other]
            &&& after.buffers.len() == before.buffers.len()
            &&& forall|j: int|
                0 <= j < before.buffers.len() && !(before.effects.contains_key(id) && j == k)
                    ==> #[trigger] after.buffers[j] == before.buffers[j]
            &&& !before.effects.contains_key(id) ==> dropped is None
            &&& before.effects.contains_key(id) ==> match before.buffers[k] {
                None => dropped is None && after.buffers[k] is None,
                Some(old_buffer) => match old_buffer.allocation.release_state(range) {
                    BufferState::Free => dropped == Some(k as u32) && after.buffers[k] is None,
                    BufferState::Used => dropped is None && (after.buffers[k] matches Some(
                        new_buffer,
                    ) && {
                        &&& new_buffer.allocation == old_buffer.allocation.release(range)
                        &&& new_buffer.resources == old_buffer.resources
                        &&& new_buffer.particle_layout == old_buffer.particle_layout
                        &&& new_buffer.property_layout == old_buffer.property_layout
                        &&& new_buffer.layout_flags == old_buffer.layout_flags
                        &&& new_buffer.asset == old_buffer.asset
                    }),
                },
            }
            &&& before.remove_corrupts(id) <==> {
                &&& before.effects.contains_key(id)
                &&& before.buffers[k] matches Some(old_buffer)
                    && old_buffer.allocation.release_corrupts(range)
            }
        }),
{
    let (after, _) = before.without_effect(id);
    assert(after.effects.dom() =~= before.effects.dom().remove(id));
}

/// In a consistent cache, removing an effect drops its buffer exactly if no other effect has that
/// buffer. The index of the buffer is then returned.
pub proof fn law_buffer_is_kept_for_its_other_effects<B, L>(before: CacheModel<B, L>, id: u64)
    requires
        before.consistent(),
        before.effects.contains_key(id),
    ensures
        ({
            let (after, dropped) = before.without_effect(id);
            let k = before.effects[id].0;
            let shared = exists|other: u64| #[trigger]
                before.effects.contains_key(other) && other != id && before.effects[other].0 == k;
            &&& shared ==> dropped is None && after.buffers[k as int] is Some
            &&& !shared ==> dropped == Some(k as u32) && after.buffers[k as int] is None
        }),
{
    let k = before.effects[id].0 as int;
    law_remove_drops_buffer_of_last_effect(before, id);
    assert forall|other: u64| #[trigger] before.effects.contains_key(other) && other != id
        && before.effects[other].0 == k implies !before.is_last_effect(id, k) by {
        assert(before.stored_in(other, k));
    }
    if !before.is_last_effect(id, k) {
        let other = choose|other: u64| #[trigger] before.stored_in(other, k) && other != id;
        assert(before.effects.contains_key(other));
    }
}

/// The number of an effect is one more than that of the effect before it, up to the largest 64-bit
/// integer, after which counting starts over.
pub proof fn law_effects_are_counted(number: u64)
    ensures
        next_number(number) == (number + 1) % 0x1_0000_0000_0000_0000,
{
}

} // verus!
