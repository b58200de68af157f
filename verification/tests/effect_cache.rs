use bevy::asset::HandleId;
use bevy::utils::Uuid;
use effect_cache::allocation::BufferState;
use effect_cache::buffer::{EffectBuffer, EffectBufferResources};
use effect_cache::cache::{EffectCache, EffectCacheId, EffectCacheIds, InsertStep};
use effect_cache::layout::{LayoutFlags, ParticleLayout, PropertyLayout};
use effect_cache::plan::GpuRecordSizes;
use effect_cache::slice::{EffectSlice, SliceRef};
use std::cmp::Ordering;

type Buffer = EffectBuffer<String, &'static str>;
type Cache = EffectCache<String, &'static str>;

const SIZES: GpuRecordSizes = GpuRecordSizes {
    dispatch_indirect: 32,
    spawner_params: 96,
};

const NO_FLAGS: LayoutFlags = LayoutFlags {
    local_space_simulation: false,
    other_flags: 0,
};

fn layout(size: u32) -> ParticleLayout {
    ParticleLayout {
        attributes: size as u64,
        size,
        min_binding_size: size,
    }
}

fn asset(number: u64) -> HandleId {
    HandleId::new(Uuid::from_u128(0x5eed), number)
}

fn resources(name: &str, properties: bool) -> EffectBufferResources<String, &'static str> {
    EffectBufferResources {
        particle_buffer: format!("{name}"),
        indirect_buffer: format!("{name}_indirect"),
        properties_buffer: if properties {
            Some(format!("{name}_properties"))
        } else {
            None
        },
        particles_buffer_layout_simulate: "simulate",
        particles_buffer_layout_with_dispatch: "with_dispatch",
    }
}

fn buffer(capacity: u32, item_size: u32) -> Buffer {
    EffectBuffer::new(
        asset(1),
        capacity,
        layout(item_size),
        PropertyLayout::empty(), // not using properties
        NO_FLAGS,
        resources("my_buffer", false),
    )
}

/// Inserts an effect, creating a buffer for it where that is needed.
fn insert(
    cache: &mut Cache,
    asset: HandleId,
    capacity: u32,
    particle_layout: &ParticleLayout,
    property_layout: &PropertyLayout,
    ids: &mut EffectCacheIds,
) -> EffectCacheId {
    assert!(!cache.insert_overflows(&asset, capacity));
    assert!(!cache.effect_size_overflows(&asset, capacity, particle_layout));
    let needed = cache.needs_new_buffer(&asset, capacity);
    let step = cache.insert(
        asset,
        capacity,
        particle_layout,
        property_layout,
        NO_FLAGS,
        SIZES,
        ids,
    );
    match step {
        InsertStep::Inserted(id) => {
            assert!(!needed);
            id
        }
        InsertStep::CreateBuffer(new) => {
            assert!(needed);
            assert_eq!(
                new.plan.properties_buffer.is_some(),
                !property_layout.is_empty()
            );
            let label = new.plan.particle_buffer.label.unwrap();
            cache.insert_in_new_buffer(
                asset,
                capacity,
                particle_layout,
                property_layout,
                NO_FLAGS,
                resources(&label, !property_layout.is_empty()),
                ids,
            )
        }
    }
}

#[test]
fn effect_slice_ord() {
    let particle_layout = layout(16);
    let slice1 = EffectSlice {
        slice: 0..32,
        group_index: 1,
        particle_layout,
    };
    let slice2 = EffectSlice {
        slice: 32..64,
        group_index: 1,
        particle_layout,
    };
    assert!(slice1 < slice2);
    assert!(slice1 <= slice2);
    assert!(slice2 > slice1);
    assert!(slice2 >= slice1);

    let slice3 = EffectSlice {
        slice: 0..32,
        group_index: 0,
        particle_layout,
    };
    assert!(slice3 < slice1);
    assert!(slice3 < slice2);
    assert!(slice1 > slice3);
    assert!(slice2 > slice3);
}

#[test]
fn slice_ref() {
    let l16 = layout(16);
    assert_eq!(16, l16.size());
    let l32 = layout(32);
    assert_eq!(32, l32.size());
    let l48 = layout(48);
    assert_eq!(48, l48.size());
    for (range, particle_layout, len, byte_size) in [
        (0..0, &l16, 0, 0),
        (0..16, &l16, 16, 16 * 16),
        (0..16, &l32, 16, 16 * 32),
        (240..256, &l48, 16, 16 * 48),
    ] {
        let sr = SliceRef {
            range,
            particle_layout: particle_layout.clone(),
        };
        assert_eq!(sr.len(), len);
        assert_eq!(sr.byte_size(), byte_size);
    }
}

#[test]
fn effect_buffer() {
    let l64 = layout(64);
    assert_eq!(64, l64.size());

    let capacity = 4096;
    let mut buffer = buffer(capacity, 64);

    assert_eq!(buffer.capacity(), capacity.max(Buffer::MIN_CAPACITY));
    assert_eq!(64, buffer.particle_layout().size());
    assert_eq!(64, buffer.particle_layout().min_binding_size());
    assert_eq!(0, buffer.used_size());
    assert!(buffer.free_slices().is_empty());

    assert_eq!(None, buffer.allocate_slice(buffer.capacity() + 1, &l64));

    let mut offset = 0;
    let mut slices = vec![];
    for size in [32, 128, 55, 148, 1, 2048, 42] {
        let slice = buffer.allocate_slice(size, &l64);
        assert!(slice.is_some());
        let slice = slice.unwrap();
        assert_eq!(64, slice.particle_layout.size());
        assert_eq!(64, buffer.particle_layout().min_binding_size());
        assert_eq!(offset..offset + size, slice.range);
        slices.push(slice);
        offset += size;
    }
    assert_eq!(offset, buffer.used_size());

    assert_eq!(BufferState::Used, buffer.free_slice(slices[2].clone()));
    assert_eq!(1, buffer.free_slices().len());
    let free_slice = &buffer.free_slices()[0];
    assert_eq!(160..215, *free_slice);
    assert_eq!(offset, buffer.used_size()); // didn't move

    assert_eq!(BufferState::Used, buffer.free_slice(slices[3].clone()));
    assert_eq!(BufferState::Used, buffer.free_slice(slices[4].clone()));
    assert_eq!(BufferState::Used, buffer.free_slice(slices[5].clone()));
    assert_eq!(4, buffer.free_slices().len());
    assert_eq!(offset, buffer.used_size()); // didn't move

    // this will collapse all the way to slices[1], the highest allocated
    assert_eq!(BufferState::Used, buffer.free_slice(slices[6].clone()));
    assert_eq!(0, buffer.free_slices().len()); // collapsed
    assert_eq!(160, buffer.used_size()); // collapsed

    assert_eq!(BufferState::Used, buffer.free_slice(slices[0].clone()));
    assert_eq!(1, buffer.free_slices().len());
    assert_eq!(160, buffer.used_size()); // didn't move

    // collapse all, and free buffer
    assert_eq!(BufferState::Free, buffer.free_slice(slices[1].clone()));
    assert_eq!(0, buffer.free_slices().len());
    assert_eq!(0, buffer.used_size()); // collapsed and empty
}

#[test]
fn pop_free_slice() {
    let l64 = layout(64);
    assert_eq!(64, l64.size());

    let capacity = 2048; // EffectBuffer::MIN_CAPACITY;
    assert!(capacity >= 2048); // otherwise the logic below breaks
    let mut buffer = buffer(capacity, 64);

    let slice0 = buffer.allocate_slice(32, &l64);
    assert!(slice0.is_some());
    let slice0 = slice0.unwrap();
    assert_eq!(slice0.range, 0..32);
    assert!(buffer.free_slices().is_empty());

    let slice1 = buffer.allocate_slice(1024, &l64);
    assert!(slice1.is_some());
    let slice1 = slice1.unwrap();
    assert_eq!(slice1.range, 32..1056);
    assert!(buffer.free_slices().is_empty());

    let state = buffer.free_slice(slice0);
    assert_eq!(state, BufferState::Used);
    assert_eq!(buffer.free_slices().len(), 1);
    assert_eq!(buffer.free_slices()[0], 0..32);

    // Try to allocate a slice larger than slice0, such that slice0 cannot be
    // recycled, and instead the new slice has to be appended after all
    // existing ones.
    let slice2 = buffer.allocate_slice(64, &l64);
    assert!(slice2.is_some());
    let slice2 = slice2.unwrap();
    assert_eq!(slice2.range.start, slice1.range.end); // after slice1
    assert_eq!(slice2.range, 1056..1120);
    assert_eq!(buffer.free_slices().len(), 1);

    // Now allocate a small slice that fits, to recycle (part of) slice0.
    let slice3 = buffer.allocate_slice(16, &l64);
    assert!(slice3.is_some());
    let slice3 = slice3.unwrap();
    assert_eq!(slice3.range, 0..16);
    assert_eq!(buffer.free_slices().len(), 1); // split
    assert_eq!(buffer.free_slices()[0], 16..32);

    // Allocate a second small slice that fits exactly the left space, completely
    // recycling
    let slice4 = buffer.allocate_slice(16, &l64);
    assert!(slice4.is_some());
    let slice4 = slice4.unwrap();
    assert_eq!(slice4.range, 16..32);
    assert!(buffer.free_slices().is_empty()); // recycled
}

#[test]
fn effect_cache() {
    let empty_property_layout = PropertyLayout::empty(); // not using properties

    let l32 = layout(32);
    assert_eq!(32, l32.size());

    let mut ids = EffectCacheIds::new();
    let mut effect_cache = Cache::new();
    assert_eq!(effect_cache.buffers().len(), 0);

    let asset = asset(7);
    let capacity = Buffer::MIN_CAPACITY;
    let item_size = l32.size();

    let id1 = insert(
        &mut effect_cache,
        asset,
        capacity,
        &l32,
        &empty_property_layout,
        &mut ids,
    );
    assert!(id1.is_valid());
    let slice1 = effect_cache.get_slice(id1);
    assert_eq!(
        slice1.particle_layout.min_binding_size() as u32,
        item_size
    );
    assert_eq!(slice1.slice, 0..capacity);
    assert_eq!(effect_cache.buffers().len(), 1);

    let id2 = insert(
        &mut effect_cache,
        asset,
        capacity,
        &l32,
        &empty_property_layout,
        &mut ids,
    );
    assert!(id2.is_valid());
    let slice2 = effect_cache.get_slice(id2);
    assert_eq!(
        slice2.particle_layout.min_binding_size() as u32,
        item_size
    );
    assert_eq!(slice2.slice, 0..capacity);
    assert_eq!(effect_cache.buffers().len(), 2);

    let buffer_index = effect_cache.remove(id1);
    assert!(buffer_index.is_some());
    assert_eq!(buffer_index.unwrap(), 0);
    assert_eq!(effect_cache.buffers().len(), 2);
    {
        let buffers = effect_cache.buffers();
        assert!(buffers[0].is_none());
        assert!(buffers[1].is_some()); // id2
    }

    // An unused entry is filled before a new one is added
    let id3 = insert(
        &mut effect_cache,
        asset,
        capacity,
        &l32,
        &empty_property_layout,
        &mut ids,
    );
    assert!(id3.is_valid());
    let slice3 = effect_cache.get_slice(id3);
    assert_eq!(
        slice3.particle_layout.min_binding_size() as u32,
        item_size
    );
    assert_eq!(slice3.slice, 0..capacity);
    assert_eq!(effect_cache.buffers().len(), 2);
    {
        let buffers = effect_cache.buffers();
        assert!(buffers[0].is_some()); // id3
        assert!(buffers[1].is_some()); // id2
    }
}

#[test]
fn order_ignores_length_and_layout() {
    let a = EffectSlice {
        slice: 5..9,
        group_index: 3,
        particle_layout: layout(16),
    };
    let b = EffectSlice {
        slice: 5..7,
        group_index: 3,
        particle_layout: layout(32),
    };
    assert_eq!(a.cmp(&b), Ordering::Equal);
    assert_eq!(a.partial_cmp(&b), Some(Ordering::Equal));
    assert!(a != b);
    assert!(a == a.clone());
    assert_eq!(EffectSlice::empty().cmp(&a), Ordering::Less);
    assert_eq!(a.cmp(&EffectSlice::empty()), Ordering::Greater);
    assert_eq!(EffectSlice::empty().slice, 0..0);
    assert_eq!(EffectSlice::empty().particle_layout.attributes, 0);
    assert_eq!(EffectSlice::empty().particle_layout.size, 0);
    assert_eq!(EffectSlice::empty().particle_layout.min_binding_size, 0);
}

#[test]
fn order_is_transitive() {
    let at = |group_index: u32, start: u32| EffectSlice {
        slice: start..start + 1,
        group_index,
        particle_layout: layout(16),
    };
    assert!(at(0, 9) < at(1, 2));
    assert!(at(1, 2) < at(1, 3));
    assert!(at(0, 9) < at(1, 3));
}

#[test]
fn default_slice_is_empty() {
    let slice = SliceRef::default();
    assert_eq!(slice.range, 0..0);
    assert_eq!(slice.len(), 0);
    assert!(slice.particle_layout.is_empty());
    assert_eq!(slice.particle_layout.attributes, 0);
    assert_eq!(slice.particle_layout.size, 0);
    assert_eq!(slice.particle_layout.min_binding_size, 0);
    assert_eq!(slice.particle_layout, ParticleLayout::default());
    assert_eq!(slice, slice.clone());
    assert!(
        slice
            != SliceRef {
                range: 0..1,
                particle_layout: ParticleLayout::empty()
            }
    );
}

#[test]
fn capacity_is_rounded_up() {
    assert_eq!(buffer(0, 16).capacity(), Buffer::MIN_CAPACITY);
    assert_eq!(buffer(1, 16).capacity(), 1);
    assert_eq!(buffer(2, 16).capacity(), 2);
}

#[test]
fn shortest_free_slice_is_recycled_first() {
    let l = layout(16);
    let mut buffer = buffer(1000, 16);
    let mut slices = vec![];
    for size in [30, 1, 10, 1, 20, 1, 10, 1] {
        slices.push(buffer.allocate_slice(size, &l).unwrap());
    }
    for i in [6, 0, 4, 2] {
        assert_eq!(buffer.free_slice(slices[i].clone()), BufferState::Used);
    }
    assert_eq!(buffer.free_slices(), [0..30, 31..41, 42..62, 63..73]);

    // The first of the two shortest ones
    assert_eq!(buffer.allocate_slice(8, &l).unwrap().range, 31..39);
    // What is left of it is the shortest that fits
    assert_eq!(buffer.allocate_slice(2, &l).unwrap().range, 39..41);
    assert_eq!(buffer.allocate_slice(11, &l).unwrap().range, 42..53);
    assert_eq!(buffer.free_slices(), [0..30, 53..62, 63..73]);
    // Nothing fits, so the used size grows
    assert_eq!(buffer.allocate_slice(31, &l).unwrap().range, 74..105);
}

#[test]
fn full_buffer_refuses() {
    let l = layout(16);
    let mut buffer = buffer(10, 16);
    assert!(buffer.can_allocate(10));
    assert!(!buffer.can_allocate(11));
    let first = buffer.allocate_slice(6, &l).unwrap();
    let second = buffer.allocate_slice(4, &l).unwrap();
    assert!(buffer.allocate_slice(1, &l).is_none());
    assert_eq!(buffer.used_size(), 10);

    // The free slice is too short
    assert_eq!(buffer.free_slice(first.clone()), BufferState::Used);
    assert!(!buffer.can_allocate(7));
    assert!(buffer.allocate_slice(7, &l).is_none());
    assert!(buffer.can_allocate(6));
    assert_eq!(buffer.allocate_slice(6, &l).unwrap(), first);

    // Freed slices are not merged
    assert_eq!(buffer.free_slice(first), BufferState::Used);
    assert_eq!(buffer.free_slice(second), BufferState::Free);
    assert_eq!(buffer.allocate_slice(10, &l).unwrap().range, 0..10);
}

#[test]
fn freeing_twice_changes_nothing() {
    let l = layout(16);
    let mut buffer = buffer(100, 16);
    let a = buffer.allocate_slice(10, &l).unwrap();
    let b = buffer.allocate_slice(10, &l).unwrap();
    assert!(!buffer.is_already_free(&a));
    assert_eq!(buffer.free_slice(a.clone()), BufferState::Used);
    assert_eq!(buffer.free_slices(), [0..10]);
    assert_eq!(buffer.slice_count(), 1);
    assert!(buffer.is_already_free(&a));
    assert_eq!(buffer.free_slice(a), BufferState::Used);
    assert_eq!(buffer.slice_count(), 1);
    assert_eq!(buffer.free_slices(), [0..10]);
    assert_eq!(buffer.used_size(), 20);
    // So does freeing a part of a free slice
    let part = SliceRef {
        range: 4..12,
        particle_layout: l,
    };
    assert!(buffer.is_already_free(&part));
    assert_eq!(buffer.free_slice(part), BufferState::Used);
    assert_eq!(buffer.free_slices(), [0..10]);
    assert!(!buffer.is_already_free(&b));
    assert_eq!(buffer.free_slice(b), BufferState::Free);
}

#[test]
fn freeing_the_end_twice_keeps_the_rest() {
    let l = layout(16);
    let mut buffer = buffer(100, 16);
    let a = buffer.allocate_slice(10, &l).unwrap();
    let b = buffer.allocate_slice(10, &l).unwrap();
    assert_eq!(a.range, 0..10);
    assert_eq!(b.range, 10..20);
    assert_eq!(buffer.free_slice(b.clone()), BufferState::Used);
    assert_eq!(buffer.used_size(), 10);
    assert!(buffer.free_slices().is_empty());
    assert_eq!(buffer.slice_count(), 1);
    // The range is above the used part now, and not in use
    assert!(!buffer.is_already_free(&b));
    assert_eq!(buffer.free_slice(b), BufferState::Used);
    assert_eq!(buffer.used_size(), 10);
    assert_eq!(buffer.free_slices(), [10..20]);
    assert_eq!(buffer.slice_count(), 1);
    assert!(buffer.free_slice_corrupts(&a));
}

#[test]
fn freeing_what_was_never_allocated() {
    let l = layout(16);
    let made_up = |range: std::ops::Range<u32>| SliceRef {
        range,
        particle_layout: l,
    };
    // In a buffer that is not used
    let mut unused = buffer(100, 16);
    assert_eq!(unused.free_slice(made_up(0..0)), BufferState::Free);
    assert!(unused.free_slices().is_empty());
    assert_eq!(unused.free_slice(made_up(5..8)), BufferState::Used);
    assert_eq!(unused.free_slice(made_up(2..2)), BufferState::Used);
    assert_eq!(unused.free_slices(), [2..2, 5..8]);
    assert_eq!(unused.used_size(), 0);
    // In a buffer that is: empty ranges never free it
    let mut used = buffer(100, 16);
    let a = used.allocate_slice(10, &l).unwrap();
    assert_eq!(used.free_slice(made_up(10..10)), BufferState::Used);
    assert!(used.free_slices().is_empty());
    assert_eq!(used.free_slice(made_up(3..3)), BufferState::Used);
    assert_eq!(used.free_slices(), [3..3]);
    assert_eq!(used.used_size(), 10);
    assert_eq!(used.slice_count(), 1);
    assert_eq!(used.free_slice(a), BufferState::Free);
    assert!(used.free_slices().is_empty());
}

#[test]
fn freeing_undoes_allocating() {
    let l = layout(16);
    let mut buffer = buffer(100, 16);
    let a = buffer.allocate_slice(10, &l).unwrap();
    let _b = buffer.allocate_slice(10, &l).unwrap();
    buffer.free_slice(a);
    for size in [10, 50] {
        let slice = buffer.allocate_slice(size, &l).unwrap();
        assert_eq!(slice.len(), size);
        buffer.free_slice(slice);
        assert_eq!(buffer.used_size(), 20);
        assert_eq!(buffer.free_slices(), [0..10]);
    }
    // A slice cut from a longer one comes back next to the rest
    let slice = buffer.allocate_slice(4, &l).unwrap();
    buffer.free_slice(slice);
    assert_eq!(buffer.used_size(), 20);
    assert_eq!(buffer.free_slices(), [0..4, 4..10]);
}

#[test]
fn slices_never_overlap() {
    let l = layout(16);
    let mut buffer = buffer(64, 16);
    let mut live: Vec<SliceRef> = vec![];
    let mut state: u32 = 12345;
    for _ in 0..2000 {
        state = state.wrapping_mul(1664525).wrapping_add(1013904223);
        let choice = state >> 16;
        let empty = live.iter().filter(|slice| slice.len() == 0).count();
        assert_eq!(buffer.empty_count(), empty as u64);
        assert_eq!(buffer.slice_count(), (live.len() - empty) as u64);
        if choice % 3 != 0 || live.is_empty() {
            let size = choice / 3 % 9;
            if let Some(slice) = buffer.allocate_slice(size, &l) {
                assert_eq!(slice.len(), size);
                assert!(slice.range.end <= buffer.used_size());
                for other in &live {
                    assert!(
                        slice.len() == 0
                            || other.len() == 0
                            || slice.range.end <= other.range.start
                            || other.range.end <= slice.range.start
                    );
                }
                live.push(slice);
            }
        } else {
            let slice = live.swap_remove(choice as usize % live.len());
            assert!(!buffer.free_slice_corrupts(&slice));
            let freed = buffer.free_slice(slice);
            assert_eq!(freed == BufferState::Free, live.is_empty());
        }
    }
}

#[test]
fn empty_slices() {
    let l = layout(16);
    let mut buffer = buffer(100, 16);
    // At the end of the used size
    let none = buffer.allocate_slice(0, &l).unwrap();
    assert_eq!(none.range, 0..0);
    assert_eq!(buffer.empty_count(), 1);
    assert_eq!(buffer.slice_count(), 0);
    assert_eq!(buffer.free_slice(none), BufferState::Free);
    // At the start of a free slice, which stays as it is
    let a = buffer.allocate_slice(5, &l).unwrap();
    let b = buffer.allocate_slice(5, &l).unwrap();
    buffer.free_slice(a);
    let empty = buffer.allocate_slice(0, &l).unwrap();
    assert_eq!(empty.range, 0..0);
    assert_eq!(buffer.free_slices(), [0..5]);
    // An empty free slice is not recycled
    assert_eq!(buffer.free_slice(empty), BufferState::Used);
    assert_eq!(buffer.free_slices(), [0..0, 0..5]);
    assert_eq!(buffer.empty_count(), 0);
    let empty = buffer.allocate_slice(0, &l).unwrap();
    assert_eq!(empty.range, 10..10);
    // A buffer is in use as long as an empty slice is
    assert_eq!(buffer.free_slice(b), BufferState::Used);
    assert_eq!(buffer.used_size(), 0);
    assert!(buffer.free_slices().is_empty());
    assert_eq!(buffer.free_slice(empty), BufferState::Free);
    assert!(buffer.free_slices().is_empty());
    assert_eq!(buffer.empty_count(), 0);
}

#[test]
fn empty_slice_outlives_the_used_part() {
    let l = layout(16);
    let mut buffer = buffer(100, 16);
    let a = buffer.allocate_slice(5, &l).unwrap();
    let empty = buffer.allocate_slice(0, &l).unwrap();
    assert_eq!(empty.range, 5..5);
    assert_eq!(buffer.free_slice(a), BufferState::Used);
    assert_eq!(buffer.used_size(), 0);
    let b = buffer.allocate_slice(10, &l).unwrap();
    assert_eq!(b.range, 0..10);
    let c = buffer.allocate_slice(10, &l).unwrap();
    assert_eq!(buffer.free_slice(b), BufferState::Used);
    // Now it lies inside of a free slice
    assert!(!buffer.free_slice_corrupts(&empty));
    assert!(buffer.is_already_free(&empty));
    assert_eq!(buffer.free_slice(empty), BufferState::Used);
    assert_eq!(buffer.free_slices(), [0..10]);
    assert!(!buffer.free_slice_corrupts(&c));
    assert_eq!(buffer.free_slice(c), BufferState::Free);
    assert!(buffer.free_slices().is_empty());
    assert_eq!(buffer.used_size(), 0);
}

#[test]
fn empty_free_slice_does_not_hold_back_others() {
    let l = layout(16);
    let mut buffer = buffer(100, 16);
    let a = buffer.allocate_slice(2, &l).unwrap();
    let b = buffer.allocate_slice(3, &l).unwrap();
    let empty = buffer.allocate_slice(0, &l).unwrap();
    assert_eq!(empty.range, 5..5);
    assert_eq!(buffer.free_slice(b), BufferState::Used);
    assert_eq!(buffer.used_size(), 2);
    // Freed above the used part
    assert_eq!(buffer.free_slice(empty), BufferState::Used);
    assert_eq!(buffer.free_slices(), [5..5]);
    assert_eq!(buffer.used_size(), 2);
    // A slice allocated around it can be freed, and takes its place
    let c = buffer.allocate_slice(10, &l).unwrap();
    assert_eq!(c.range, 2..12);
    let d = buffer.allocate_slice(4, &l).unwrap();
    assert_eq!(d.range, 12..16);
    assert!(!buffer.is_already_free(&c));
    assert_eq!(buffer.free_slice(c), BufferState::Used);
    assert_eq!(buffer.free_slices(), [2..12]);
    assert_eq!(buffer.free_slice(d), BufferState::Used);
    assert_eq!(buffer.used_size(), 2);
    // So can the last slice
    let e = buffer.allocate_slice(1, &l).unwrap();
    let empty = buffer.allocate_slice(0, &l).unwrap();
    assert_eq!(empty.range, 3..3);
    assert_eq!(buffer.free_slice(e), BufferState::Used);
    assert_eq!(buffer.free_slice(empty), BufferState::Used);
    assert_eq!(buffer.free_slices(), [3..3]);
    assert!(!buffer.free_slice_corrupts(&a));
    assert_eq!(buffer.free_slice(a), BufferState::Free);
    assert!(buffer.free_slices().is_empty());
    assert_eq!(buffer.used_size(), 0);
}

#[test]
fn corrupting_free_is_detected() {
    let l = layout(16);
    let mut buffer = buffer(100, 16);
    let a = buffer.allocate_slice(5, &l).unwrap();
    let b = buffer.allocate_slice(5, &l).unwrap();
    buffer.free_slice(a);
    assert_eq!(buffer.free_slices(), [0..5]);
    let made_up = |start: u32| SliceRef {
        range: start..10,
        particle_layout: l,
    };
    assert!(buffer.free_slice_corrupts(&made_up(0)));
    assert!(!buffer.free_slice_corrupts(&b));
    // A range that overlaps a free slice is not counted
    assert!(!buffer.free_slice_corrupts(&made_up(3)));
    assert_eq!(buffer.free_slice(made_up(3)), BufferState::Used);
    assert_eq!(buffer.used_size(), 3);
    assert_eq!(buffer.free_slices(), [0..5]);
    assert_eq!(buffer.slice_count(), 1);
}

#[test]
fn overflowing_allocation_is_detected() {
    let l = layout(16);
    let mut buffer = buffer(u32::MAX, 16);
    assert!(!buffer.allocation_overflows(u32::MAX));
    let half = buffer.allocate_slice(0x8000_0000, &l).unwrap();
    assert!(!buffer.allocation_overflows(0x7fff_ffff));
    assert!(buffer.allocation_overflows(0x8000_0000));
    let rest = buffer.allocate_slice(0x7fff_ffff, &l).unwrap();
    // A free slice is long enough
    buffer.free_slice(half);
    assert!(!buffer.allocation_overflows(0x8000_0000));
    assert_eq!(
        buffer.allocate_slice(0x8000_0000, &l).unwrap().range,
        0..0x8000_0000
    );
    assert_eq!(buffer.free_slice(rest), BufferState::Used);
}

#[test]
fn compatible_assets() {
    let buffer = buffer(10, 16);
    assert!(buffer.is_compatible(&asset(1)));
    assert!(!buffer.is_compatible(&asset(2)));
    assert!(!buffer.is_compatible(&HandleId::new(Uuid::from_u128(0), 1)));
    assert!(!buffer.is_compatible(&HandleId::from("effect.asset")));
}

#[test]
fn buffer_getters_and_bindings() {
    let flags = LayoutFlags {
        local_space_simulation: true,
        other_flags: 0b101,
    };
    let properties = PropertyLayout {
        properties: 9,
        min_binding_size: 20,
    };
    let buffer: Buffer = EffectBuffer::new(
        asset(1),
        100,
        layout(48),
        properties,
        flags,
        resources("b", true),
    );
    assert_eq!(*buffer.particle_layout(), layout(48));
    assert_eq!(*buffer.property_layout(), properties);
    assert_eq!(buffer.layout_flags(), flags);
    assert_eq!(buffer.properties_buffer().unwrap(), "b_properties");
    assert_eq!(*buffer.particle_layout_bind_group_simulate(), "simulate");
    assert_eq!(
        *buffer.particle_layout_bind_group_with_dispatch(),
        "with_dispatch"
    );

    let binding = buffer.max_binding();
    assert_eq!(binding.buffer, "b");
    assert_eq!((binding.offset, binding.size), (0, 4800));
    let binding = buffer.binding(17);
    assert_eq!(binding.buffer, "b");
    assert_eq!((binding.offset, binding.size), (0, 17));
    let binding = buffer.indirect_max_binding();
    assert_eq!(binding.buffer, "b_indirect");
    assert_eq!((binding.offset, binding.size), (0, 1200));
    let binding = buffer.properties_max_binding().unwrap();
    assert_eq!(binding.buffer, "b_properties");
    assert_eq!((binding.offset, binding.size), (0, 20));
}

#[test]
fn buffer_without_properties() {
    let buffer = buffer(u32::MAX, u32::MAX);
    assert!(buffer.properties_buffer().is_none());
    assert!(buffer.properties_max_binding().is_none());
    assert_eq!(
        buffer.max_binding().size,
        u32::MAX as u64 * u32::MAX as u64
    );
    assert_eq!(buffer.indirect_max_binding().size, u32::MAX as u64 * 12);
}

#[test]
fn identifiers() {
    let mut ids = EffectCacheIds::new();
    let first = EffectCacheId::new(&mut ids);
    let second = EffectCacheId::new(&mut ids);
    assert_eq!(first, EffectCacheId(0));
    assert_eq!(second, EffectCacheId(1));
    assert_eq!(first, EffectCacheId::default());
    assert!(first.is_valid());
    assert!(!EffectCacheId(EffectCacheId::INVALID).is_valid());
    assert_eq!(EffectCacheId::INVALID, u64::MAX);
}

#[test]
fn effects_of_one_asset_share_a_buffer() {
    let l = layout(32);
    let none = PropertyLayout::empty();
    let mut ids = EffectCacheIds::new();
    let mut cache = Cache::new();

    // Put a large buffer into an unused entry
    let first = insert(&mut cache, asset(1), 1, &l, &none, &mut ids);
    assert_eq!(cache.remove(first), Some(0));
    cache.buffers_mut()[0] = Some(buffer(100, 32));

    let a = insert(&mut cache, asset(1), 60, &l, &none, &mut ids);
    let other = insert(&mut cache, asset(2), 10, &l, &none, &mut ids);
    let b = insert(&mut cache, asset(1), 40, &l, &none, &mut ids);
    let c = insert(&mut cache, asset(1), 1, &l, &none, &mut ids);
    assert_eq!(
        (a, other, b, c),
        (
            EffectCacheId(1),
            EffectCacheId(2),
            EffectCacheId(3),
            EffectCacheId(4)
        )
    );
    assert_eq!(cache.buffer_index(a), Some(0));
    assert_eq!(cache.buffer_index(other), Some(1));
    assert_eq!(cache.buffer_index(b), Some(0));
    assert_eq!(cache.buffer_index(c), Some(2));
    assert_eq!(cache.get_slice(a).slice, 0..60);
    assert_eq!(cache.get_slice(b).slice, 60..100);
    assert_eq!(cache.get_slice(c).slice, 0..1);
    assert_eq!(cache.get_slice(c).group_index, 2);

    // The first buffer with room is used again
    assert_eq!(cache.remove(a), None);
    assert_eq!(cache.buffer_index(a), None);
    let d = insert(&mut cache, asset(1), 50, &l, &none, &mut ids);
    assert_eq!(cache.buffer_index(d), Some(0));
    assert_eq!(cache.get_slice(d).slice, 0..50);
    assert_eq!(cache.get_slice(b).slice, 60..100);

    assert_eq!(cache.remove(b), None);
    assert_eq!(cache.remove(d), Some(0));
    assert!(cache.buffers()[0].is_none());
    assert!(cache.buffers()[1].is_some());
    assert!(cache.buffers()[2].is_some());
}

#[test]
fn last_effect_drops_the_buffer() {
    let l = layout(32);
    let none = PropertyLayout::empty();
    for zero_goes_first in [false, true] {
        let mut ids = EffectCacheIds::new();
        let mut cache = Cache::new();
        let zero = insert(&mut cache, asset(1), 0, &l, &none, &mut ids);
        assert_eq!(cache.get_slice(zero).slice, 0..0);
        // The minimum capacity leaves room for one more particle
        let one = insert(&mut cache, asset(1), 1, &l, &none, &mut ids);
        assert_eq!(cache.buffer_index(one), Some(0));
        assert_eq!(cache.get_slice(one).slice, 0..1);
        assert_eq!(cache.buffers().len(), 1);

        let (first, last) = if zero_goes_first {
            (zero, one)
        } else {
            (one, zero)
        };
        assert!(!cache.remove_corrupts(first));
        assert_eq!(cache.remove(first), None);
        assert!(cache.buffers()[0].is_some());
        assert_eq!(cache.buffer_index(first), None);
        assert_eq!(cache.buffer_index(last), Some(0));
        assert!(!cache.remove_corrupts(last));
        assert_eq!(cache.remove(last), Some(0));
        assert!(cache.buffers()[0].is_none());
        // Removing it again changes nothing
        assert!(!cache.remove_corrupts(last));
        assert_eq!(cache.remove(last), None);
        assert_eq!(cache.buffers().len(), 1);
    }
}

#[test]
fn effect_without_particles_keeps_its_buffer() {
    let l = layout(32);
    let none = PropertyLayout::empty();
    let mut ids = EffectCacheIds::new();
    let mut cache = Cache::new();
    let a = insert(&mut cache, asset(1), 5, &l, &none, &mut ids);
    let empty = insert(&mut cache, asset(1), 0, &l, &none, &mut ids);
    assert_eq!(cache.get_slice(empty).slice, 5..5);
    assert_eq!(cache.remove(a), None);
    let b = insert(&mut cache, asset(2), 3, &l, &none, &mut ids);
    assert_eq!(cache.buffer_index(b), Some(1));
    let c = insert(&mut cache, asset(1), 4, &l, &none, &mut ids);
    assert_eq!(cache.buffer_index(c), Some(0));
    assert_eq!(cache.get_slice(c).slice, 0..4);
    assert_eq!(cache.remove(empty), None);
    assert_eq!(cache.remove(c), Some(0));
    assert_eq!(cache.remove(b), Some(1));
}

#[test]
fn effects_stay_apart_for_every_capacity() {
    let l = layout(32);
    let none = PropertyLayout::empty();
    let mut ids = EffectCacheIds::new();
    let mut cache = Cache::new();
    let first = insert(&mut cache, asset(1), 1, &l, &none, &mut ids);
    cache.remove(first);
    cache.buffers_mut()[0] = Some(buffer(40, 32));
    let mut live: Vec<EffectCacheId> = vec![];
    let mut state: u32 = 777;
    for _ in 0..2000 {
        state = state.wrapping_mul(1664525).wrapping_add(1013904223);
        let choice = state >> 16;
        if choice % 2 != 0 || live.is_empty() {
            let id = insert(&mut cache, asset(1), choice % 7, &l, &none, &mut ids);
            let slice = cache.get_slice(id);
            let buffer = cache.buffers()[slice.group_index as usize].as_ref().unwrap();
            assert!(buffer.is_compatible(&asset(1)));
            assert_eq!(slice.slice.end - slice.slice.start, choice % 7);
            assert!(slice.slice.end <= buffer.capacity());
            for other in &live {
                let other = cache.get_slice(*other);
                assert!(
                    other.group_index != slice.group_index
                        || other.slice.is_empty()
                        || slice.slice.is_empty()
                        || other.slice.end <= slice.slice.start
                        || slice.slice.end <= other.slice.start
                );
            }
            live.push(id);
        } else {
            let id = live.swap_remove(choice as usize % live.len());
            let index = cache.buffer_index(id).unwrap();
            let shared = live.iter().any(|other| cache.buffer_index(*other) == Some(index));
            assert!(!cache.remove_corrupts(id));
            assert_eq!(
                cache.remove(id),
                if shared { None } else { Some(index as u32) }
            );
            assert_eq!(cache.buffers()[index].is_some(), shared);
        }
    }
}

#[test]
fn property_buffers() {
    let l = layout(32);
    let properties = PropertyLayout {
        properties: 3,
        min_binding_size: 16,
    };
    let mut ids = EffectCacheIds::new();
    let mut cache = Cache::new();
    let with = insert(&mut cache, asset(1), 4, &l, &properties, &mut ids);
    let without = insert(&mut cache, asset(2), 4, &l, &PropertyLayout::empty(), &mut ids);
    assert_eq!(
        cache.get_property_buffer(with).unwrap(),
        "hanabi:buffer:effect0_particles_properties"
    );
    assert!(cache.get_property_buffer(without).is_none());
    assert!(cache.get_property_buffer(EffectCacheId(99)).is_none());
    // The entry of the buffer is not used anymore
    cache.buffers_mut()[0] = None;
    assert!(cache.get_property_buffer(with).is_none());
    assert_eq!(cache.remove(with), None);
}

#[test]
fn overflowing_insertion_is_detected() {
    let l = layout(1);
    let none = PropertyLayout::empty();
    let mut ids = EffectCacheIds::new();
    let mut cache = Cache::new();
    let huge = insert(&mut cache, asset(1), u32::MAX, &l, &none, &mut ids);
    assert!(cache.insert_overflows(&asset(1), 1));
    assert!(!cache.insert_overflows(&asset(1), 0));
    assert!(!cache.insert_overflows(&asset(2), 1));
    cache.remove(huge);
    assert!(!cache.insert_overflows(&asset(1), 1));
}

#[test]
fn oversized_effect_is_detected() {
    let l = layout(32);
    let none = PropertyLayout::empty();
    let mut ids = EffectCacheIds::new();
    let mut cache = Cache::new();
    assert!(cache.effect_size_overflows(&asset(1), 134217728, &l));
    assert!(!cache.effect_size_overflows(&asset(1), 134217727, &l));
    // It fits into a buffer that is large enough already
    let first = insert(&mut cache, asset(1), 1, &l, &none, &mut ids);
    cache.remove(first);
    cache.buffers_mut()[0] = Some(buffer(134217728, 32));
    assert!(!cache.effect_size_overflows(&asset(1), 134217728, &l));
    assert!(cache.effect_size_overflows(&asset(2), 134217728, &l));
    let id = insert(&mut cache, asset(1), 134217728, &l, &none, &mut ids);
    assert_eq!(cache.get_slice(id).slice, 0..134217728);
}

#[test]
fn removal_that_corrupts_is_detected() {
    let l = layout(32);
    let none = PropertyLayout::empty();
    let mut ids = EffectCacheIds::new();
    let mut cache = Cache::new();
    let id = insert(&mut cache, asset(1), 5, &l, &none, &mut ids);
    assert!(!cache.remove_corrupts(id));
    // Put another buffer in the place of that of the effect
    let mut other = buffer(10, 32);
    let a = other.allocate_slice(2, &l).unwrap();
    other.allocate_slice(3, &l).unwrap();
    other.free_slice(a);
    cache.buffers_mut()[0] = Some(other);
    assert!(cache.remove_corrupts(id));
}

#[test]
fn layouts_of_equal_size_differ() {
    let mut other = layout(32);
    other.attributes = 1;
    let a = SliceRef {
        range: 0..4,
        particle_layout: layout(32),
    };
    let b = SliceRef {
        range: 0..4,
        particle_layout: other,
    };
    assert!(a != b);
}
