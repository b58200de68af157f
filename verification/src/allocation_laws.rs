//! What holds of the slices of a buffer across operations.
use std::ops::Range;
use vstd::prelude::*;

use crate::allocation::{
    apart, best_fit, drain, fill_gap, fits, in_free_slice, insert_ordered, is_best_fit, is_gap,
    lemma_filled_gap_is_ordered, lemma_gap_is_unique, ordered, overlaps_any, overlaps_particles,
    range_len, recycle, rounded_capacity, separate, Allocation, BufferState, MIN_CAPACITY,
};

verus! {

/// No particle of a new buffer is in use.
pub proof fn law_new_buffer_is_unused(capacity: u32)
    requires
        MIN_CAPACITY <= capacity,
    ensures
        Allocation::unused(capacity).settled(),
        forall|particle: int| !Allocation::unused(capacity).live(particle),
{
}

/// If any free slice fits, one of them fits best.
proof fn lemma_best_fit_exists(free: Seq<Range<u32>>, size: u32, witness: int)
    requires
        0 <= witness < free.len(),
        fits(free, size, witness),
    ensures
        exists|i: int| is_best_fit(free, size, i),
    decreases range_len(free[witness]), witness,
{
    if !is_best_fit(free, size, witness) {
        if exists|j: int|
            0 <= j < free.len() && #[trigger] fits(free, size, j) && range_len(free[j])
                < range_len(free[witness]) {
            let j = choose|j: int|
                0 <= j < free.len() && #[trigger] fits(free, size, j) && range_len(free[j])
                    < range_len(free[witness]);
            lemma_best_fit_exists(free, size, j);
        } else {
            let j = choose|j: int|
                0 <= j < witness && #[trigger] fits(free, size, j) && range_len(free[j])
                    <= range_len(free[witness]);
            assert(fits(free, size, j));
            lemma_best_fit_exists(free, size, j);
        }
    }
}

/// A slice of at least one particle is refused exactly if no free slice fits it and there is no
/// room left above the high-water mark.
pub proof fn law_allocate_uses_any_room(before: Allocation, size: u32)
    requires
        before.settled(),
        1 <= size,
    ensures
        before.allocate(size) is None <==> {
            &&& forall|i: int|
                0 <= i < before.free_slices.len() ==> !#[trigger] fits(
                    before.free_slices,
                    size,
                    i,
                )
            &&& before.used_size + size > before.capacity
        },
        before.tight() ==> forall|i: int|
            0 <= i < before.free_slices.len() ==> (#[trigger] fits(before.free_slices, size, i)
                <==> range_len(before.free_slices[i]) >= size),
{
    let free = before.free_slices;
    if exists|i: int| 0 <= i < free.len() && #[trigger] fits(free, size, i) {
        let i = choose|i: int| 0 <= i < free.len() && #[trigger] fits(free, size, i);
        lemma_best_fit_exists(free, size, i);
        let best = best_fit(free, size).unwrap();
        assert(is_best_fit(free, size, best));
        assert(free[i].end <= before.used_size);
        assert(size <= before.capacity);
    }
    if before.tight() {
        assert forall|i: int| 0 <= i < free.len() && range_len(free[i])
            >= size implies #[trigger] fits(free, size, i) by {
            assert(free[i].end < before.used_size);
        }
    }
}

/// An allocated slice has the requested length and lies inside the buffer. None of its
/// particles was in use before, all of them are after, and no other particle changes.
pub proof fn law_allocate_takes_unused_particles(before: Allocation, size: u32)
    requires
        before.settled(),
        before.allocate(size) is Some,
        !before.allocate_overflows(size),
    ensures
        ({
            let (range, after) = before.allocate(size).unwrap();
            &&& after.settled()
            &&& after.holds(range)
            &&& range_len(range) == size
            &&& range.end <= before.capacity
            &&& after.capacity == before.capacity
            &&& after == (Allocation {
                used_size: after.used_size,
                free_slices: after.free_slices,
                ..before.counting(size)
            })
            &&& forall|particle: int|
                range.start <= particle < range.end ==> !#[trigger] before.live(particle)
            &&& forall|particle: int| #[trigger]
                after.live(particle) <==> before.live(particle) || range.start <= particle
                    < range.end
        }),
{
    let free = before.free_slices;
    let (range, after) = before.allocate(size).unwrap();
    match recycle(free, size) {
        Some((_, rest)) => {
            let i = best_fit(free, size).unwrap();
            assert(is_best_fit(free, size, i));
            lemma_rest_of_recycled(free, size);
            assert(free[i].end <= before.used_size);
            assert forall|j: int| 0 <= j < rest.len() && (#[trigger] rest[j]).start
                < rest[j].end implies exists|k: int|
                0 <= k < free.len() && (#[trigger] free[k]).start < free[k].end && free[k].end
                    == rest[j].end by {
                if range_len(free[i]) > size || j < i {
                    assert(free[j].end == rest[j].end);
                } else {
                    assert(free[j + 1] == rest[j]);
                }
            }
            if after.last_free_touches_mark() {
                if range_len(free[i]) > size || i < free.len() - 1 {
                    assert(free.last().end == rest.last().end);
                } else {
                    assert(free[rest.len() - 1].end <= free[i].start);
                }
            }
            assert forall|particle: int| range.start <= particle < range.end implies !#[trigger]
            before.live(particle) by {
                assert(free[i].start <= particle < free[i].end);
            }
            assert forall|particle: int| #[trigger]
                after.live(particle) <==> before.live(particle) || range.start <= particle
                    < range.end by {
                if range.start <= particle < range.end {
                    assert forall|j: int| 0 <= j < rest.len() implies !((#[trigger] rest[j]).start
                        <= particle < rest[j].end) by {
                        assert(separate(rest[j], range));
                    }
                } else if before.live(particle) {
                    assert forall|j: int| 0 <= j < rest.len() implies !((#[trigger] rest[j]).start
                        <= particle < rest[j].end) by {
                        let k = choose|k: int|
                            0 <= k < free.len() && (#[trigger] free[k]).start <= rest[j].start
                                && rest[j].end <= free[k].end;
                        assert(!(free[k].start <= particle < free[k].end));
                    }
                } else if after.live(particle) {
                    let k = choose|k: int|
                        0 <= k < free.len() && (#[trigger] free[k]).start <= particle
                            < free[k].end;
                    assert(free[k].start <= particle < free[k].end);
                    if range_len(free[i]) > size || k < i {
                        assert(rest[k].start <= particle < rest[k].end);
                    } else {
                        assert(rest[k - 1] == free[k]);
                    }
                    assert(false);
                }
            }
        },
        None => {},
    }
}

/// What remains of the free slices when one is recycled.
proof fn lemma_rest_of_recycled(free: Seq<Range<u32>>, size: u32)
    requires
        ordered(free),
        recycle(free, size) is Some,
    ensures
        ({
            let (range, rest) = recycle(free, size).unwrap();
            let i = best_fit(free, size).unwrap();
            &&& 0 <= i < free.len()
            &&& range.start == free[i].start
            &&& range.end == free[i].start + size
            &&& range.end <= free[i].end
            &&& ordered(rest)
            &&& forall|j: int| 0 <= j < rest.len() ==> separate(#[trigger] rest[j], range)
            &&& forall|j: int|
                0 <= j < rest.len() ==> exists|k: int|
                    0 <= k < free.len() && (#[trigger] free[k]).start <= (#[trigger] rest[j]).start
                        && rest[j].end <= free[k].end
        }),
{
    let (range, rest) = recycle(free, size).unwrap();
    let i = best_fit(free, size).unwrap();
    assert(is_best_fit(free, size, i));
    assert forall|j: int| 0 <= j < rest.len() implies exists|k: int|
        0 <= k < free.len() && (#[trigger] free[k]).start <= (#[trigger] rest[j]).start
            && rest[j].end <= free[k].end by {
        if range_len(free[i]) > size || j < i {
            assert(free[j].start <= rest[j].start && rest[j].end <= free[j].end);
        } else {
            assert(rest[j] == free[j + 1]);
            assert(free[j + 1].start <= rest[j].start);
        }
    }
}

/// An allocated slice shares no particle with any slice in use, and those stay in use.
pub proof fn law_allocate_keeps_slices_apart(before: Allocation, size: u32, other: Range<u32>)
    requires
        before.settled(),
        before.allocate(size) is Some,
        before.holds(other),
    ensures
        ({
            let (range, after) = before.allocate(size).unwrap();
            &&& apart(range, other)
            &&& after.holds(other)
        }),
{
    let free = before.free_slices;
    match recycle(free, size) {
        Some((range, rest)) if other.start < other.end => {
            let i = best_fit(free, size).unwrap();
            lemma_rest_of_recycled(free, size);
            assert(is_best_fit(free, size, i));
            assert(separate(free[i], other));
            assert forall|j: int| 0 <= j < rest.len() && (#[trigger] rest[j]).start
                < rest[j].end implies separate(rest[j], other) by {
                let k = choose|k: int|
                    0 <= k < free.len() && (#[trigger] free[k]).start <= rest[j].start
                        && rest[j].end <= free[k].end;
                assert(separate(free[k], other));
            }
        },
        _ => {},
    }
}

/// Draining keeps what precedes the drained slices, stops at a slice that does not touch the
/// high-water mark, and lowers the mark past free particles only.
proof fn lemma_drain(used_size: u32, free: Seq<Range<u32>>)
    requires
        ordered(free),
        forall|i: int|
            0 <= i < free.len() && (#[trigger] free[i]).start < free[i].end ==> free[i].end
                <= used_size,
    ensures
        ({
            let (mark, rest) = drain(used_size, free);
            &&& mark <= used_size
            &&& rest.len() <= free.len()
            &&& rest == free.take(rest.len() as int)
            &&& ordered(rest)
            &&& rest.len() > 0 ==> rest.last().end != mark
            &&& forall|i: int|
                0 <= i < rest.len() && (#[trigger] rest[i]).start < rest[i].end ==> rest[i].end
                    <= mark
            &&& forall|i: int| rest.len() <= i < free.len() ==> mark <= (#[trigger] free[i]).start
            &&& forall|particle: int|
                mark <= particle < used_size ==> #[trigger] in_free_slice(free, particle)
        }),
    decreases free.len(),
{
    let (mark, rest) = drain(used_size, free);
    if free.len() > 0 && free.last().end == used_size {
        let last = free.last();
        let init = free.drop_last();
        assert forall|i: int| 0 <= i < init.len() implies (#[trigger] init[i]).end
            <= last.start by {
            assert(init[i] == free[i]);
        }
        lemma_drain(last.start, init);
        assert(init.take(rest.len() as int) =~= free.take(rest.len() as int));
        assert forall|i: int| rest.len() <= i < free.len() implies mark
            <= (#[trigger] free[i]).start by {
            if i < init.len() {
                assert(init[i] == free[i]);
            }
        }
        assert forall|particle: int| mark <= particle < used_size implies #[trigger]
        in_free_slice(free, particle) by {
            if particle < last.start {
                assert(in_free_slice(init, particle));
                let i = choose|i: int|
                    0 <= i < init.len() && (#[trigger] init[i]).start <= particle < init[i].end;
                assert(free[i].start <= particle < free[i].end);
            } else {
                assert(free[free.len() - 1].start <= particle);
            }
        }
    } else {
        assert(free.take(free.len() as int) =~= free);
    }
}

/// Draining does not lower the high-water mark if no free slice that holds particles touches it.
proof fn lemma_drain_keeps_mark(used_size: u32, free: Seq<Range<u32>>)
    requires
        ordered(free),
        forall|i: int|
            0 <= i < free.len() && (#[trigger] free[i]).start < free[i].end ==> free[i].end
                < used_size,
    ensures
        drain(used_size, free).0 == used_size,
    decreases free.len(),
{
    if free.len() > 0 && free.last().end == used_size {
        assert(free[free.len() - 1].start == used_size);
        lemma_drain_keeps_mark(used_size, free.drop_last());
    }
}

/// Every range that overlaps no free slice that holds particles has a place among the free slices.
proof fn lemma_insert_ordered(free: Seq<Range<u32>>, range: Range<u32>)
    requires
        ordered(free),
        range.start <= range.end,
        !overlaps_particles(free, range),
    ensures
        exists|first: int, past: int| #[trigger]
            is_gap(free, range, first, past) && insert_ordered(free, range) == fill_gap(
                free,
                range,
                first,
                past,
            ),
        ordered(insert_ordered(free, range)),
{
    let first = lemma_first_not_before(free, range.start);
    let past = lemma_first_from(free, range.end, first);
    assert forall|i: int| first <= i < past implies range.start < (#[trigger] free[i]).end
        && free[i].start == free[i].end && free[i].start < range.end by {
        assert(!(free[i].start < free[i].end && !separate(free[i], range)));
    }
    assert(is_gap(free, range, first, past));
    lemma_gap_is_unique(free, range, first, past);
    lemma_filled_gap_is_ordered(free, range, first, past);
}

/// The position of the first free slice that ends above a particle.
proof fn lemma_first_not_before(free: Seq<Range<u32>>, start: u32) -> (first: int)
    requires
        ordered(free),
    ensures
        0 <= first <= free.len(),
        forall|i: int| 0 <= i < first ==> (#[trigger] free[i]).end <= start,
        forall|i: int| first <= i < free.len() ==> (#[trigger] free[i]).end > start,
    decreases free.len(),
{
    if free.len() == 0 || free[free.len() - 1].end <= start {
        free.len() as int
    } else {
        let init = free.drop_last();
        let first = lemma_first_not_before(init, start);
        assert forall|i: int| 0 <= i < first implies (#[trigger] free[i]).end <= start by {
            assert(init[i] == free[i]);
        }
        assert forall|i: int| first <= i < free.len() implies (#[trigger] free[i]).end
            > start by {
            if i < init.len() {
                assert(init[i] == free[i]);
            }
        }
        first
    }
}

/// The position of the first free slice, from a given one on, that starts at or above a particle.
proof fn lemma_first_from(free: Seq<Range<u32>>, end: u32, from: int) -> (past: int)
    requires
        ordered(free),
        0 <= from <= free.len(),
    ensures
        from <= past <= free.len(),
        forall|i: int| from <= i < past ==> (#[trigger] free[i]).start < end,
        forall|i: int| past <= i < free.len() ==> (#[trigger] free[i]).start >= end,
    decreases free.len() - from,
{
    if from < free.len() && free[from].start < end {
        lemma_first_from(free, end, from + 1)
    } else {
        from
    }
}

/// What becomes of the free slices when a range becomes one of them.
proof fn lemma_particles_after_insert(free: Seq<Range<u32>>, range: Range<u32>)
    requires
        ordered(free),
        range.start <= range.end,
        !overlaps_particles(free, range),
    ensures
        ({
            let more = insert_ordered(free, range);
            &&& ordered(more)
            &&& forall|i: int|
                0 <= i < more.len() ==> (#[trigger] more[i]) == range || free.contains(more[i])
            &&& more.contains(range)
            &&& more.last() == range || (free.len() > 0 && more.last() == free.last())
            &&& forall|particle: int| #[trigger]
                in_free_slice(more, particle) <==> in_free_slice(free, particle) || range.start
                    <= particle < range.end
        }),
{
    lemma_insert_ordered(free, range);
    let (first, past) = choose|first: int, past: int| #[trigger]
        is_gap(free, range, first, past) && insert_ordered(free, range) == fill_gap(
            free,
            range,
            first,
            past,
        );
    let more = insert_ordered(free, range);
    assert(more[first] == range);
    assert forall|i: int| 0 <= i < more.len() implies #[trigger] more[i] == (if i < first {
        free[i]
    } else if i == first {
        range
    } else {
        free[i - first - 1 + past]
    }) by {}
    assert forall|particle: int| #[trigger]
        in_free_slice(more, particle) <==> in_free_slice(free, particle) || range.start <= particle
            < range.end by {
        if in_free_slice(free, particle) {
            let i = choose|i: int|
                0 <= i < free.len() && (#[trigger] free[i]).start <= particle < free[i].end;
            assert(!(first <= i < past));
            assert(more[if i < first {
                i
            } else {
                i - past + first + 1
            }] == free[i]);
        }
        if range.start <= particle < range.end {
            assert(more[first].start <= particle < more[first].end);
        }
        if in_free_slice(more, particle) && !(range.start <= particle < range.end) {
            let i = choose|i: int|
                0 <= i < more.len() && (#[trigger] more[i]).start <= particle < more[i].end;
            assert(free[if i < first {
                i
            } else {
                i - first - 1 + past
            }] == more[i]);
        }
    }
}

/// Freeing a slice in use ends the use of exactly its particles, provided that the last slice holds
/// every particle in use.
pub proof fn law_release_ends_use(before: Allocation, range: Range<u32>)
    requires
        before.settled(),
        before.frees(range),
        before.is_last(range) ==> forall|particle: int| #[trigger]
            before.live(particle) ==> range.start <= particle < range.end,
    ensures
        !before.release_corrupts(range),
        before.release(range).settled(),
        before.release(range) == (Allocation {
            used_size: before.release(range).used_size,
            free_slices: before.release(range).free_slices,
            ..before.uncounting(range)
        }),
        forall|particle: int| #[trigger]
            before.release(range).live(particle) <==> before.live(particle) && !(range.start
                <= particle < range.end),
{
    let free = before.free_slices;
    let after = before.release(range);
    if range.end == before.used_size {
        assert forall|i: int| 0 <= i < free.len() && (#[trigger] free[i]).start
            < free[i].end implies free[i].end <= range.start by {
            if range.start < range.end {
                assert(separate(free[i], range));
            }
        }
        lemma_drain(range.start, free);
    }
    if before.is_last(range) {
    } else if range.end == before.used_size {
        let rest = after.free_slices;
        assert forall|particle: int| #[trigger]
            after.live(particle) <==> before.live(particle) && !(range.start <= particle
                < range.end) by {
            if after.live(particle) {
                assert forall|i: int| 0 <= i < free.len() implies !((#[trigger] free[i]).start
                    <= particle < free[i].end) by {
                    if i < rest.len() {
                        assert(rest[i] == free[i]);
                    }
                }
            } else if before.live(particle) && particle < range.start {
                if particle < after.used_size {
                    let i = choose|i: int|
                        0 <= i < rest.len() && (#[trigger] rest[i]).start <= particle
                            < rest[i].end;
                    assert(free[i].start <= particle < free[i].end);
                } else {
                    assert(in_free_slice(free, particle));
                }
            }
        }
    } else if !before.already_free(range) {
        if range.start == range.end && overlaps_particles(free, range) {
            assert(overlaps_any(free, range));
        }
        lemma_particles_after_insert(free, range);
        let more = after.free_slices;
        assert forall|i: int| 0 <= i < more.len() && (#[trigger] more[i]).start
            < more[i].end implies more[i].end <= before.used_size && (before.tight()
            ==> more[i].end < before.used_size) by {
            if more[i] != range {
                let j = choose|j: int| 0 <= j < free.len() && free[j] == more[i];
                assert(free[j].start < free[j].end);
            }
        }
    }
}

/// Freeing a slice in use, other than the last one, leaves every other slice in use.
pub proof fn law_release_keeps_other_slices(
    before: Allocation,
    range: Range<u32>,
    other: Range<u32>,
)
    requires
        before.settled(),
        before.frees(range),
        before.holds(other),
        apart(range, other),
        !before.is_last(range),
    ensures
        before.release(range).holds(other),
{
    let free = before.free_slices;
    let after = before.release(range);
    law_release_ends_use(before, range);
    if other.start < other.end {
        assert forall|i: int| 0 <= i < free.len() && (#[trigger] free[i]).start
            < free[i].end implies separate(free[i], other) by {}
        let last = other.end - 1;
        assert(before.live(last)) by {
            assert forall|i: int| 0 <= i < free.len() implies !((#[trigger] free[i]).start <= last
                < free[i].end) by {}
        }
        assert(after.live(last));
        if range.end == before.used_size {
            assert forall|i: int| 0 <= i < free.len() && (#[trigger] free[i]).start
                < free[i].end implies free[i].end <= range.start by {
                if range.start < range.end {
                    assert(separate(free[i], range));
                }
            }
            lemma_drain(range.start, free);
            assert forall|i: int| 0 <= i < after.free_slices.len() && (
            #[trigger] after.free_slices[i]).start
                < after.free_slices[i].end implies separate(after.free_slices[i], other) by {
                assert(after.free_slices[i] == free[i]);
            }
        } else if !before.already_free(range) {
            if range.start == range.end && overlaps_particles(free, range) {
                assert(overlaps_any(free, range));
            }
            lemma_particles_after_insert(free, range);
            assert forall|i: int| 0 <= i < after.free_slices.len() && (
            #[trigger] after.free_slices[i]).start
                < after.free_slices[i].end implies separate(after.free_slices[i], other) by {
                if after.free_slices[i] != range {
                    let j = choose|j: int| 0 <= j < free.len() && free[j] == after.free_slices[i];
                    assert(free[j].start < free[j].end);
                }
            }
        }
    }
}

/// As long as no free slice that holds particles touches the high-water mark, the last particle
/// in use is right below it.
pub proof fn law_last_particle_in_use_is_below_mark(state: Allocation)
    requires
        state.settled(),
        state.tight(),
    ensures
        state.used_size > 0 ==> state.live(state.used_size - 1),
        state.used_size == 0 <==> forall|particle: int| !state.live(particle),
        forall|particle: int| #[trigger] state.live(particle) ==> particle < state.used_size,
{
    if state.used_size > 0 {
        assert(state.live(state.used_size - 1));
    }
}

/// Without empty free slices, no free slice touches the high-water mark.
pub proof fn law_free_slices_are_below_mark(state: Allocation)
    requires
        state.settled(),
        forall|i: int|
            0 <= i < state.free_slices.len() ==> (#[trigger] state.free_slices[i]).start
                < state.free_slices[i].end,
    ensures
        state.tight(),
        forall|i: int|
            0 <= i < state.free_slices.len() ==> (#[trigger] state.free_slices[i]).end
                < state.used_size,
{
    let free = state.free_slices;
    if free.len() > 0 {
        let last = free[free.len() - 1];
        assert(last.start < last.end);
        assert(last.end < state.used_size);
        assert forall|i: int| 0 <= i < free.len() implies (#[trigger] free[i]).end
            < state.used_size by {
            if i < free.len() - 1 {
                assert(free[i].end <= last.start);
            }
        }
    }
}

/// Freeing a slice in use frees the buffer exactly if it was the last one. The buffer is then as
/// new.
pub proof fn law_release_of_last_slice_frees_buffer(before: Allocation, range: Range<u32>)
    requires
        before.settled(),
        before.frees(range),
    ensures
        before.release_state(range) == BufferState::Free <==> before.slice_count
            + before.empty_count == 1,
        before.release_state(range) == BufferState::Free ==> before.release(range)
            == Allocation::unused(before.capacity),
{
}

/// Freeing a range that no slice in use can have never frees the buffer as long as any slice is
/// in use, and leaves the number of slices as it is.
pub proof fn law_only_slices_in_use_are_counted(before: Allocation, range: Range<u32>)
    requires
        before.wf(),
        !before.frees(range),
        before.slice_count + before.empty_count > 0,
    ensures
        before.release_state(range) == BufferState::Used,
        before.release(range).slice_count == before.slice_count,
        before.release(range).empty_count == before.empty_count,
{
}

/// A slice of at least one particle that became a free slice is not freed twice.
pub proof fn law_free_slice_is_not_freed_again(before: Allocation, range: Range<u32>)
    requires
        before.wf(),
        range.start < range.end,
        range.end != before.used_size,
        !before.is_last(range),
    ensures
        before.release(range).release(range) == before.release(range),
        before.release(range).release_state(range) == BufferState::Used,
{
    let free = before.free_slices;
    let after = before.release(range);
    if before.already_free(range) {
        assert(!before.frees(range));
    } else {
        assert(!overlaps_particles(free, range)) by {
            if overlaps_particles(free, range) {
                assert(overlaps_any(free, range));
            }
        }
        lemma_particles_after_insert(free, range);
        let i = choose|i: int| 0 <= i < after.free_slices.len() && after.free_slices[i] == range;
        assert(!separate(after.free_slices[i], range));
    }
}

/// Freeing a slice right after its allocation restores which particles are in use and the number
/// of slices, and the high-water mark unless the slice was recycled from right below it. A slice
/// from above a mark that no free slice touches, or one that was a free slice as it is, restores
/// the free slices too.
pub proof fn law_release_undoes_allocate(before: Allocation, size: u32)
    requires
        before.settled(),
        before.allocate(size) is Some,
        !before.allocate_overflows(size),
    ensures
        ({
            let (range, after) = before.allocate(size).unwrap();
            let restored = after.release(range);
            &&& restored.settled()
            &&& restored.capacity == before.capacity
            &&& restored.slice_count == before.slice_count
            &&& restored.empty_count == before.empty_count
            &&& forall|particle: int| #[trigger] restored.live(particle) <==> before.live(particle)
            &&& !before.recycles_at_mark(size) ==> restored.used_size == before.used_size
            &&& recycle(before.free_slices, size) is None && !before.last_free_touches_mark()
                ==> restored == before
            &&& 1 <= size && before.free_slices.contains(range) && !before.recycles_at_mark(size)
                ==> restored == before
        }),
{
    let free = before.free_slices;
    let (range, after) = before.allocate(size).unwrap();
    law_allocate_takes_unused_particles(before, size);
    law_release_ends_use(after, range);
    let restored = after.release(range);
    if after.is_last(range) {
        assert(restored == before);
    } else {
        match recycle(free, size) {
            Some((_, rest)) => {
                let i = best_fit(free, size).unwrap();
                assert(is_best_fit(free, size, i));
                lemma_rest_of_recycled(free, size);
                assert(free[i].end <= before.used_size);
                if 1 <= size && free.contains(range) && !before.recycles_at_mark(size) {
                    let j = choose|j: int| 0 <= j < free.len() && free[j] == range;
                    assert(free[j].end <= free[i].start || free[i].end <= free[j].start || i == j);
                    assert forall|m: int| 0 <= m < rest.len() implies #[trigger] rest[m]
                        == free[if m < i {
                        m
                    } else {
                        m + 1
                    }] by {}
                    assert(is_gap(rest, range, i, i));
                    lemma_gap_is_unique(rest, range, i, i);
                    assert forall|m: int| 0 <= m < rest.len() implies separate(
                        #[trigger] rest[m],
                        range,
                    ) by {}
                    assert(!after.already_free(range));
                    assert(restored.free_slices =~= free);
                }
            },
            None => {
                assert(after.free_slices == free);
                if before.last_free_touches_mark() {
                    lemma_drain_keeps_mark(range.start, free);
                }
            },
        }
    }
}

/// The particle belongs to some of the slices.
pub open spec fn in_some_slice(slices: Seq<Range<u32>>, particle: int) -> bool {
    exists|i: int|
        0 <= i < slices.len() && (#[trigger] slices[i]).start <= particle < slices[i].end
}

/// How many of the slices hold particles, or how many do not.
pub open spec fn count_slices(slices: Seq<Range<u32>>, empty: bool) -> nat
    decreases slices.len(),
{
    if slices.len() == 0 {
        0
    } else {
        count_slices(slices.drop_last(), empty) + (if (slices.last().start >= slices.last().end)
            == empty {
            1nat
        } else {
            0
        })
    }
}

impl Allocation {
    /// The slices in use are exactly the given ones, those without any particle included: the
    /// buffer counts them, holds each of them, no two of them share a particle, and every
    /// particle in use belongs to one of them.
    pub open spec fn accounts_for(self, slices: Seq<Range<u32>>) -> bool {
        &&& self.settled()
        &&& self.slice_count == count_slices(slices, false)
        &&& self.empty_count == count_slices(slices, true)
        &&& forall|i: int| 0 <= i < slices.len() ==> self.holds(#[trigger] slices[i])
        &&& forall|i: int, j: int|
            0 <= i < j < slices.len() ==> apart(#[trigger] slices[i], #[trigger] slices[j])
        &&& forall|particle: int| #[trigger]
            self.live(particle) ==> in_some_slice(slices, particle)
    }
}

/// Removing one of the slices lowers one of the counts.
proof fn lemma_count_after_remove(slices: Seq<Range<u32>>, i: int, empty: bool)
    requires
        0 <= i < slices.len(),
    ensures
        count_slices(slices, empty) == count_slices(slices.remove(i), empty) + (if (slices[i].start
            >= slices[i].end) == empty {
            1nat
        } else {
            0
        }),
    decreases slices.len(),
{
    let init = slices.drop_last();
    if i < init.len() {
        lemma_count_after_remove(init, i, empty);
        assert(slices.remove(i).drop_last() =~= init.remove(i));
        assert(slices.remove(i).last() == slices.last());
    } else {
        assert(slices.remove(i) =~= init);
    }
}

/// Every slice is counted once.
proof fn lemma_count_all(slices: Seq<Range<u32>>)
    ensures
        count_slices(slices, false) + count_slices(slices, true) == slices.len(),
    decreases slices.len(),
{
    if slices.len() > 0 {
        lemma_count_all(slices.drop_last());
    }
}

/// A new buffer has no slice in use.
pub proof fn law_new_buffer_accounts_for_nothing(capacity: u32)
    requires
        MIN_CAPACITY <= capacity,
    ensures
        Allocation::unused(capacity).accounts_for(Seq::empty()),
{
}

/// Allocating adds one slice, of any length, to the slices in use.
pub proof fn law_allocate_adds_one_slice(before: Allocation, slices: Seq<Range<u32>>, size: u32)
    requires
        before.accounts_for(slices),
        before.allocate(size) is Some,
        !before.allocate_overflows(size),
    ensures
        ({
            let (range, after) = before.allocate(size).unwrap();
            after.accounts_for(slices.push(range))
        }),
{
    let (range, after) = before.allocate(size).unwrap();
    let more = slices.push(range);
    assert(more.drop_last() =~= slices);
    law_allocate_takes_unused_particles(before, size);
    assert forall|i: int| 0 <= i < slices.len() implies after.holds(#[trigger] slices[i]) && apart(
        slices[i],
        range,
    ) by {
        law_allocate_keeps_slices_apart(before, size, slices[i]);
    }
    assert forall|particle: int| #[trigger] after.live(particle) implies in_some_slice(
        more,
        particle,
    ) by {
        if before.live(particle) {
            assert(in_some_slice(slices, particle));
            let i = choose|i: int|
                0 <= i < slices.len() && (#[trigger] slices[i]).start <= particle < slices[i].end;
            assert(more[i] == slices[i]);
        } else {
            assert(more[slices.len() as int] == range);
        }
    }
}

/// Freeing any of the slices in use removes it from them. If it was the last one, the buffer is
/// freed and as new, and only then.
pub proof fn law_release_removes_one_slice(before: Allocation, slices: Seq<Range<u32>>, i: int)
    requires
        before.accounts_for(slices),
        0 <= i < slices.len(),
    ensures
        !before.release_corrupts(slices[i]),
        before.release(slices[i]).accounts_for(slices.remove(i)),
        before.release_state(slices[i]) == BufferState::Free <==> slices.len() == 1,
        slices.len() == 1 ==> before.release(slices[i]) == Allocation::unused(before.capacity),
{
    let range = slices[i];
    let after = before.release(range);
    let fewer = slices.remove(i);
    lemma_count_all(slices);
    lemma_count_after_remove(slices, i, false);
    lemma_count_after_remove(slices, i, true);
    assert forall|particle: int| slices.len() == 1 && #[trigger] before.live(
        particle,
    ) implies range.start <= particle < range.end by {
        assert(in_some_slice(slices, particle));
    }
    law_release_ends_use(before, range);
    assert forall|j: int| 0 <= j < fewer.len() implies #[trigger] fewer[j] == slices[if j < i {
        j
    } else {
        j + 1
    }] by {}
    assert forall|j: int| 0 <= j < fewer.len() implies after.holds(#[trigger] fewer[j]) by {
        assert(before.holds(fewer[j]));
        law_release_keeps_other_slices(before, range, fewer[j]);
    }
    assert forall|particle: int| #[trigger] after.live(particle) implies in_some_slice(
        fewer,
        particle,
    ) by {
        assert(before.live(particle));
        assert(in_some_slice(slices, particle));
        let j = choose|j: int|
            0 <= j < slices.len() && (#[trigger] slices[j]).start <= particle < slices[j].end;
        assert(fewer[if j < i {
            j
        } else {
            j - 1
        }] == slices[j]);
    }
}

/// A buffer has exactly as many particles as it is asked for, and one if it is asked for none.
pub proof fn law_capacity_is_rounded_up(capacity: u32)
    ensures
        capacity >= 1 ==> rounded_capacity(capacity) == capacity,
        capacity == 0 ==> rounded_capacity(capacity) == 1,
{
}

/// If a free slice is long enough, the shortest of those is recycled, and the first of them where
/// several are as short. The slice starts where that free slice starts. What is left of it stays
/// free at its place, every other free slice stays as it is, and the used part does not grow. If a
/// free slice has exactly the requested length, the slice is one of the free slices.
///
/// A free slice of the largest length that there is counts as too long.
pub proof fn law_allocate_recycles_the_shortest_free_slice(before: Allocation, size: u32)
    requires
        1 <= size <= before.capacity,
        before.slice_count < u64::MAX,
        exists|i: int|
            0 <= i < before.free_slices.len() && size <= (#[trigger] before.free_slices[i]).end
                - before.free_slices[i].start < u32::MAX,
    ensures
        before.allocate(size) matches Some((range, after)) && {
            let free = before.free_slices;
            &&& range.end - range.start == size
            &&& after.capacity == before.capacity
            &&& after.used_size == before.used_size
            &&& after.slice_count == before.slice_count + 1
            &&& after.empty_count == before.empty_count
            &&& exists|i: int|
                {
                    &&& 0 <= i < free.len()
                    &&& (#[trigger] free[i]).start == range.start
                    &&& size <= free[i].end - free[i].start < u32::MAX
                    &&& forall|j: int|
                        0 <= j < free.len() && size <= (#[trigger] free[j]).end - free[j].start
                            ==> free[i].end - free[i].start <= free[j].end - free[j].start
                    &&& forall|j: int|
                        0 <= j < i && size <= (#[trigger] free[j]).end - free[j].start ==> free[i].end
                            - free[i].start < free[j].end - free[j].start
                    &&& after.free_slices == (if free[i].end - free[i].start == size {
                        free.remove(i)
                    } else {
                        free.update(i, Range { start: range.end, end: free[i].end })
                    })
                }
            &&& (exists|j: int|
                0 <= j < free.len() && (#[trigger] free[j]).end - free[j].start == size)
                ==> free.contains(range)
        },
{
    let free = before.free_slices;
    let w = choose|i: int|
        0 <= i < free.len() && size <= (#[trigger] free[i]).end - free[i].start < u32::MAX;
    assert(fits(free, size, w));
    lemma_best_fit_exists(free, size, w);
    let i = best_fit(free, size).unwrap();
    assert(is_best_fit(free, size, i));
    assert forall|j: int| 0 <= j < free.len() && size <= (#[trigger] free[j]).end
        - free[j].start implies free[i].end - free[i].start <= free[j].end - free[j].start && (j
        < i ==> free[i].end - free[i].start < free[j].end - free[j].start) by {
        if free[j].end - free[j].start < u32::MAX {
            assert(fits(free, size, j));
        }
    }
    let (range, after) = before.allocate(size).unwrap();
    assert(free[i].start == range.start);
    if exists|j: int| 0 <= j < free.len() && (#[trigger] free[j]).end - free[j].start == size {
        let j = choose|j: int|
            0 <= j < free.len() && (#[trigger] free[j]).end - free[j].start == size;
        assert(free[i].end - free[i].start <= free[j].end - free[j].start);
        assert(free[i] == range);
    }
}

/// If no free slice is long enough, the slice is put right above the used part, which grows by its
/// length. No free slice changes. There must be room for it, or else nothing is allocated, and
/// nothing larger than the buffer ever is.
pub proof fn law_allocate_grows_the_used_part(before: Allocation, size: u32)
    requires
        1 <= size,
        before.slice_count < u64::MAX,
        before.used_size <= before.capacity,
        size > before.capacity || forall|i: int|
            0 <= i < before.free_slices.len() ==> !(size <= (#[trigger] before.free_slices[i]).end
                - before.free_slices[i].start < u32::MAX),
    ensures
        if before.used_size + size > before.capacity {
            before.allocate(size) is None
        } else {
            before.allocate(size) matches Some((range, after)) && {
                &&& range.start == before.used_size
                &&& range.end == before.used_size + size
                &&& after.capacity == before.capacity
                &&& after.used_size == before.used_size + size
                &&& after.free_slices == before.free_slices
                &&& after.slice_count == before.slice_count + 1
                &&& after.empty_count == before.empty_count
            }
        },
{
    let free = before.free_slices;
    if size <= before.capacity {
        assert forall|i: int| !is_best_fit(free, size, i) by {
            if 0 <= i < free.len() {
                assert(!(size <= free[i].end - free[i].start < u32::MAX));
            }
        }
    }
}

/// A slice without particles is always granted, and changes neither the used part nor the free
/// slices. It is put at the start of the shortest free slice, the first of those, or right
/// above the used part if some free slice is empty or there is none. A free slice of the largest
/// length that there is does not count.
pub proof fn law_allocate_of_empty_slice(before: Allocation)
    requires
        before.wf(),
        before.empty_count < u64::MAX,
    ensures
        before.allocate(0) matches Some((range, after)) && {
            let free = before.free_slices;
            &&& range.start == range.end
            &&& after.capacity == before.capacity
            &&& after.used_size == before.used_size
            &&& after.free_slices == free
            &&& after.slice_count == before.slice_count
            &&& after.empty_count == before.empty_count + 1
            &&& if (forall|j: int|
                0 <= j < free.len() ==> (#[trigger] free[j]).end - free[j].start == u32::MAX) || (
            exists|j: int| 0 <= j < free.len() && (#[trigger] free[j]).start == free[j].end) {
                range.start == before.used_size
            } else {
                exists|i: int|
                    {
                        &&& 0 <= i < free.len()
                        &&& (#[trigger] free[i]).start == range.start
                        &&& forall|j: int|
                            0 <= j < free.len() ==> free[i].end - free[i].start
                                <= (#[trigger] free[j]).end - free[j].start
                        &&& forall|j: int|
                            0 <= j < i ==> free[i].end - free[i].start < (#[trigger] free[j]).end
                                - free[j].start
                    }
            }
        },
{
    let free = before.free_slices;
    if exists|w: int| 0 <= w < free.len() && (#[trigger] free[w]).end - free[w].start
        != u32::MAX {
        let w = choose|w: int|
            0 <= w < free.len() && (#[trigger] free[w]).end - free[w].start != u32::MAX;
        assert(fits(free, 0, w));
        lemma_best_fit_exists(free, 0, w);
        let i = best_fit(free, 0).unwrap();
        assert(is_best_fit(free, 0, i));
        assert forall|j: int| 0 <= j < free.len() implies free[i].end - free[i].start
            <= (#[trigger] free[j]).end - free[j].start && (j < i ==> free[i].end - free[i].start
            < free[j].end - free[j].start) by {
            if free[j].end - free[j].start != u32::MAX {
                assert(fits(free, 0, j));
            }
        }
        let (range, after) = before.allocate(0).unwrap();
        assert(after.free_slices =~= free);
        if exists|j: int| 0 <= j < free.len() && (#[trigger] free[j]).start == free[j].end {
            let j = choose|j: int|
                0 <= j < free.len() && (#[trigger] free[j]).start == free[j].end;
            assert(free[i].end - free[i].start <= free[j].end - free[j].start);
        }
    } else {
        assert forall|i: int| !is_best_fit(free, 0, i) by {
            if is_best_fit(free, 0, i) {
                assert(free[i].end - free[i].start == u32::MAX);
            }
        }
    }
}

/// A request is out of bounds only if there is no room for it and the used part could not even be
/// numbered, or if there is room and the slices of its kind could not be counted anymore.
pub proof fn law_allocate_overflows_at_the_largest_number(before: Allocation, size: u32)
    requires
        before.wf(),
    ensures
        before.allocate_overflows(size) <==> match before.allocate(size) {
            Some(_) => (size == 0 && before.empty_count == 0xffff_ffff_ffff_ffff) || (size > 0
                && before.slice_count == 0xffff_ffff_ffff_ffff),
            None => size <= before.capacity && before.used_size + size > 0xffff_ffff,
        },
{
}

/// Freeing counts one slice less exactly if the range can belong to a slice in use: if it holds
/// particles, all of them below the high-water mark and none of them free, and such slices are in
/// use; or if it is empty, inside the buffer, and empty slices are in use. The buffer is free
/// exactly if that was the last slice in use, and then as new. It is free too if no slice was in
/// use and the range ended at a mark that dropped to zero.
pub proof fn law_release_counts_slices_in_use(before: Allocation, range: Range<u32>, counts: bool)
    requires
        before.wf(),
        range.start <= range.end,
        counts <==> if range.start < range.end {
            &&& before.slice_count > 0
            &&& range.end <= before.used_size
            &&& forall|i: int|
                0 <= i < before.free_slices.len() && (#[trigger] before.free_slices[i]).start
                    < before.free_slices[i].end ==> before.free_slices[i].end <= range.start
                    || range.end <= before.free_slices[i].start
        } else {
            &&& before.empty_count > 0
            &&& range.end <= before.capacity
        },
    ensures
        ({
            let after = before.release(range);
            let remaining = before.slice_count + before.empty_count - (if counts {
                1int
            } else {
                0
            });
            &&& after.capacity == before.capacity
            &&& after.slice_count == before.slice_count - (if counts && range.start < range.end {
                1int
            } else {
                0
            })
            &&& after.empty_count == before.empty_count - (if counts && range.start == range.end {
                1int
            } else {
                0
            })
            &&& before.release_state(range) == BufferState::Free <==> remaining == 0 && (counts || (
            range.end == before.used_size && after.used_size == 0))
            &&& counts && remaining == 0 ==> after.used_size == 0 && after.free_slices.len() == 0
        }),
{
    lemma_frees(before, range, counts);
}

/// The ranges whose release counts one slice less.
proof fn lemma_frees(before: Allocation, range: Range<u32>, counts: bool)
    requires
        before.wf(),
        range.start <= range.end,
        counts <==> if range.start < range.end {
            &&& before.slice_count > 0
            &&& range.end <= before.used_size
            &&& forall|i: int|
                0 <= i < before.free_slices.len() && (#[trigger] before.free_slices[i]).start
                    < before.free_slices[i].end ==> before.free_slices[i].end <= range.start
                    || range.end <= before.free_slices[i].start
        } else {
            &&& before.empty_count > 0
            &&& range.end <= before.capacity
        },
    ensures
        before.frees(range) == counts,
{
    let free = before.free_slices;
    if range.start < range.end {
        if !counts && before.slice_count > 0 && range.end <= before.used_size {
            let i = choose|i: int|
                0 <= i < free.len() && (#[trigger] free[i]).start < free[i].end && !(free[i].end
                    <= range.start || range.end <= free[i].start);
            assert(!separate(free[i], range));
        }
    }
}

/// Freeing a range at the high-water mark, other than the last slice in use, lowers the mark to the
/// start of the range, and further past the free slices that follow each other right below it.
/// Those are not listed anymore; the others stay as they are. No free slice that is left at the end
/// of the list touches the mark.
pub proof fn law_release_at_the_end_lowers_the_mark(
    before: Allocation,
    range: Range<u32>,
    counts: bool,
)
    requires
        before.wf(),
        range.start <= range.end,
        range.end == before.used_size,
        counts <==> if range.start < range.end {
            &&& before.slice_count > 0
            &&& forall|i: int|
                0 <= i < before.free_slices.len() && (#[trigger] before.free_slices[i]).start
                    < before.free_slices[i].end ==> before.free_slices[i].end <= range.start
                    || range.end <= before.free_slices[i].start
        } else {
            before.empty_count > 0
        },
        !(counts && before.slice_count + before.empty_count == 1),
    ensures
        ({
            let free = before.free_slices;
            let after = before.release(range);
            let left = after.free_slices.len() as int;
            &&& left <= free.len()
            &&& after.free_slices == free.take(left)
            &&& left > 0 ==> free[left - 1].end != after.used_size
            &&& left == free.len() ==> after.used_size == range.start
            &&& left < free.len() ==> after.used_size == free[left].start && free[free.len()
                - 1].end == range.start
            &&& forall|i: int|
                left < i < free.len() ==> free[i - 1].end == (#[trigger] free[i]).start
        }),
{
    lemma_frees(before, range, counts);
    lemma_drain_is_a_chain(range.start, before.free_slices);
}

/// Draining removes the longest run of free slices that follow each other up to the mark.
proof fn lemma_drain_is_a_chain(used_size: u32, free: Seq<Range<u32>>)
    ensures
        ({
            let (mark, rest) = drain(used_size, free);
            let left = rest.len() as int;
            &&& left <= free.len()
            &&& rest == free.take(left)
            &&& left > 0 ==> free[left - 1].end != mark
            &&& left == free.len() ==> mark == used_size
            &&& left < free.len() ==> mark == free[left].start && free[free.len() - 1].end
                == used_size
            &&& forall|i: int|
                left < i < free.len() ==> free[i - 1].end == (#[trigger] free[i]).start
        }),
    decreases free.len(),
{
    if free.len() > 0 && free.last().end == used_size {
        let last = free.last();
        let init = free.drop_last();
        let (_, rest) = drain(used_size, free);
        let left = rest.len() as int;
        lemma_drain_is_a_chain(last.start, init);
        assert(init.take(left) =~= free.take(left));
        if left > 0 {
            assert(init[left - 1] == free[left - 1]);
        }
        assert forall|i: int| left < i < free.len() implies free[i - 1].end == (
        #[trigger] free[i]).start by {
            assert(init[i - 1] == free[i - 1]);
            if i < init.len() {
                assert(init[i] == free[i]);
            }
        }
    } else {
        assert(free.take(free.len() as int) =~= free);
    }
}

/// Freeing a range below the high-water mark, other than the last slice in use, leaves the mark
/// where it is. If some particle of the range is free already, or an empty range lies inside a free
/// slice, the free slices stay as they are. Otherwise the range itself becomes a free slice at its
/// place in the order, and every other free slice stays one, except that a slice in use takes the
/// place of the empty free slices inside it. A range that no slice in use has is not
/// listed around such an empty free slice.
pub proof fn law_release_elsewhere_adds_one_free_slice(
    before: Allocation,
    range: Range<u32>,
    counts: bool,
)
    requires
        before.wf(),
        range.start <= range.end,
        range.end != before.used_size,
        counts <==> if range.start < range.end {
            &&& before.slice_count > 0
            &&& range.end <= before.used_size
            &&& forall|i: int|
                0 <= i < before.free_slices.len() && (#[trigger] before.free_slices[i]).start
                    < before.free_slices[i].end ==> before.free_slices[i].end <= range.start
                    || range.end <= before.free_slices[i].start
        } else {
            &&& before.empty_count > 0
            &&& range.end <= before.capacity
        },
        !(counts && before.slice_count + before.empty_count == 1),
    ensures
        ({
            let free = before.free_slices;
            let more = before.release(range).free_slices;
            let overlaps = exists|i: int|
                0 <= i < free.len() && range.start < (#[trigger] free[i]).end && free[i].start
                    < range.end;
            &&& before.release(range).used_size == before.used_size
            &&& overlaps && !(counts && range.start < range.end) ==> more == free
            &&& !(overlaps && !(counts && range.start < range.end)) ==> {
                &&& more.contains(range)
                &&& forall|i: int|
                    0 <= i < free.len() ==> more.contains(#[trigger] free[i]) || (range.start
                        < free[i].start && free[i].start == free[i].end && free[i].end < range.end)
                &&& forall|i: int|
                    0 <= i < more.len() ==> (#[trigger] more[i]) == range || free.contains(more[i])
                &&& forall|i: int, j: int|
                    0 <= i < j < more.len() ==> (#[trigger] more[i]).end <= (#[trigger] more[j]).start
                &&& exists|first: int, past: int|
                    {
                        &&& 0 <= first <= past <= free.len()
                        &&& more == #[trigger] free.take(first).push(range) + #[trigger] free.skip(past)
                        &&& forall|i: int|
                            first <= i < past ==> range.start < (#[trigger] free[i]).start
                                && free[i].start == free[i].end && free[i].end < range.end
                    }
            }
        }),
{
    let free = before.free_slices;
    let more = before.release(range).free_slices;
    lemma_frees(before, range, counts);
    let overlaps = exists|i: int|
        0 <= i < free.len() && range.start < (#[trigger] free[i]).end && free[i].start < range.end;
    if overlaps {
        let i = choose|i: int|
            0 <= i < free.len() && range.start < (#[trigger] free[i]).end && free[i].start
                < range.end;
        assert(!separate(free[i], range));
    } else if overlaps_any(free, range) {
        let i = choose|i: int| 0 <= i < free.len() && !separate(#[trigger] free[i], range);
        assert(range.start < free[i].end && free[i].start < range.end);
    }
    if !(overlaps && !(counts && range.start < range.end)) {
        assert(!overlaps_particles(free, range)) by {
            if overlaps_particles(free, range) {
                assert(overlaps_any(free, range));
            }
        }
        lemma_insert_ordered(free, range);
        let (first, past) = choose|first: int, past: int| #[trigger]
            is_gap(free, range, first, past) && insert_ordered(free, range) == fill_gap(
                free,
                range,
                first,
                past,
            );
        assert(more == free.take(first).push(range) + free.skip(past));
        assert(more[first] == range);
        assert forall|i: int| 0 <= i < more.len() implies #[trigger] more[i] == (if i < first {
            free[i]
        } else if i == first {
            range
        } else {
            free[i - first - 1 + past]
        }) by {}
        assert forall|i: int| 0 <= i < free.len() && !(first <= i < past) implies more.contains(
            #[trigger] free[i],
        ) by {
            assert(more[if i < first {
                i
            } else {
                i - past + first + 1
            }] == free[i]);
        }
        assert forall|i: int| first <= i < past implies range.start < (#[trigger] free[i]).start
            && free[i].start == free[i].end && free[i].end < range.end by {}
    }
}

/// A range is free already exactly if it does not end at the high-water mark, and a free slice
/// overlaps it or an empty free slice lies inside it, unless it can belong to a slice in use that
/// holds particles. As long as it is not the last slice in use, freeing it then adds no free slice,
/// and freeing any other range that does not end at the mark adds one.
pub proof fn law_free_range_adds_nothing(before: Allocation, range: Range<u32>, counts: bool)
    requires
        before.wf(),
        range.start <= range.end,
        counts <==> if range.start < range.end {
            &&& before.slice_count > 0
            &&& range.end <= before.used_size
            &&& forall|i: int|
                0 <= i < before.free_slices.len() && (#[trigger] before.free_slices[i]).start
                    < before.free_slices[i].end ==> before.free_slices[i].end <= range.start
                    || range.end <= before.free_slices[i].start
        } else {
            &&& before.empty_count > 0
            &&& range.end <= before.capacity
        },
    ensures
        before.already_free(range) <==> {
            let free = before.free_slices;
            &&& range.end != before.used_size
            &&& !(counts && range.start < range.end)
            &&& exists|i: int|
                0 <= i < free.len() && range.start < (#[trigger] free[i]).end && free[i].start
                    < range.end
        },
        range.end != before.used_size && !(counts && before.slice_count + before.empty_count == 1)
            ==> (before.already_free(range) <==> before.release(range).free_slices
            == before.free_slices),
{
    let free = before.free_slices;
    lemma_frees(before, range, counts);
    if range.end != before.used_size {
        if exists|i: int|
            0 <= i < free.len() && range.start < (#[trigger] free[i]).end && free[i].start
                < range.end {
            let i = choose|i: int|
                0 <= i < free.len() && range.start < (#[trigger] free[i]).end && free[i].start
                    < range.end;
            assert(!separate(free[i], range));
        } else if overlaps_any(free, range) {
            let i = choose|i: int| 0 <= i < free.len() && !separate(#[trigger] free[i], range);
            assert(range.start < free[i].end && free[i].start < range.end);
        }
        if !before.already_free(range) {
            assert(!overlaps_particles(free, range)) by {
                if overlaps_particles(free, range) {
                    assert(overlaps_any(free, range));
                }
            }
            lemma_insert_ordered(free, range);
            let (first, past) = choose|first: int, past: int| #[trigger]
                is_gap(free, range, first, past) && insert_ordered(free, range) == fill_gap(
                    free,
                    range,
                    first,
                    past,
                );
            let more = insert_ordered(free, range);
            assert(more[first] == range);
            if more == free {
                assert(first < free.len());
                assert(free[first] == range);
                if first < past {
                    assert(free[first].start == free[first].end);
                    assert(range.start < free[first].end);
                } else {
                    assert(more.len() == free.len() + 1);
                }
            }
        }
    }
}

/// Freeing corrupts the buffer exactly if the range covers the whole used part while a free slice
/// that ends above its start is still listed. Of a range that can belong to a slice in use, only free slices that
/// hold particles count.
pub proof fn law_release_corrupts_only_the_whole_used_part(
    before: Allocation,
    range: Range<u32>,
    counts: bool,
)
    requires
        before.wf(),
        range.start <= range.end,
        counts <==> if range.start < range.end {
            &&& before.slice_count > 0
            &&& range.end <= before.used_size
            &&& forall|i: int|
                0 <= i < before.free_slices.len() && (#[trigger] before.free_slices[i]).start
                    < before.free_slices[i].end ==> before.free_slices[i].end <= range.start
                    || range.end <= before.free_slices[i].start
        } else {
            &&& before.empty_count > 0
            &&& range.end <= before.capacity
        },
    ensures
        before.release_corrupts(range) <==> {
            let free = before.free_slices;
            &&& range.start == 0
            &&& range.end == before.used_size
            &&& exists|i: int|
                0 <= i < free.len() && (#[trigger] free[i]).end > 0 && (counts ==> free[i].start
                    < free[i].end)
        },
{
    let free = before.free_slices;
    lemma_frees(before, range, counts);
    lemma_drain_is_a_chain(range.start, free);
    let (mark, rest) = drain(range.start, free);
    let left = rest.len() as int;
    let kept = exists|i: int|
        0 <= i < free.len() && (#[trigger] free[i]).end > 0 && (counts ==> free[i].start
            < free[i].end);
    if range.end == before.used_size {
        if mark == 0 && left > 0 {
            assert(rest[left - 1] == free[left - 1]);
            if left < free.len() {
                assert(free[left - 1].end <= free[left].start);
                assert(false);
            }
            assert(rest =~= free);
            assert(free[left - 1].end > 0);
        }
        if range.start == 0 && kept {
            let i = choose|i: int|
                0 <= i < free.len() && (#[trigger] free[i]).end > 0 && (counts ==> free[i].start
                    < free[i].end);
            if i < free.len() - 1 {
                assert(free[i].end <= free[free.len() - 1].start);
                assert(free[free.len() - 1].start <= free[free.len() - 1].end);
            }
            assert(left == free.len());
            assert(rest =~= free);
        }
    }
}

} // verus!
