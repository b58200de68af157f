//! How a buffer divides its particles into slices.
//!
//! A buffer hands out the particles below a high-water mark, `used_size`. Slices that were
//! given back below that mark wait in a list of free slices, in increasing order, until they
//! are recycled or until the mark drops below them.
use std::ops::Range;
use vstd::prelude::*;

verus! {

/// Minimum capacity of a buffer, in number of particles.
pub const MIN_CAPACITY: u32 = 1;

/// The capacity of a buffer that is asked to store `capacity` particles.
pub open spec fn rounded_capacity(capacity: u32) -> u32 {
    if capacity > MIN_CAPACITY {
        capacity
    } else {
        MIN_CAPACITY
    }
}

/// Rounds the capacity of a buffer up to the minimum.
pub(crate) fn round_capacity(capacity: u32) -> (rounded: u32)
    ensures
        rounded == rounded_capacity(capacity),
{
    if capacity > MIN_CAPACITY {
        capacity
    } else {
        MIN_CAPACITY
    }
}

/// What becomes of a buffer when one of its slices is freed.
#[derive(Debug, Clone, Copy, PartialEq, Eq, Structural)]
pub enum BufferState {
    /// Some slice is still in use.
    Used,
    /// No slice is in use anymore.
    Free,
}

/// The number of particles in a range.
pub open spec fn range_len(range: Range<u32>) -> int {
    range.end - range.start
}

/// One range ends before the other starts.
pub open spec fn separate(a: Range<u32>, b: Range<u32>) -> bool {
    a.end <= b.start || b.end <= a.start
}

/// No particle belongs to both ranges, where each of them ends after it starts.
pub open spec fn apart(a: Range<u32>, b: Range<u32>) -> bool {
    a.start < a.end && b.start < b.end ==> separate(a, b)
}

/// Some free slice overlaps the range. An empty slice overlaps what it lies strictly inside of.
pub open spec fn overlaps_any(free: Seq<Range<u32>>, range: Range<u32>) -> bool {
    exists|i: int| 0 <= i < free.len() && !separate(#[trigger] free[i], range)
}

/// Some free slice that holds particles overlaps the range.
pub open spec fn overlaps_particles(free: Seq<Range<u32>>, range: Range<u32>) -> bool {
    exists|i: int|
        0 <= i < free.len() && (#[trigger] free[i]).start < free[i].end && !separate(
            free[i],
            range,
        )
}

/// The particle belongs to some free slice.
pub open spec fn in_free_slice(free: Seq<Range<u32>>, particle: int) -> bool {
    exists|i: int|
        0 <= i < free.len() && (#[trigger] free[i]).start <= particle < free[i].end
}

/// Free slices are in increasing order and do not overlap.
pub open spec fn ordered(free: Seq<Range<u32>>) -> bool {
    &&& forall|i: int| 0 <= i < free.len() ==> (#[trigger] free[i]).start <= free[i].end
    &&& forall|i: int, j: int|
        0 <= i < j < free.len() ==> (#[trigger] free[i]).end <= (#[trigger] free[j]).start
}

/// A slice of `size` particles can be cut from the `i`-th free slice.
pub open spec fn fits(free: Seq<Range<u32>>, size: u32, i: int) -> bool {
    size <= range_len(free[i]) < u32::MAX
}

/// The `i`-th free slice is the shortest that fits, and the first of those.
pub open spec fn is_best_fit(free: Seq<Range<u32>>, size: u32, i: int) -> bool {
    &&& 0 <= i < free.len()
    &&& fits(free, size, i)
    &&& forall|j: int|
        0 <= j < free.len() && #[trigger] fits(free, size, j) ==> range_len(free[i]) <= range_len(
            free[j],
        )
    &&& forall|j: int|
        0 <= j < i && #[trigger] fits(free, size, j) ==> range_len(free[i]) < range_len(free[j])
}

/// The index of the free slice that fits best, if any fits.
pub open spec fn best_fit(free: Seq<Range<u32>>, size: u32) -> Option<int> {
    if exists|i: int| is_best_fit(free, size, i) {
        Some(choose|i: int| is_best_fit(free, size, i))
    } else {
        None
    }
}

/// The slice recycled for `size` particles, and the free slices that remain. A longer free
/// slice is cut, and keeps its end; an empty one is never recycled.
pub open spec fn recycle(free: Seq<Range<u32>>, size: u32) -> Option<
    (Range<u32>, Seq<Range<u32>>),
> {
    match best_fit(free, size) {
        Some(i) => {
            let slice = free[i];
            let cut = (slice.start + size) as u32;
            if slice.start >= slice.end {
                None
            } else if range_len(slice) > size {
                Some(
                    (
                        Range { start: slice.start, end: cut },
                        free.update(i, Range { start: cut, end: slice.end }),
                    ),
                )
            } else {
                Some((slice, free.remove(i)))
            }
        },
        None => None,
    }
}

/// Lowers the high-water mark past every trailing free slice that touches it.
pub open spec fn drain(used_size: u32, free: Seq<Range<u32>>) -> (u32, Seq<Range<u32>>)
    decreases free.len(),
{
    if free.len() > 0 && free.last().end == used_size {
        drain(free.last().start, free.drop_last())
    } else {
        (used_size, free)
    }
}

/// The free slices before position `first` end before the range starts, those from position
/// `past` on start after it ends, and those between lie inside the range without holding any
/// particle.
pub open spec fn is_gap(free: Seq<Range<u32>>, range: Range<u32>, first: int, past: int) -> bool {
    &&& 0 <= first <= past <= free.len()
    &&& forall|i: int| 0 <= i < first ==> (#[trigger] free[i]).end <= range.start
    &&& forall|i: int|
        first <= i < past ==> range.start < (#[trigger] free[i]).end && free[i].start == free[i].end
            && free[i].start < range.end
    &&& forall|i: int|
        past <= i < free.len() ==> (#[trigger] free[i]).end > range.start && free[i].start
            >= range.end
}

/// The free slices with one more put into a gap.
pub open spec fn fill_gap(
    free: Seq<Range<u32>>,
    range: Range<u32>,
    first: int,
    past: int,
) -> Seq<Range<u32>> {
    free.take(first).push(range) + free.skip(past)
}

/// The free slices with one more, at its place in the order. It takes the place of those that lie
/// inside it.
pub open spec fn insert_ordered(free: Seq<Range<u32>>, range: Range<u32>) -> Seq<Range<u32>> {
    let (first, past) = choose|first: int, past: int| is_gap(free, range, first, past);
    fill_gap(free, range, first, past)
}

/// The state of the slices of a buffer.
#[verifier::ext_equal]
pub struct Allocation {
    /// Total number of particles.
    pub capacity: u32,
    /// High-water mark: no slice in use that holds particles ends above it.
    pub used_size: u32,
    /// Slices that are not in use, in increasing order. An empty one may lie above the high-water
    /// mark.
    pub free_slices: Seq<Range<u32>>,
    /// Number of slices in use that hold particles.
    pub slice_count: u64,
    /// Number of slices in use without any particle.
    pub empty_count: u64,
}

impl Allocation {
    /// The state of a buffer none of whose particles is in use.
    pub open spec fn unused(capacity: u32) -> Allocation {
        Allocation {
            capacity,
            used_size: 0,
            free_slices: Seq::empty(),
            slice_count: 0,
            empty_count: 0,
        }
    }

    /// What every operation keeps, whatever slice it is given.
    pub open spec fn wf(self) -> bool {
        &&& MIN_CAPACITY <= self.capacity
        &&& self.used_size <= self.capacity
        &&& ordered(self.free_slices)
    }

    /// Every free slice that holds particles lies below the high-water mark, none of them touches
    /// it if the last free slice does, and a buffer without slices is as new. Kept as long as only
    /// slices in use are freed.
    pub open spec fn settled(self) -> bool {
        &&& self.wf()
        &&& forall|i: int|
            0 <= i < self.free_slices.len() && (#[trigger] self.free_slices[i]).start
                < self.free_slices[i].end ==> self.free_slices[i].end <= self.used_size
        &&& self.last_free_touches_mark() ==> self.tight()
        &&& self.slice_count == 0 && self.empty_count == 0 ==> self.used_size == 0
            && self.free_slices.len() == 0
    }

    /// The last free slice ends at the high-water mark.
    pub open spec fn last_free_touches_mark(self) -> bool {
        self.free_slices.len() > 0 && self.free_slices.last().end == self.used_size
    }

    /// Every free slice that holds particles ends below the high-water mark.
    pub open spec fn tight(self) -> bool {
        forall|i: int|
            0 <= i < self.free_slices.len() && (#[trigger] self.free_slices[i]).start
                < self.free_slices[i].end ==> self.free_slices[i].end < self.used_size
    }

    /// The range may belong to a slice in use: it lies inside the buffer, and if it holds
    /// particles, below the high-water mark and apart from every free slice that does.
    pub open spec fn holds(self, range: Range<u32>) -> bool {
        &&& range.start <= range.end <= self.capacity
        &&& range.start < range.end ==> range.end <= self.used_size && !overlaps_particles(
            self.free_slices,
            range,
        )
    }

    /// The particle is in use: it is below the high-water mark and in no free slice.
    pub open spec fn live(self, particle: int) -> bool {
        0 <= particle < self.used_size && !in_free_slice(self.free_slices, particle)
    }

    /// The state with one more slice of `size` particles counted.
    pub open spec fn counting(self, size: u32) -> Allocation {
        if size == 0 {
            Allocation { empty_count: (self.empty_count + 1) as u64, ..self }
        } else {
            Allocation { slice_count: (self.slice_count + 1) as u64, ..self }
        }
    }

    /// The slice allocated for `size` particles and the state that follows, or `None` if there
    /// is no room.
    pub open spec fn allocate(self, size: u32) -> Option<(Range<u32>, Allocation)> {
        if size > self.capacity {
            None
        } else {
            match recycle(self.free_slices, size) {
                Some((range, free_slices)) => Some(
                    (range, Allocation { free_slices, ..self.counting(size) }),
                ),
                None => if self.used_size + size <= self.capacity {
                    let end = (self.used_size + size) as u32;
                    Some(
                        (
                            Range { start: self.used_size, end },
                            Allocation { used_size: end, ..self.counting(size) },
                        ),
                    )
                } else {
                    None
                },
            }
        }
    }

    /// Allocating `size` particles would raise the high-water mark or the number of slices past
    /// the largest integer.
    pub open spec fn allocate_overflows(self, size: u32) -> bool {
        ||| size <= self.capacity && recycle(self.free_slices, size) is None && self.used_size
            + size > u32::MAX
        ||| self.allocate(size) is Some && (if size == 0 {
            self.empty_count
        } else {
            self.slice_count
        }) == u64::MAX
    }

    /// Allocating `size` particles recycles particles right below the high-water mark.
    pub open spec fn recycles_at_mark(self, size: u32) -> bool {
        recycle(self.free_slices, size) matches Some((range, _)) && range.end == self.used_size
    }

    /// Freeing the range frees a slice in use, as far as the buffer can tell.
    pub open spec fn frees(self, range: Range<u32>) -> bool {
        &&& self.holds(range)
        &&& if range.start < range.end {
            self.slice_count > 0
        } else {
            self.empty_count > 0
        }
    }

    /// Freeing the range frees the last slice in use.
    pub open spec fn is_last(self, range: Range<u32>) -> bool {
        self.frees(range) && self.slice_count + self.empty_count == 1
    }

    /// The range is not at the end of the used part, and some of it is free already.
    pub open spec fn already_free(self, range: Range<u32>) -> bool {
        &&& range.end != self.used_size
        &&& if self.frees(range) && range.start < range.end {
            overlaps_particles(self.free_slices, range)
        } else {
            overlaps_any(self.free_slices, range)
        }
    }

    /// The state with one slice less counted, if freeing the range frees one.
    pub open spec fn uncounting(self, range: Range<u32>) -> Allocation {
        if !self.frees(range) {
            self
        } else if range.start < range.end {
            Allocation { slice_count: (self.slice_count - 1) as u64, ..self }
        } else {
            Allocation { empty_count: (self.empty_count - 1) as u64, ..self }
        }
    }

    /// The state after freeing a range. Freeing the last slice makes the buffer as new. Any
    /// other range lowers the high-water mark if it ends there, and becomes a free slice
    /// otherwise, unless it is free already.
    pub open spec fn release(self, range: Range<u32>) -> Allocation {
        if self.is_last(range) {
            Allocation::unused(self.capacity)
        } else if range.end == self.used_size {
            let (used_size, free_slices) = drain(range.start, self.free_slices);
            Allocation { used_size, free_slices, ..self.uncounting(range) }
        } else if self.already_free(range) {
            self.uncounting(range)
        } else {
            Allocation {
                free_slices: insert_ordered(self.free_slices, range),
                ..self.uncounting(range)
            }
        }
    }

    /// What becomes of the buffer when a range is freed. It is free if that was the last slice in
    /// use, or if none was and none of its particles is.
    pub open spec fn release_state(self, range: Range<u32>) -> BufferState {
        if self.is_last(range) || (range.end == self.used_size && drain(
            range.start,
            self.free_slices,
        ).0 == 0 && self.slice_count == 0 && self.empty_count == 0) {
            BufferState::Free
        } else {
            BufferState::Used
        }
    }

    /// Freeing the range would lower the high-water mark to zero below free slices. It never
    /// does so for a slice in use, which only leaves free slices without any particle.
    pub open spec fn release_corrupts(self, range: Range<u32>) -> bool {
        let (used_size, free_slices) = drain(range.start, self.free_slices);
        &&& range.end == self.used_size
        &&& used_size == 0
        &&& free_slices.len() > 0
        &&& self.frees(range) ==> exists|i: int|
            0 <= i < free_slices.len() && (#[trigger] free_slices[i]).start < free_slices[i].end
    }
}

/// At most one free slice is the best fit.
pub proof fn lemma_best_fit_is_unique(free: Seq<Range<u32>>, size: u32, i: int)
    requires
        is_best_fit(free, size, i),
    ensures
        best_fit(free, size) == Some(i),
{
    let k = choose|k: int| is_best_fit(free, size, k);
    assert(is_best_fit(free, size, k));
    assert(fits(free, size, i) && fits(free, size, k));
}

/// At most one gap fits a range.
pub proof fn lemma_gap_is_unique(free: Seq<Range<u32>>, range: Range<u32>, first: int, past: int)
    requires
        is_gap(free, range, first, past),
    ensures
        insert_ordered(free, range) == fill_gap(free, range, first, past),
{
    let (f, p) = choose|f: int, p: int| is_gap(free, range, f, p);
    assert(is_gap(free, range, f, p));
    if f < first {
        assert(free[f].end <= range.start);
    } else if first < f {
        assert(free[first].end <= range.start);
    }
    if p < past {
        assert(free[p].start >= range.end);
    } else if past < p {
        assert(free[past].start >= range.end);
    }
}

/// Putting a range into a gap keeps the order.
pub proof fn lemma_filled_gap_is_ordered(
    free: Seq<Range<u32>>,
    range: Range<u32>,
    first: int,
    past: int,
)
    requires
        ordered(free),
        range.start <= range.end,
        is_gap(free, range, first, past),
    ensures
        ordered(fill_gap(free, range, first, past)),
{
    let more = fill_gap(free, range, first, past);
    assert forall|i: int| 0 <= i < more.len() implies #[trigger] more[i] == (if i < first {
        free[i]
    } else if i == first {
        range
    } else {
        free[i - first - 1 + past]
    }) by {}
}

} // verus!
