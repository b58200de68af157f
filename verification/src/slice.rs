//! References to ranges of particles inside a buffer.
use std::cmp::Ordering;
use std::ops::Range;
use vstd::prelude::*;
use vstd::std_specs::cmp::{PartialEqSpec, PartialOrdSpec};

use crate::layout::ParticleLayout;

verus! {

/// The slice of particles of an effect, together with the buffer that holds it.
#[derive(Debug)]
pub struct EffectSlice {
    /// Range of particles inside the buffer.
    pub slice: Range<u32>,
    /// Index of the buffer.
    pub group_index: u32,
    /// Particle layout of the slice.
    pub particle_layout: ParticleLayout,
}

impl EffectSlice {
    /// The position of a slice: first by buffer, then by the first particle in it.
    pub open spec fn order(a: EffectSlice, b: EffectSlice) -> Ordering {
        if a.group_index < b.group_index {
            Ordering::Less
        } else if a.group_index > b.group_index {
            Ordering::Greater
        } else if a.slice.start < b.slice.start {
            Ordering::Less
        } else if a.slice.start > b.slice.start {
            Ordering::Greater
        } else {
            Ordering::Equal
        }
    }

    /// The empty slice at the start of the first buffer.
    pub fn empty() -> (slice: Self)
        ensures
            slice.slice == (Range { start: 0u32, end: 0u32 }),
            slice.group_index == 0,
            slice.particle_layout == (ParticleLayout {
                attributes: 0,
                size: 0,
                min_binding_size: 0,
            }),
    {
        EffectSlice { slice: 0..0, group_index: 0, particle_layout: ParticleLayout::empty() }
    }

    /// Compares the positions of two slices. Neither the length nor the layout of a slice takes
    /// part.
    pub fn cmp(&self, other: &Self) -> (ordering: Ordering)
        ensures
            ordering == EffectSlice::order(*self, *other),
    {
        if self.group_index < other.group_index {
            Ordering::Less
        } else if self.group_index > other.group_index {
            Ordering::Greater
        } else if self.slice.start < other.slice.start {
            Ordering::Less
        } else if self.slice.start > other.slice.start {
            Ordering::Greater
        } else {
            Ordering::Equal
        }
    }
}

impl Clone for EffectSlice {
    fn clone(&self) -> (copy: Self)
        ensures
            copy == *self,
    {
        EffectSlice {
            slice: self.slice.start..self.slice.end,
            group_index: self.group_index,
            particle_layout: self.particle_layout,
        }
    }
}

impl PartialEq for EffectSlice {
    fn eq(&self, other: &Self) -> (equal: bool) {
        self.slice.start == other.slice.start && self.slice.end == other.slice.end
            && self.group_index == other.group_index && self.particle_layout
            == other.particle_layout
    }
}

impl vstd::std_specs::cmp::PartialEqSpecImpl for EffectSlice {
    open spec fn obeys_eq_spec() -> bool {
        true
    }

    open spec fn eq_spec(&self, other: &Self) -> bool {
        *self == *other
    }
}

impl Eq for EffectSlice {

}

impl PartialOrd for EffectSlice {
    fn partial_cmp(&self, other: &Self) -> (ordering: Option<Ordering>) {
        Some(self.cmp(other))
    }
}

impl vstd::std_specs::cmp::PartialOrdSpecImpl for EffectSlice {
    open spec fn obeys_partial_cmp_spec() -> bool {
        true
    }

    open spec fn partial_cmp_spec(&self, other: &Self) -> Option<Ordering> {
        Some(EffectSlice::order(*self, *other))
    }
}

/// The order of effect slices is reflexive and total, and flipping the operands flips the
/// result.
pub proof fn law_slice_order_is_total(a: EffectSlice, b: EffectSlice)
    ensures
        EffectSlice::order(a, a) == Ordering::Equal,
        EffectSlice::order(a, b) == Ordering::Less <==> EffectSlice::order(b, a)
            == Ordering::Greater,
        EffectSlice::order(a, b) == Ordering::Equal <==> EffectSlice::order(b, a)
            == Ordering::Equal,
        EffectSlice::order(a, b) == Ordering::Equal <==> a.group_index == b.group_index
            && a.slice.start == b.slice.start,
{
}

/// A slice comes before another exactly if its buffer does, or if both are in one buffer and it
/// starts first. The operators follow that order, and slices are equal only if all about them is.
pub proof fn law_slices_are_ordered_by_buffer_then_start(a: EffectSlice, b: EffectSlice)
    ensures
        EffectSlice::order(a, b) == Ordering::Less <==> a.group_index < b.group_index || (
        a.group_index == b.group_index && a.slice.start < b.slice.start),
        EffectSlice::order(a, b) == Ordering::Greater <==> a.group_index > b.group_index || (
        a.group_index == b.group_index && a.slice.start > b.slice.start),
        EffectSlice::obeys_partial_cmp_spec(),
        a.partial_cmp_spec(&b) == Some(EffectSlice::order(a, b)),
        EffectSlice::obeys_eq_spec(),
        a.eq_spec(&b) <==> a.slice.start == b.slice.start && a.slice.end == b.slice.end
            && a.group_index == b.group_index && a.particle_layout == b.particle_layout,
{
}

/// The order of effect slices is transitive.
pub proof fn law_slice_order_is_transitive(a: EffectSlice, b: EffectSlice, c: EffectSlice)
    requires
        EffectSlice::order(a, b) != Ordering::Greater,
        EffectSlice::order(b, c) != Ordering::Greater,
    ensures
        EffectSlice::order(a, c) != Ordering::Greater,
        EffectSlice::order(a, c) == Ordering::Equal <==> (EffectSlice::order(a, b)
            == Ordering::Equal && EffectSlice::order(b, c) == Ordering::Equal),
{
}

/// A reference to a slice of particles allocated inside an effect buffer.
#[derive(Debug)]
pub struct SliceRef {
    /// Range into the buffer, in number of particles.
    pub range: Range<u32>,
    /// Layout of the particles in the slice.
    pub particle_layout: ParticleLayout,
}

impl SliceRef {
    /// A reference is well formed if its range does not end before it starts.
    pub open spec fn wf(&self) -> bool {
        self.range.start <= self.range.end
    }

    /// The length of the slice, in number of particles.
    pub fn len(&self) -> (len: u32)
        requires
            self.wf(),
        ensures
            len == self.range.end - self.range.start,
    {
        self.range.end - self.range.start
    }

    /// The size of the slice, in bytes.
    pub fn byte_size(&self) -> (size: usize)
        requires
            self.wf(),
            !self.particle_layout.is_empty(),
            (self.range.end - self.range.start) * self.particle_layout.min_binding_size
                <= usize::MAX,
        ensures
            size == (self.range.end - self.range.start) * self.particle_layout.min_binding_size,
    {
        (self.len() as usize) * (self.particle_layout.min_binding_size() as usize)
    }
}

impl Default for SliceRef {
    fn default() -> (slice: Self)
        ensures
            slice.range == (Range { start: 0u32, end: 0u32 }),
            slice.particle_layout == (ParticleLayout {
                attributes: 0,
                size: 0,
                min_binding_size: 0,
            }),
    {
        SliceRef { range: 0..0, particle_layout: ParticleLayout::empty() }
    }
}

impl Clone for SliceRef {
    fn clone(&self) -> (copy: Self)
        ensures
            copy == *self,
    {
        SliceRef {
            range: self.range.start..self.range.end,
            particle_layout: self.particle_layout,
        }
    }
}

impl PartialEq for SliceRef {
    fn eq(&self, other: &Self) -> (equal: bool) {
        self.range.start == other.range.start && self.range.end == other.range.end
            && self.particle_layout == other.particle_layout
    }
}

impl vstd::std_specs::cmp::PartialEqSpecImpl for SliceRef {
    open spec fn obeys_eq_spec() -> bool {
        true
    }

    open spec fn eq_spec(&self, other: &Self) -> bool {
        *self == *other
    }
}

impl Eq for SliceRef {

}

/// References are equal exactly if they refer to the same range, and with the same layout.
pub proof fn law_equal_references_have_equal_ranges(a: SliceRef, b: SliceRef)
    ensures
        SliceRef::obeys_eq_spec(),
        a.eq_spec(&b) <==> a.range.start == b.range.start && a.range.end == b.range.end
            && a.particle_layout == b.particle_layout,
{
}

} // verus!
