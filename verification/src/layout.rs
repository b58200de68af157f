//! Memory layouts of particles and properties, and the flags of an effect.
use vstd::prelude::*;

verus! {

/// Memory layout of a single particle: the sizes that allocation depends on, and a number that
/// stands for the attributes.
#[derive(Debug, Clone, Copy, PartialEq, Eq, Structural)]
pub struct ParticleLayout {
    /// Number by which the attributes are found again. Layouts of other attributes have another
    /// number; the empty layout has zero.
    pub attributes: u64,
    /// Size of the attributes of a particle, in bytes.
    pub size: u32,
    /// Size in bytes that a particle occupies in a GPU buffer. Zero only if the layout is
    /// empty.
    pub min_binding_size: u32,
}

impl ParticleLayout {
    /// Whether the layout holds no attribute at all. Such a layout cannot be bound.
    pub open spec fn is_empty_spec(&self) -> bool {
        self.min_binding_size == 0
    }

    /// The layout without any attribute.
    pub fn empty() -> (layout: Self)
        ensures
            layout == (ParticleLayout { attributes: 0, size: 0, min_binding_size: 0 }),
            layout.is_empty_spec(),
    {
        ParticleLayout { attributes: 0, size: 0, min_binding_size: 0 }
    }

    /// The size of the attributes of a particle, in bytes.
    pub fn size(&self) -> (size: u32)
        ensures
            size == self.size,
    {
        self.size
    }

    /// Whether the layout holds no attribute at all.
    #[verifier::when_used_as_spec(is_empty_spec)]
    pub fn is_empty(&self) -> (empty: bool)
        ensures
            empty == self.is_empty_spec(),
    {
        self.min_binding_size == 0
    }

    /// The number of bytes that a particle occupies in a GPU buffer. Never zero.
    pub fn min_binding_size(&self) -> (size: u64)
        requires
            !self.is_empty(),
        ensures
            size == self.min_binding_size,
            size > 0,
    {
        self.min_binding_size as u64
    }
}

impl Default for ParticleLayout {
    fn default() -> (layout: Self)
        ensures
            layout == (ParticleLayout { attributes: 0, size: 0, min_binding_size: 0 }),
    {
        ParticleLayout::empty()
    }
}

/// Memory layout of the properties of an effect: its size, and a number that stands for the
/// properties.
#[derive(Debug, Clone, Copy, PartialEq, Eq, Structural)]
pub struct PropertyLayout {
    /// Number by which the properties are found again. Layouts of other properties have another
    /// number; the empty layout has zero.
    pub properties: u64,
    /// Size in bytes that the properties occupy in a GPU buffer. Zero only if the effect has no
    /// property.
    pub min_binding_size: u64,
}

impl PropertyLayout {
    /// Whether the effect has no property.
    pub open spec fn is_empty_spec(&self) -> bool {
        self.min_binding_size == 0
    }

    /// The layout of an effect without properties.
    pub fn empty() -> (layout: Self)
        ensures
            layout == (PropertyLayout { properties: 0, min_binding_size: 0 }),
            layout.is_empty_spec(),
    {
        PropertyLayout { properties: 0, min_binding_size: 0 }
    }

    /// Whether the effect has no property.
    #[verifier::when_used_as_spec(is_empty_spec)]
    pub fn is_empty(&self) -> (empty: bool)
        ensures
            empty == self.is_empty_spec(),
    {
        self.min_binding_size == 0
    }

    /// The number of bytes that the properties occupy in a GPU buffer. Never zero.
    pub fn min_binding_size(&self) -> (size: u64)
        requires
            !self.is_empty(),
        ensures
            size == self.min_binding_size,
            size > 0,
    {
        self.min_binding_size
    }
}

/// Flags that select variants of the GPU pipelines of an effect.
#[derive(Debug, Clone, Copy, PartialEq, Eq, Structural)]
pub struct LayoutFlags {
    /// The effect is simulated in the space local to its emitter.
    pub local_space_simulation: bool,
    /// The other flags, one bit each. They are only carried around.
    pub other_flags: u32,
}

impl LayoutFlags {
    /// No flag.
    pub fn none() -> (flags: Self)
        ensures
            flags == (LayoutFlags { local_space_simulation: false, other_flags: 0 }),
    {
        LayoutFlags { local_space_simulation: false, other_flags: 0 }
    }
}

/// A layout is empty exactly if it occupies no byte of a GPU buffer, whatever else it holds.
pub proof fn law_empty_layouts_occupy_nothing(
    particle_layout: ParticleLayout,
    property_layout: PropertyLayout,
)
    ensures
        particle_layout.is_empty() <==> particle_layout.min_binding_size == 0,
        property_layout.is_empty() <==> property_layout.min_binding_size == 0,
{
}

} // verus!
