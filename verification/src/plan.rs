//! Description of the GPU objects that back an effect buffer.
use vstd::prelude::*;
use vstd::string::StringExecFns;

use crate::allocation::{round_capacity, rounded_capacity};
use crate::decimal::{decimal, decimal_text};
use crate::layout::{LayoutFlags, ParticleLayout, PropertyLayout};

verus! {

/// What a GPU buffer may be used for.
#[derive(Debug, Clone, Copy, PartialEq, Eq, Structural)]
pub struct BufferUsages {
    /// The buffer may be the destination of a copy.
    pub copy_dst: bool,
    /// The buffer may be bound as a storage buffer.
    pub storage: bool,
}

/// Description of a GPU buffer.
#[derive(Debug)]
pub struct BufferDescriptor {
    /// Debug label.
    pub label: Option<String>,
    /// Size in bytes.
    pub size: u64,
    /// What the buffer may be used for.
    pub usage: BufferUsages,
    /// Whether the content can be written right after creation.
    pub mapped_at_creation: bool,
}

/// The shader stage that sees a binding.
#[derive(Debug, Clone, Copy, PartialEq, Eq, Structural)]
pub enum ShaderStage {
    /// Compute shaders.
    Compute,
    /// Vertex shaders.
    Vertex,
}

/// Description of the binding of a single storage buffer.
#[derive(Debug, Clone, Copy, PartialEq, Eq, Structural)]
pub struct BindGroupLayoutEntry {
    /// Binding index.
    pub binding: u32,
    /// Stage that sees the binding.
    pub visibility: ShaderStage,
    /// Whether the storage buffer is read only.
    pub read_only: bool,
    /// Whether the offset of the buffer is given when the bind group is set.
    pub has_dynamic_offset: bool,
    /// Minimum number of bound bytes. Never zero.
    pub min_binding_size: u64,
}

/// Description of the layout of a bind group.
#[derive(Debug)]
pub struct BindGroupLayoutDescriptor {
    /// Debug label.
    pub label: String,
    /// Bindings of the group.
    pub entries: Vec<BindGroupLayoutEntry>,
}

/// Sizes in bytes of records shared with the shaders.
#[derive(Debug, Clone, Copy, PartialEq, Eq, Structural)]
pub struct GpuRecordSizes {
    /// Minimum size of the arguments of an indirect dispatch.
    pub dispatch_indirect: u64,
    /// Minimum size of the parameters of a spawner.
    pub spawner_params: u64,
}

impl GpuRecordSizes {
    /// No record is empty.
    pub open spec fn wf(self) -> bool {
        self.dispatch_indirect > 0 && self.spawner_params > 0
    }
}

/// Description of the GPU objects that back an effect buffer.
#[derive(Debug)]
pub struct EffectBufferPlan {
    /// Total capacity, in number of particles.
    pub capacity: u32,
    /// The buffer holding all particles.
    pub particle_buffer: BufferDescriptor,
    /// The buffer holding the indirection indices.
    pub indirect_buffer: BufferDescriptor,
    /// The buffer holding the properties of the effect, if it has any.
    pub properties_buffer: Option<BufferDescriptor>,
    /// The layout of the bind group of the simulation passes.
    pub particles_buffer_layout_simulate: BindGroupLayoutDescriptor,
    /// The layout of the bind group of the render pass.
    pub particles_buffer_layout_with_dispatch: BindGroupLayoutDescriptor,
}

/// The characters of a label, if there is one.
pub open spec fn label_text(label: Option<String>) -> Option<Seq<char>> {
    match label {
        Some(label) => Some(label@),
        None => None,
    }
}

/// The characters of a borrowed label, if there is one.
pub open spec fn label_str_text(label: Option<&str>) -> Option<Seq<char>> {
    match label {
        Some(label) => Some(label@),
        None => None,
    }
}

/// The label with a suffix, or a default label.
pub open spec fn derived_label(
    label: Option<Seq<char>>,
    suffix: Seq<char>,
    default_label: Seq<char>,
) -> Seq<char> {
    match label {
        Some(label) => label + suffix,
        None => default_label,
    }
}

/// The descriptor of a storage buffer to which data can be copied.
pub open spec fn describes(
    descriptor: BufferDescriptor,
    label: Option<Seq<char>>,
    size: int,
    mapped_at_creation: bool,
) -> bool {
    &&& label_text(descriptor.label) == label
    &&& descriptor.size == size
    &&& descriptor.usage == BufferUsages { copy_dst: true, storage: true }
    &&& descriptor.mapped_at_creation == mapped_at_creation
}

/// The bindings of the simulation passes: the particles, the indirection indices, and the
/// properties if there are any.
pub open spec fn simulate_entries(
    particle_layout: ParticleLayout,
    property_layout: PropertyLayout,
) -> Seq<BindGroupLayoutEntry> {
    let entries = seq![
        BindGroupLayoutEntry {
            binding: 0,
            visibility: ShaderStage::Compute,
            read_only: false,
            has_dynamic_offset: true,
            min_binding_size: particle_layout.min_binding_size as u64,
        },
        BindGroupLayoutEntry {
            binding: 1,
            visibility: ShaderStage::Compute,
            read_only: false,
            has_dynamic_offset: true,
            min_binding_size: 12,
        },
    ];
    if property_layout.is_empty() {
        entries
    } else {
        entries.push(
            BindGroupLayoutEntry {
                binding: 2,
                visibility: ShaderStage::Compute,
                read_only: true,
                has_dynamic_offset: false,
                min_binding_size: property_layout.min_binding_size,
            },
        )
    }
}

/// The bindings of the render pass: the particles, the indirection indices, the arguments of
/// the indirect dispatch, and the spawner for an effect simulated in local space.
pub open spec fn render_entries(
    particle_layout: ParticleLayout,
    layout_flags: LayoutFlags,
    sizes: GpuRecordSizes,
) -> Seq<BindGroupLayoutEntry> {
    let entries = seq![
        BindGroupLayoutEntry {
            binding: 0,
            visibility: ShaderStage::Vertex,
            read_only: true,
            has_dynamic_offset: false,
            min_binding_size: particle_layout.min_binding_size as u64,
        },
        BindGroupLayoutEntry {
            binding: 1,
            visibility: ShaderStage::Vertex,
            read_only: true,
            has_dynamic_offset: false,
            min_binding_size: 4,
        },
        BindGroupLayoutEntry {
            binding: 2,
            visibility: ShaderStage::Vertex,
            read_only: true,
            has_dynamic_offset: true,
            min_binding_size: sizes.dispatch_indirect,
        },
    ];
    if layout_flags.local_space_simulation {
        entries.push(
            BindGroupLayoutEntry {
                binding: 3,
                visibility: ShaderStage::Vertex,
                read_only: true,
                has_dynamic_offset: true,
                min_binding_size: sizes.spawner_params,
            },
        )
    } else {
        entries
    }
}

/// The label of the particle buffer in a given slot of a cache.
pub open spec fn slot_label(buffer_index: nat) -> Seq<char> {
    "hanabi:buffer:effect"@ + decimal_text(buffer_index) + "_particles"@
}

/// An owned copy of a label.
fn owned_label(label: Option<&str>) -> (copy: Option<String>)
    ensures
        label_text(copy) == label_str_text(label),
{
    match label {
        Some(label) => Some(label.to_owned()),
        None => None,
    }
}

/// The label with a suffix, or a default label.
fn derive_label(label: Option<&str>, suffix: &str, default_label: &str) -> (derived: String)
    ensures
        derived@ == derived_label(label_str_text(label), suffix@, default_label@),
{
    match label {
        Some(label) => {
            let mut derived = label.to_owned();
            derived.append(suffix);
            derived
        },
        None => default_label.to_owned(),
    }
}

/// The descriptor of a storage buffer to which data can be copied.
fn storage_buffer(label: Option<String>, size: u64, mapped_at_creation: bool) -> (descriptor:
    BufferDescriptor)
    ensures
        describes(descriptor, label_text(label), size as int, mapped_at_creation),
{
    BufferDescriptor {
        label,
        size,
        usage: BufferUsages { copy_dst: true, storage: true },
        mapped_at_creation,
    }
}

impl EffectBufferPlan {
    /// The plan describes the GPU objects that back a buffer of `capacity` particles,
    /// rounded up to the minimum.
    pub open spec fn backs(
        self,
        capacity: u32,
        particle_layout: ParticleLayout,
        property_layout: PropertyLayout,
        layout_flags: LayoutFlags,
        sizes: GpuRecordSizes,
        label: Option<Seq<char>>,
    ) -> bool {
        &&& self.capacity == rounded_capacity(capacity)
        &&& describes(
            self.particle_buffer,
            label,
            self.capacity * particle_layout.min_binding_size,
            false,
        )
        &&& describes(
            self.indirect_buffer,
            Some(derived_label(label, "_indirect"@, "hanabi:buffer:effect_indirect"@)),
            self.capacity * 12,
            true,
        )
        &&& match self.properties_buffer {
            Some(descriptor) => !property_layout.is_empty() && describes(
                descriptor,
                Some(derived_label(label, "_properties"@, "hanabi:buffer:effect_properties"@)),
                property_layout.min_binding_size as int,
                false,
            ),
            None => property_layout.is_empty(),
        }
        &&& self.particles_buffer_layout_simulate.label@
            == "hanabi:simualate_particles_buffer_layout"@
        &&& self.particles_buffer_layout_simulate.entries@ == simulate_entries(
            particle_layout,
            property_layout,
        )
        &&& self.particles_buffer_layout_with_dispatch.label@ == "hanabi:buffer_layout_render"@
        &&& self.particles_buffer_layout_with_dispatch.entries@ == render_entries(
            particle_layout,
            layout_flags,
            sizes,
        )
    }

    /// Describes the GPU objects that back a buffer of `capacity` particles, rounded up
    /// to the minimum.
    pub fn new(
        capacity: u32,
        particle_layout: &ParticleLayout,
        property_layout: &PropertyLayout,
        layout_flags: LayoutFlags,
        sizes: GpuRecordSizes,
        label: Option<&str>,
    ) -> (plan: Self)
        requires
            !particle_layout.is_empty(),
            sizes.wf(),
        ensures
            plan.backs(
                capacity,
                *particle_layout,
                *property_layout,
                layout_flags,
                sizes,
                label_str_text(label),
            ),
    {
        let capacity: u32 = round_capacity(capacity);
        let item_size: u64 = particle_layout.min_binding_size();
        assert(capacity * item_size <= u64::MAX) by (nonlinear_arith)
            requires
                capacity <= u32::MAX,
                item_size <= u32::MAX,
        ;
        let particle_buffer = storage_buffer(
            owned_label(label),
            capacity as u64 * item_size,
            false,
        );

        // ping-pong + dead list
        let indirect_label = derive_label(label, "_indirect", "hanabi:buffer:effect_indirect");
        let indirect_buffer = storage_buffer(
            Some(indirect_label),
            capacity as u64 * 4 * 3,
            true,
        );

        let properties_buffer = if property_layout.is_empty() {
            None
        } else {
            let properties_label = derive_label(
                label,
                "_properties",
                "hanabi:buffer:effect_properties",
            );
            Some(storage_buffer(Some(properties_label), property_layout.min_binding_size(), false))
        };

        let mut simulate: Vec<BindGroupLayoutEntry> = Vec::new();
        simulate.push(
            BindGroupLayoutEntry {
                binding: 0,
                visibility: ShaderStage::Compute,
                read_only: false,
                has_dynamic_offset: true,
                min_binding_size: item_size,
            },
        );
        simulate.push(
            BindGroupLayoutEntry {
                binding: 1,
                visibility: ShaderStage::Compute,
                read_only: false,
                has_dynamic_offset: true,
                min_binding_size: 12,
            },
        );
        if !property_layout.is_empty() {
            simulate.push(
                BindGroupLayoutEntry {
                    binding: 2,
                    visibility: ShaderStage::Compute,
                    read_only: true,
                    has_dynamic_offset: false,
                    min_binding_size: property_layout.min_binding_size(),
                },
            );
        }
        assert(simulate@ =~= simulate_entries(*particle_layout, *property_layout));

        let mut render: Vec<BindGroupLayoutEntry> = Vec::new();
        render.push(
            BindGroupLayoutEntry {
                binding: 0,
                visibility: ShaderStage::Vertex,
                read_only: true,
                has_dynamic_offset: false,
                min_binding_size: item_size,
            },
        );
        render.push(
            BindGroupLayoutEntry {
                binding: 1,
                visibility: ShaderStage::Vertex,
                read_only: true,
                has_dynamic_offset: false,
                min_binding_size: 4,
            },
        );
        render.push(
            BindGroupLayoutEntry {
                binding: 2,
                visibility: ShaderStage::Vertex,
                read_only: true,
                has_dynamic_offset: true,
                min_binding_size: sizes.dispatch_indirect,
            },
        );
        if layout_flags.local_space_simulation {
            render.push(
                BindGroupLayoutEntry {
                    binding: 3,
                    visibility: ShaderStage::Vertex,
                    read_only: true,
                    has_dynamic_offset: true,
                    min_binding_size: sizes.spawner_params,
                },
            );
        }
        assert(render@ =~= render_entries(*particle_layout, layout_flags, sizes));

        EffectBufferPlan {
            capacity,
            particle_buffer,
            indirect_buffer,
            properties_buffer,
            particles_buffer_layout_simulate: BindGroupLayoutDescriptor {
                label: "hanabi:simualate_particles_buffer_layout".to_owned(),
                entries: simulate,
            },
            particles_buffer_layout_with_dispatch: BindGroupLayoutDescriptor {
                label: "hanabi:buffer_layout_render".to_owned(),
                entries: render,
            },
        }
    }
}

/// The label of the particle buffer in a given slot of a cache.
pub fn particle_buffer_label(buffer_index: usize) -> (label: String)
    ensures
        label@ == slot_label(buffer_index as nat),
{
    let mut label = "hanabi:buffer:effect".to_owned();
    label.append(decimal(buffer_index).as_str());
    label.append("_particles");
    label
}

} // verus!
