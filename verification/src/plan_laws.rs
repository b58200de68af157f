//! What holds of the description of the GPU objects that back an effect buffer.
use vstd::prelude::*;

use crate::decimal::decimal_text;
use crate::decimal_laws::law_decimal_text_reads_back;
use crate::layout::{LayoutFlags, ParticleLayout, PropertyLayout};
use crate::plan::{slot_label, EffectBufferPlan, GpuRecordSizes, ShaderStage};

verus! {

/// A buffer has room for its particles, and for three 32-bit indices per particle. It has a
/// properties buffer exactly if the effect has properties, and that has their size. Data can be
/// copied to each of them, each can be bound as storage, and only the indices can be written right
/// after creation.
pub proof fn law_plan_has_room_for_every_particle(
    plan: EffectBufferPlan,
    capacity: u32,
    particle_layout: ParticleLayout,
    property_layout: PropertyLayout,
    layout_flags: LayoutFlags,
    sizes: GpuRecordSizes,
    label: Option<Seq<char>>,
)
    requires
        plan.backs(capacity, particle_layout, property_layout, layout_flags, sizes, label),
    ensures
        capacity >= 1 ==> plan.capacity == capacity,
        capacity == 0 ==> plan.capacity == 1,
        plan.particle_buffer.size == plan.capacity * particle_layout.min_binding_size,
        plan.particle_buffer.usage.copy_dst && plan.particle_buffer.usage.storage,
        !plan.particle_buffer.mapped_at_creation,
        plan.indirect_buffer.size == plan.capacity * 4 * 3,
        plan.indirect_buffer.usage.copy_dst && plan.indirect_buffer.usage.storage,
        plan.indirect_buffer.mapped_at_creation,
        plan.properties_buffer is Some <==> property_layout.min_binding_size > 0,
        plan.properties_buffer matches Some(properties) ==> {
            &&& properties.size == property_layout.min_binding_size
            &&& properties.usage.copy_dst && properties.usage.storage
            &&& !properties.mapped_at_creation
        },
{
}

/// The particle buffer has the given label, or none if there is none. The labels of the other
/// buffers start with it and say what they hold, or are default labels. The labels of the bind
/// group layouts are always the same.
pub proof fn law_plan_labels_tell_buffers_apart(
    plan: EffectBufferPlan,
    capacity: u32,
    particle_layout: ParticleLayout,
    property_layout: PropertyLayout,
    layout_flags: LayoutFlags,
    sizes: GpuRecordSizes,
    label: Option<Seq<char>>,
)
    requires
        plan.backs(capacity, particle_layout, property_layout, layout_flags, sizes, label),
    ensures
        match (label, plan.particle_buffer.label) {
            (Some(text), Some(particle_label)) => particle_label@ == text,
            (None, None) => true,
            _ => false,
        },
        plan.indirect_buffer.label matches Some(indirect_label) && indirect_label@ == (match label {
            Some(text) => text + "_indirect"@,
            None => "hanabi:buffer:effect_indirect"@,
        }),
        plan.properties_buffer matches Some(properties) ==> (properties.label matches Some(
            properties_label,
        ) && properties_label@ == (match label {
            Some(text) => text + "_properties"@,
            None => "hanabi:buffer:effect_properties"@,
        })),
        plan.particles_buffer_layout_simulate.label@
            == "hanabi:simualate_particles_buffer_layout"@,
        plan.particles_buffer_layout_with_dispatch.label@ == "hanabi:buffer_layout_render"@,
{
}

/// The simulation passes always write the particles and the indices, at offsets given when the
/// bind group is set, whatever the properties, the flags and the sizes are. If the effect has
/// properties, they read those from the start of their buffer. The bindings are numbered in
/// order, and seen by compute shaders only.
pub proof fn law_simulation_writes_particles_and_indices(
    plan: EffectBufferPlan,
    capacity: u32,
    particle_layout: ParticleLayout,
    property_layout: PropertyLayout,
    layout_flags: LayoutFlags,
    sizes: GpuRecordSizes,
    label: Option<Seq<char>>,
)
    requires
        plan.backs(capacity, particle_layout, property_layout, layout_flags, sizes, label),
    ensures
        ({
            let entries = plan.particles_buffer_layout_simulate.entries@;
            &&& entries.len() == (if property_layout.min_binding_size > 0 {
                3int
            } else {
                2
            })
            &&& forall|i: int|
                0 <= i < entries.len() ==> (#[trigger] entries[i]).binding == i
                    && entries[i].visibility == ShaderStage::Compute
            &&& !entries[0].read_only && !entries[1].read_only
            &&& entries[0].has_dynamic_offset && entries[1].has_dynamic_offset
            &&& entries[0].min_binding_size == particle_layout.min_binding_size
            &&& entries[1].min_binding_size == 3 * 4
            &&& property_layout.min_binding_size > 0 ==> {
                &&& entries[2].read_only
                &&& !entries[2].has_dynamic_offset
                &&& entries[2].min_binding_size == property_layout.min_binding_size
            }
        }),
{
}

/// The bindings of the simulation passes with properties are those without, plus a last one to read
/// the properties. They depend on nothing else but the layout of particles.
pub proof fn law_properties_only_add_a_binding(
    with: EffectBufferPlan,
    without: EffectBufferPlan,
    capacities: (u32, u32),
    particle_layout: ParticleLayout,
    property_layouts: (PropertyLayout, PropertyLayout),
    layout_flags: (LayoutFlags, LayoutFlags),
    sizes: (GpuRecordSizes, GpuRecordSizes),
    labels: (Option<Seq<char>>, Option<Seq<char>>),
)
    requires
        with.backs(
            capacities.0,
            particle_layout,
            property_layouts.0,
            layout_flags.0,
            sizes.0,
            labels.0,
        ),
        without.backs(
            capacities.1,
            particle_layout,
            property_layouts.1,
            layout_flags.1,
            sizes.1,
            labels.1,
        ),
        property_layouts.0.min_binding_size > 0,
        property_layouts.1.min_binding_size == 0,
    ensures
        ({
            let more = with.particles_buffer_layout_simulate.entries@;
            let entries = without.particles_buffer_layout_simulate.entries@;
            &&& more.len() == entries.len() + 1
            &&& entries == more.drop_last()
            &&& more.last().binding == entries.len()
            &&& more.last().read_only
        }),
{
    assert(without.particles_buffer_layout_simulate.entries@
        =~= with.particles_buffer_layout_simulate.entries@.drop_last());
}

/// The render pass only reads, in vertex shaders, and its bindings are numbered in order. It reads
/// the particles and the indices from the start of their buffers, and the arguments of the indirect
/// dispatch, as well as the spawner of an effect simulated in local space, at offsets given when
/// the bind group is set.
pub proof fn law_rendering_only_reads(
    plan: EffectBufferPlan,
    capacity: u32,
    particle_layout: ParticleLayout,
    property_layout: PropertyLayout,
    layout_flags: LayoutFlags,
    sizes: GpuRecordSizes,
    label: Option<Seq<char>>,
)
    requires
        plan.backs(capacity, particle_layout, property_layout, layout_flags, sizes, label),
    ensures
        ({
            let entries = plan.particles_buffer_layout_with_dispatch.entries@;
            &&& entries.len() == (if layout_flags.local_space_simulation {
                4int
            } else {
                3
            })
            &&& forall|i: int|
                0 <= i < entries.len() ==> {
                    &&& (#[trigger] entries[i]).binding == i
                    &&& entries[i].visibility == ShaderStage::Vertex
                    &&& entries[i].read_only
                    &&& entries[i].has_dynamic_offset <==> i >= 2
                }
            &&& entries[0].min_binding_size == particle_layout.min_binding_size
            &&& entries[1].min_binding_size == 4
            &&& entries[2].min_binding_size == sizes.dispatch_indirect
            &&& layout_flags.local_space_simulation ==> entries[3].min_binding_size
                == sizes.spawner_params
        }),
{
}

/// The bindings of the render pass in local space are those in global space, plus a last one to
/// read the spawner. They depend neither on the properties nor on the other flags.
pub proof fn law_local_space_only_adds_a_binding(
    local: EffectBufferPlan,
    global: EffectBufferPlan,
    capacities: (u32, u32),
    particle_layout: ParticleLayout,
    property_layouts: (PropertyLayout, PropertyLayout),
    layout_flags: (LayoutFlags, LayoutFlags),
    sizes: GpuRecordSizes,
    labels: (Option<Seq<char>>, Option<Seq<char>>),
)
    requires
        local.backs(
            capacities.0,
            particle_layout,
            property_layouts.0,
            layout_flags.0,
            sizes,
            labels.0,
        ),
        global.backs(
            capacities.1,
            particle_layout,
            property_layouts.1,
            layout_flags.1,
            sizes,
            labels.1,
        ),
        layout_flags.0.local_space_simulation,
        !layout_flags.1.local_space_simulation,
    ensures
        ({
            let more = local.particles_buffer_layout_with_dispatch.entries@;
            let entries = global.particles_buffer_layout_with_dispatch.entries@;
            &&& more.len() == entries.len() + 1
            &&& entries == more.drop_last()
            &&& more.last().binding == entries.len()
            &&& more.last().min_binding_size == sizes.spawner_params
        }),
{
    assert(global.particles_buffer_layout_with_dispatch.entries@
        =~= local.particles_buffer_layout_with_dispatch.entries@.drop_last());
}

/// The label of a particle buffer holds the index of its entry between a fixed start and a fixed
/// end, so that no two entries have the same label.
pub proof fn law_slot_labels_differ(index: nat, other: nat)
    ensures
        slot_label(index) == "hanabi:buffer:effect"@ + decimal_text(index) + "_particles"@,
        slot_label(index) == slot_label(other) <==> index == other,
{
    if slot_label(index) == slot_label(other) {
        let start = "hanabi:buffer:effect"@.len() as int;
        let text = slot_label(index);
        let end = text.len() - "_particles"@.len();
        assert(text.subrange(start, end) =~= decimal_text(index));
        assert(slot_label(other).subrange(start, end) =~= decimal_text(other));
        law_decimal_text_reads_back(index);
        law_decimal_text_reads_back(other);
    }
}

} // verus!
