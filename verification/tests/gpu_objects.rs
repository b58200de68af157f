use bytemuck::PodCastError;
use effect_cache::indirect::{
    fill_cast_indices, fill_dead_list, init_indirect_buffer, UnalignedBytes,
};
use effect_cache::layout::{LayoutFlags, ParticleLayout, PropertyLayout};
use effect_cache::plan::{
    particle_buffer_label, BindGroupLayoutEntry, BufferUsages, EffectBufferPlan, GpuRecordSizes,
    ShaderStage,
};

const LAYOUT: ParticleLayout = ParticleLayout {
    attributes: 1,
    size: 60,
    min_binding_size: 64,
};

const SIZES: GpuRecordSizes = GpuRecordSizes {
    dispatch_indirect: 32,
    spawner_params: 96,
};

#[test]
fn layouts() {
    assert_eq!(LAYOUT.size(), 60);
    assert_eq!(LAYOUT.min_binding_size(), 64);
    assert!(!LAYOUT.is_empty());
    assert!(ParticleLayout::empty().is_empty());
    assert_eq!(ParticleLayout::empty().size(), 0);
    assert!(PropertyLayout::empty().is_empty());
    let properties = PropertyLayout {
        properties: 1,
        min_binding_size: 16,
    };
    assert!(!properties.is_empty());
    assert_eq!(properties.min_binding_size(), 16);
}

#[test]
fn flags() {
    let none = LayoutFlags::none();
    assert!(!none.local_space_simulation);
    assert_eq!(none.other_flags, 0);
}

#[test]
fn labels_of_slots() {
    assert_eq!(particle_buffer_label(0), "hanabi:buffer:effect0_particles");
    assert_eq!(particle_buffer_label(9), "hanabi:buffer:effect9_particles");
    assert_eq!(particle_buffer_label(10), "hanabi:buffer:effect10_particles");
    assert_eq!(
        particle_buffer_label(1234567890),
        "hanabi:buffer:effect1234567890_particles"
    );
    assert_eq!(
        particle_buffer_label(usize::MAX),
        format!("hanabi:buffer:effect{}_particles", usize::MAX)
    );
}

#[test]
fn plan_with_everything() {
    let plan = EffectBufferPlan::new(
        1000,
        &LAYOUT,
        &PropertyLayout {
            properties: 1,
            min_binding_size: 20,
        },
        LayoutFlags {
            local_space_simulation: true,
            other_flags: 0,
        },
        SIZES,
        Some("my_buffer"),
    );
    let usage = BufferUsages {
        copy_dst: true,
        storage: true,
    };
    assert_eq!(plan.capacity, 1000);

    assert_eq!(plan.particle_buffer.label.as_deref(), Some("my_buffer"));
    assert_eq!(plan.particle_buffer.size, 64000);
    assert_eq!(plan.particle_buffer.usage, usage);
    assert!(!plan.particle_buffer.mapped_at_creation);

    assert_eq!(
        plan.indirect_buffer.label.as_deref(),
        Some("my_buffer_indirect")
    );
    assert_eq!(plan.indirect_buffer.size, 12000);
    assert_eq!(plan.indirect_buffer.usage, usage);
    assert!(plan.indirect_buffer.mapped_at_creation);

    let properties = plan.properties_buffer.unwrap();
    assert_eq!(properties.label.as_deref(), Some("my_buffer_properties"));
    assert_eq!(properties.size, 20);
    assert_eq!(properties.usage, usage);
    assert!(!properties.mapped_at_creation);

    let simulate = plan.particles_buffer_layout_simulate;
    assert_eq!(simulate.label, "hanabi:simualate_particles_buffer_layout");
    let compute = |binding: u32, read_only: bool, has_dynamic_offset: bool, size: u64| {
        BindGroupLayoutEntry {
            binding,
            visibility: ShaderStage::Compute,
            read_only,
            has_dynamic_offset,
            min_binding_size: size,
        }
    };
    assert_eq!(
        simulate.entries,
        vec![
            compute(0, false, true, 64),
            compute(1, false, true, 12),
            compute(2, true, false, 20),
        ]
    );

    let render = plan.particles_buffer_layout_with_dispatch;
    assert_eq!(render.label, "hanabi:buffer_layout_render");
    let vertex = |binding: u32, has_dynamic_offset: bool, size: u64| BindGroupLayoutEntry {
        binding,
        visibility: ShaderStage::Vertex,
        read_only: true,
        has_dynamic_offset,
        min_binding_size: size,
    };
    assert_eq!(
        render.entries,
        vec![
            vertex(0, false, 64),
            vertex(1, false, 4),
            vertex(2, true, 32),
            vertex(3, true, 96),
        ]
    );
}

#[test]
fn plan_with_nothing() {
    let plan = EffectBufferPlan::new(
        0,
        &LAYOUT,
        &PropertyLayout::empty(),
        LayoutFlags::none(),
        SIZES,
        None,
    );
    assert_eq!(plan.capacity, 1);
    assert_eq!(plan.particle_buffer.label, None);
    assert_eq!(plan.particle_buffer.size, 64);
    assert_eq!(
        plan.indirect_buffer.label.as_deref(),
        Some("hanabi:buffer:effect_indirect")
    );
    assert_eq!(plan.indirect_buffer.size, 12);
    assert!(plan.properties_buffer.is_none());
    assert_eq!(plan.particles_buffer_layout_simulate.entries.len(), 2);
    assert_eq!(plan.particles_buffer_layout_with_dispatch.entries.len(), 3);
}

#[test]
fn plan_without_label_but_with_properties() {
    let plan = EffectBufferPlan::new(
        1,
        &LAYOUT,
        &PropertyLayout {
            properties: 1,
            min_binding_size: 4,
        },
        LayoutFlags::none(),
        SIZES,
        None,
    );
    assert_eq!(
        plan.properties_buffer.unwrap().label.as_deref(),
        Some("hanabi:buffer:effect_properties")
    );
}

#[test]
fn every_particle_starts_dead() {
    let mut indices = vec![7; 14];
    fill_dead_list(&mut indices, 4);
    assert_eq!(indices, [7, 7, 3, 7, 7, 2, 7, 7, 1, 7, 7, 0, 7, 7]);
    fill_dead_list(&mut indices, 0);
    assert_eq!(indices, [7, 7, 3, 7, 7, 2, 7, 7, 1, 7, 7, 0, 7, 7]);
}

#[test]
fn outcome_of_the_cast() {
    let mut indices: Vec<u32> = vec![7; 6];
    assert_eq!(fill_cast_indices(Ok(&mut indices), 2), Ok(()));
    assert_eq!(indices, [7, 7, 1, 7, 7, 0]);
    assert_eq!(
        fill_cast_indices(
            Err(PodCastError::TargetAlignmentGreaterAndInputNotAligned),
            2
        ),
        Err(UnalignedBytes)
    );
}

#[test]
fn indirect_bytes() {
    let mut words: Vec<u32> = vec![0x01020304; 8];
    let bytes: &mut [u8] = bytemuck::cast_slice_mut(&mut words);
    assert_eq!(init_indirect_buffer(bytes, 2), Ok(()));
    assert_eq!(
        words,
        [0x01020304, 0x01020304, 1, 0x01020304, 0x01020304, 0, 0x01020304, 0x01020304]
    );
}

#[test]
fn unaligned_indirect_bytes() {
    let mut words: Vec<u32> = vec![0x01020304; 8];
    let bytes: &mut [u8] = bytemuck::cast_slice_mut(&mut words);
    assert_eq!(
        init_indirect_buffer(&mut bytes[1..], 2),
        Err(UnalignedBytes)
    );
    assert_eq!(words, [0x01020304; 8]);
}
