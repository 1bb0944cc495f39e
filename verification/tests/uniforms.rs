use voxel_pipeline::terrain_uniforms::ChunkLoadRadius;
use voxel_pipeline::terrain_uniforms::GpuVoxelMaterial;
use voxel_pipeline::terrain_uniforms::MATERIAL_TABLE_CAPACITY;
use voxel_pipeline::terrain_uniforms::ONE_BITS;
use voxel_pipeline::terrain_uniforms::RenderDevice;
use voxel_pipeline::terrain_uniforms::RenderQueue;
use voxel_pipeline::terrain_uniforms::Rgba;
use voxel_pipeline::terrain_uniforms::SetTerrainUniformsBindGroup;
use voxel_pipeline::terrain_uniforms::TerrainUniforms;
use voxel_pipeline::terrain_uniforms::VoxelMaterialRegistry;
use voxel_pipeline::terrain_uniforms::VoxelTerrainUniformsPlugin;
use voxel_pipeline::terrain_uniforms::default_voxel_material;
use voxel_pipeline::terrain_uniforms::extract_voxel_materials;

fn rgba(r: f32, g: f32, b: f32, a: f32) -> Rgba {
    Rgba { r: r.to_bits(), g: g.to_bits(), b: b.to_bits(), a: a.to_bits() }
}

fn red_material() -> GpuVoxelMaterial {
    GpuVoxelMaterial {
        base_color: rgba(1.0, 0.0, 0.0, 1.0),
        flags: 0,
        emissive: rgba(0.0, 0.0, 0.0, 0.0),
        perceptual_roughness: 0.5f32.to_bits(),
        metallic: 0.0f32.to_bits(),
        reflectance: 0.04f32.to_bits(),
    }
}

#[test]
fn default_material_is_opaque_white_without_flags() {
    let d = default_voxel_material();
    assert_eq!(d.base_color, Rgba { r: ONE_BITS, g: ONE_BITS, b: ONE_BITS, a: ONE_BITS });
    assert_eq!(d.base_color.r, 1.0f32.to_bits());
    assert_eq!(d.flags, 0);
}

#[test]
fn extraction_populates_slots_and_fills_the_rest_with_the_sentinel() {
    // Registry with two populated slots: slot 0 default white, slot 1 red
    // with roughness 0.5 and reflectance 0.04. The extracted table matches
    // slot 1 exactly, and slot 2 still equals the default white sentinel,
    // not zero-initialized garbage.
    let mut registry = VoxelMaterialRegistry::new();
    let red = red_material();
    let id = registry.register(red);
    assert_eq!(id, 1);

    let mut device = RenderDevice::new();
    let mut uniforms = TerrainUniforms::from_world(&mut device);
    extract_voxel_materials(&mut uniforms, &registry);

    let table = uniforms.extracted_materials.as_ref().expect("snapshot taken");
    assert_eq!(table.materials.len(), MATERIAL_TABLE_CAPACITY);
    assert_eq!(table.materials[0], default_voxel_material());
    assert_eq!(table.materials[1], red);
    assert_eq!(table.materials[2], default_voxel_material());
    assert_eq!(table.materials[MATERIAL_TABLE_CAPACITY - 1], default_voxel_material());
}

#[test]
fn unchanged_state_causes_no_upload_on_the_second_frame() {
    let plugin = VoxelTerrainUniformsPlugin;
    let mut device = RenderDevice::new();
    let mut queue = RenderQueue::new();
    let mut uniforms = TerrainUniforms::from_world(&mut device);
    let mut registry = VoxelMaterialRegistry::new();
    registry.register(red_material());
    let radius = ChunkLoadRadius::new(16);

    plugin.run_render_frame(&mut uniforms, &mut device, &mut queue, &registry, &radius);
    // First frame uploads both the table and the distance scalar.
    assert_eq!(queue.upload_count, 2);
    assert_eq!(uniforms.distance_gpu, 16);
    assert_eq!(uniforms.materials_gpu.materials[1], red_material());

    plugin.run_render_frame(&mut uniforms, &mut device, &mut queue, &registry, &radius);
    // Nothing changed: no GPU upload on the second frame.
    assert_eq!(queue.upload_count, 2);
}

#[test]
fn distance_change_does_not_reupload_the_material_table() {
    let plugin = VoxelTerrainUniformsPlugin;
    let mut device = RenderDevice::new();
    let mut queue = RenderQueue::new();
    let mut uniforms = TerrainUniforms::from_world(&mut device);
    let registry = VoxelMaterialRegistry::new();
    let mut radius = ChunkLoadRadius::new(8);

    plugin.run_render_frame(&mut uniforms, &mut device, &mut queue, &registry, &radius);
    assert_eq!(queue.upload_count, 2);

    radius.set_horizontal(24);
    plugin.run_render_frame(&mut uniforms, &mut device, &mut queue, &registry, &radius);
    // Only the distance scalar went up again.
    assert_eq!(queue.upload_count, 3);
    assert_eq!(uniforms.distance_gpu, 24);
}

#[test]
fn material_edit_triggers_exactly_one_table_upload() {
    let plugin = VoxelTerrainUniformsPlugin;
    let mut device = RenderDevice::new();
    let mut queue = RenderQueue::new();
    let mut uniforms = TerrainUniforms::from_world(&mut device);
    let mut registry = VoxelMaterialRegistry::new();
    registry.register(red_material());
    let radius = ChunkLoadRadius::new(8);

    plugin.run_render_frame(&mut uniforms, &mut device, &mut queue, &registry, &radius);
    assert_eq!(queue.upload_count, 2);

    // The material editor path: overwrite slot 1, bumping the generation.
    let mut green = red_material();
    green.base_color = rgba(0.0, 1.0, 0.0, 1.0);
    registry.update(1, green);
    plugin.run_render_frame(&mut uniforms, &mut device, &mut queue, &registry, &radius);
    assert_eq!(queue.upload_count, 3);
    assert_eq!(uniforms.materials_gpu.materials[1], green);
}

#[test]
fn bind_group_is_rebuilt_each_frame_over_stable_buffers() {
    let plugin = VoxelTerrainUniformsPlugin;
    let mut device = RenderDevice::new();
    let mut queue = RenderQueue::new();
    let mut uniforms = TerrainUniforms::from_world(&mut device);
    let registry = VoxelMaterialRegistry::new();
    let radius = ChunkLoadRadius::new(8);

    assert!(uniforms.bind_group.is_none());
    plugin.run_render_frame(&mut uniforms, &mut device, &mut queue, &registry, &radius);
    let first = uniforms.bind_group.expect("built in prepare");
    plugin.run_render_frame(&mut uniforms, &mut device, &mut queue, &registry, &radius);
    let second = uniforms.bind_group.expect("rebuilt in prepare");
    // Buffer identities are stable after the first allocation, so the
    // rebuilt bind group references the same buffers.
    assert_eq!(first, second);

    let command = SetTerrainUniformsBindGroup { slot: 2 };
    let (slot, bound) = command.render(&uniforms);
    assert_eq!(slot, 2);
    assert_eq!(bound, second);
}

#[test]
fn full_capacity_registry_extracts_every_slot() {
    let mut registry = VoxelMaterialRegistry::new();
    while registry.count() < MATERIAL_TABLE_CAPACITY {
        let mut m = red_material();
        m.flags = registry.count() as u32;
        registry.register(m);
    }
    let mut device = RenderDevice::new();
    let mut uniforms = TerrainUniforms::from_world(&mut device);
    extract_voxel_materials(&mut uniforms, &registry);
    let table = uniforms.extracted_materials.as_ref().expect("snapshot taken");
    assert_eq!(table.materials.len(), MATERIAL_TABLE_CAPACITY);
    assert_eq!(table.materials[255].flags, 255);
    assert_eq!(table.materials[1].flags, 1);
}

#[test]
fn registry_lookup_by_id() {
    let mut registry = VoxelMaterialRegistry::new();
    registry.register(red_material());
    assert_eq!(registry.count(), 2);
    assert_eq!(registry.get_by_id(1), Some(red_material()));
    assert_eq!(registry.get_by_id(2), None);
}
