use vstd::prelude::*;

verus! {

/// Number of slots in the fixed-capacity GPU material table.
pub const MATERIAL_TABLE_CAPACITY: usize = 256;

/// IEEE-754 single-precision bit pattern of one (the caller supplies color
/// channels as raw bit patterns; the pipeline never interprets them).
pub const ONE_BITS: u32 = 0x3F80_0000;

/// Raw 32-bit channel values of an RGBA color, exactly as uploaded.
#[derive(Clone, Copy, PartialEq, Eq, Structural, Debug)]
pub struct Rgba {
    pub r: u32,
    pub g: u32,
    pub b: u32,
    pub a: u32,
}

/// Opaque white, the sentinel color of unpopulated material slots.
pub open spec fn spec_white() -> Rgba {
    Rgba { r: ONE_BITS, g: ONE_BITS, b: ONE_BITS, a: ONE_BITS }
}

/// All-zero color (black, fully transparent).
pub open spec fn spec_black() -> Rgba {
    Rgba { r: 0, g: 0, b: 0, a: 0 }
}

/// One material record of the GPU-resident table. Scalar channels hold raw
/// single-precision bit patterns supplied by the caller.
#[derive(Clone, Copy, PartialEq, Eq, Structural, Debug)]
pub struct GpuVoxelMaterial {
    pub base_color: Rgba,
    pub flags: u32,
    pub emissive: Rgba,
    pub perceptual_roughness: u32,
    pub metallic: u32,
    pub reflectance: u32,
}

/// The default material filling unpopulated table slots: opaque white, no
/// flags, zero emissive and zero scalar parameters.
pub open spec fn spec_default_material() -> GpuVoxelMaterial {
    GpuVoxelMaterial {
        base_color: spec_white(),
        flags: 0,
        emissive: spec_black(),
        perceptual_roughness: 0,
        metallic: 0,
        reflectance: 0,
    }
}

/// The default-material sentinel, as an executable value.
pub fn default_voxel_material() -> (r: GpuVoxelMaterial)
    ensures
        r == spec_default_material(),
{
    GpuVoxelMaterial {
        base_color: Rgba { r: ONE_BITS, g: ONE_BITS, b: ONE_BITS, a: ONE_BITS },
        flags: 0,
        emissive: Rgba { r: 0, g: 0, b: 0, a: 0 },
        perceptual_roughness: 0,
        metallic: 0,
        reflectance: 0,
    }
}

/// CPU-side material registry, externally owned and edited. The generation
/// counter is bumped on every edit; the uniform pipeline compares it against
/// the last generation it observed instead of relying on implicit dirty
/// bits.
pub struct VoxelMaterialRegistry {
    pub materials: Vec<GpuVoxelMaterial>,
    pub generation: u64,
}

impl VoxelMaterialRegistry {
    pub open spec fn wf(self) -> bool {
        1 <= self.materials@.len() <= MATERIAL_TABLE_CAPACITY
    }

    /// A fresh registry holding only the reserved slot 0 default material.
    pub fn new() -> (r: Self)
        ensures
            r.wf(),
            r.materials@.len() == 1,
            r.materials@[0] == spec_default_material(),
            r.generation == 0,
    {
        let mut materials: Vec<GpuVoxelMaterial> = Vec::new();
        materials.push(default_voxel_material());
        VoxelMaterialRegistry { materials, generation: 0 }
    }

    pub fn count(&self) -> (n: usize)
        ensures
            n == self.materials@.len(),
    {
        self.materials.len()
    }

    /// Registers a new material, returning its id.
    pub fn register(&mut self, m: GpuVoxelMaterial) -> (id: usize)
        requires
            old(self).wf(),
            old(self).materials@.len() < MATERIAL_TABLE_CAPACITY,
            old(self).generation < u64::MAX,
        ensures
            final(self).wf(),
            id == old(self).materials@.len(),
            final(self).materials@ == old(self).materials@.push(m),
            final(self).generation == old(self).generation + 1,
    {
        let id = self.materials.len();
        self.materials.push(m);
        self.generation = self.generation + 1;
        id
    }

    /// The material registered under `id`, if any.
    pub fn get_by_id(&self, id: u8) -> (r: Option<GpuVoxelMaterial>)
        ensures
            (id as int) < self.materials@.len() <==> r is Some,
            r is Some ==> r->0 == self.materials@[id as int],
    {
        if (id as usize) < self.materials.len() {
            Some(self.materials[id as usize])
        } else {
            None
        }
    }

    /// Overwrites the material registered under `id` (the material editor
    /// path) and bumps the generation.
    pub fn update(&mut self, id: u8, m: GpuVoxelMaterial)
        requires
            old(self).wf(),
            (id as int) < old(self).materials@.len(),
            old(self).generation < u64::MAX,
        ensures
            final(self).wf(),
            final(self).materials@ == old(self).materials@.update(id as int, m),
            final(self).generation == old(self).generation + 1,
    {
        self.materials[id as usize] = m;
        self.generation = self.generation + 1;
    }
}

/// The render-distance setting (horizontal chunk radius) mirrored to the
/// GPU, with its own generation counter.
pub struct ChunkLoadRadius {
    pub horizontal: u32,
    pub generation: u64,
}

impl ChunkLoadRadius {
    pub fn new(horizontal: u32) -> (r: Self)
        ensures
            r.horizontal == horizontal,
            r.generation == 0,
    {
        ChunkLoadRadius { horizontal, generation: 0 }
    }

    pub fn set_horizontal(&mut self, horizontal: u32)
        requires
            old(self).generation < u64::MAX,
        ensures
            final(self).horizontal == horizontal,
            final(self).generation == old(self).generation + 1,
    {
        self.horizontal = horizontal;
        self.generation = self.generation + 1;
    }
}

/// The extracted CPU snapshot of the material table, sized to the full
/// fixed capacity with unpopulated slots at the default sentinel.
pub struct GpuTerrainMaterials {
    pub materials: Vec<GpuVoxelMaterial>,
}

impl View for GpuTerrainMaterials {
    type V = Seq<GpuVoxelMaterial>;

    open spec fn view(&self) -> Seq<GpuVoxelMaterial> {
        self.materials@
    }
}

impl Clone for GpuTerrainMaterials {
    fn clone(&self) -> (r: Self)
        ensures
            r@ == self@,
    {
        let materials = self.materials.clone();
        proof {
            assert(materials@ =~= self.materials@);
        }
        GpuTerrainMaterials { materials }
    }
}

impl Default for GpuTerrainMaterials {
    /// A table of the full fixed capacity, every slot at the default
    /// sentinel.
    fn default() -> (r: Self)
        ensures
            r@ == extracted_table(Seq::empty()),
    {
        let mut materials: Vec<GpuVoxelMaterial> = Vec::new();
        let mut i: usize = 0;
        while i < MATERIAL_TABLE_CAPACITY
            invariant
                i <= MATERIAL_TABLE_CAPACITY,
                materials@.len() == i,
                forall|j: int| 0 <= j < i ==> materials@[j] == spec_default_material(),
            decreases MATERIAL_TABLE_CAPACITY - i,
        {
            materials.push(default_voxel_material());
            i = i + 1;
        }
        proof {
            assert(materials@ =~= extracted_table(Seq::empty()));
        }
        GpuTerrainMaterials { materials }
    }
}

/// What extraction populates the fixed-capacity table with: the registry's
/// records in order, the default sentinel beyond them.
pub open spec fn extracted_table(regs: Seq<GpuVoxelMaterial>) -> Seq<GpuVoxelMaterial> {
    Seq::new(
        MATERIAL_TABLE_CAPACITY as nat,
        |i: int|
            if i < regs.len() {
                regs[i]
            } else {
                spec_default_material()
            },
    )
}

/// The GPU-side handle combining the two storage buffers into one bindable
/// unit, consumed at draw time at a fixed bind-group slot.
#[derive(Clone, Copy, PartialEq, Eq, Structural, Debug)]
pub struct BindGroupModel {
    pub layout: u64,
    pub materials_buffer: u64,
    pub distance_buffer: u64,
}

/// The GPU device boundary: hands out fresh buffer and layout identities.
pub struct RenderDevice {
    pub next_id: u64,
}

impl RenderDevice {
    pub fn new() -> (r: Self)
        ensures
            r.next_id == 0,
    {
        RenderDevice { next_id: 0 }
    }

    /// Allocates one GPU-side object and returns its identity.
    pub fn create_id(&mut self) -> (id: u64)
        requires
            old(self).next_id < u64::MAX,
        ensures
            id == old(self).next_id,
            final(self).next_id == old(self).next_id + 1,
    {
        let id = self.next_id;
        self.next_id = self.next_id + 1;
        id
    }
}

/// The GPU transfer queue boundary; its counter makes uploads observable.
pub struct RenderQueue {
    pub upload_count: u64,
}

impl RenderQueue {
    pub fn new() -> (r: Self)
        ensures
            r.upload_count == 0,
    {
        RenderQueue { upload_count: 0 }
    }

    /// Schedules one buffer transfer.
    pub fn record_upload(&mut self)
        requires
            old(self).upload_count < u64::MAX,
        ensures
            final(self).upload_count == old(self).upload_count + 1,
    {
        self.upload_count = self.upload_count + 1;
    }
}

/// Buffer references, mirrored contents, change tracking and the bind group
/// for the terrain-rendering uniforms.
pub struct TerrainUniforms {
    pub bind_group_layout: u64,
    pub materials_buffer: Option<u64>,
    pub materials_gpu: GpuTerrainMaterials,
    pub distance_buffer: Option<u64>,
    pub distance_gpu: u32,
    pub bind_group: Option<BindGroupModel>,
    pub extracted_materials: Option<GpuTerrainMaterials>,
    pub extracted_distance: Option<u32>,
    pub last_materials_generation: Option<u64>,
    pub last_distance_generation: Option<u64>,
}

impl TerrainUniforms {
    /// No snapshot is pending between frames.
    pub open spec fn clean(self) -> bool {
        &&& self.extracted_materials is None
        &&& self.extracted_distance is None
    }

    /// Builds the uniform state from the render device: the bind group
    /// layout exists from the start, the storage buffers and the bind group
    /// do not until the first prepare pass.
    pub fn from_world(device: &mut RenderDevice) -> (r: Self)
        requires
            old(device).next_id < u64::MAX,
        ensures
            final(device).next_id == old(device).next_id + 1,
            r.bind_group_layout == old(device).next_id,
            r.materials_buffer is None,
            r.distance_buffer is None,
            r.bind_group is None,
            r.clean(),
            r.last_materials_generation is None,
            r.last_distance_generation is None,
            r.materials_gpu@.len() == 0,
            r.distance_gpu == 0,
    {
        let layout = device.create_id();
        TerrainUniforms {
            bind_group_layout: layout,
            materials_buffer: None,
            materials_gpu: GpuTerrainMaterials { materials: Vec::new() },
            distance_buffer: None,
            distance_gpu: 0,
            bind_group: None,
            extracted_materials: None,
            extracted_distance: None,
            last_materials_generation: None,
            last_distance_generation: None,
        }
    }
}

/// Extract phase for the material table: snapshots the registry into the
/// fixed-capacity table, gated by the generation counter; unchanged
/// registries cause no work at all.
pub fn extract_voxel_materials(uniforms: &mut TerrainUniforms, materials: &VoxelMaterialRegistry)
    requires
        materials.wf(),
    ensures
        (match old(uniforms).last_materials_generation {
            Some(g) => g == materials.generation,
            None => false,
        }) ==> *final(uniforms) == *old(uniforms),
        !(match old(uniforms).last_materials_generation {
            Some(g) => g == materials.generation,
            None => false,
        }) ==> {
            &&& final(uniforms).extracted_materials matches Some(t) && t@ == extracted_table(
                materials.materials@,
            )
            &&& final(uniforms).last_materials_generation == Some(materials.generation)
            &&& final(uniforms).bind_group_layout == old(uniforms).bind_group_layout
            &&& final(uniforms).materials_buffer == old(uniforms).materials_buffer
            &&& final(uniforms).materials_gpu@ == old(uniforms).materials_gpu@
            &&& final(uniforms).distance_buffer == old(uniforms).distance_buffer
            &&& final(uniforms).distance_gpu == old(uniforms).distance_gpu
            &&& final(uniforms).bind_group == old(uniforms).bind_group
            &&& final(uniforms).extracted_distance == old(uniforms).extracted_distance
            &&& final(uniforms).last_distance_generation == old(
                uniforms,
            ).last_distance_generation
        },
{
    let changed = match uniforms.last_materials_generation {
        None => true,
        Some(g) => g != materials.generation,
    };
    if changed {
        let mut table: Vec<GpuVoxelMaterial> = GpuTerrainMaterials::default().materials;
        proof {
            assert(forall|j: int|
                0 <= j < MATERIAL_TABLE_CAPACITY ==> table@[j] == spec_default_material());
        }
        let n = materials.materials.len();
        let mut j: usize = 0;
        while j < n
            invariant
                j <= n,
                n == materials.materials@.len(),
                n <= MATERIAL_TABLE_CAPACITY,
                table@.len() == MATERIAL_TABLE_CAPACITY,
                forall|jj: int| 0 <= jj < j ==> table@[jj] == materials.materials@[jj],
                forall|jj: int|
                    j <= jj < MATERIAL_TABLE_CAPACITY ==> table@[jj] == spec_default_material(),
            decreases n - j,
        {
            table[j] = materials.materials[j];
            j = j + 1;
        }
        proof {
            assert(table@ =~= extracted_table(materials.materials@));
        }
        uniforms.extracted_materials = Some(GpuTerrainMaterials { materials: table });
        uniforms.last_materials_generation = Some(materials.generation);
    }
}

/// Extract phase for the render-distance scalar, gated the same way.
pub fn extract_terrain_render_settings_uniform(
    uniforms: &mut TerrainUniforms,
    render_distance: &ChunkLoadRadius,
)
    ensures
        (match old(uniforms).last_distance_generation {
            Some(g) => g == render_distance.generation,
            None => false,
        }) ==> *final(uniforms) == *old(uniforms),
        !(match old(uniforms).last_distance_generation {
            Some(g) => g == render_distance.generation,
            None => false,
        }) ==> {
            &&& final(uniforms).extracted_distance == Some(render_distance.horizontal)
            &&& final(uniforms).last_distance_generation == Some(render_distance.generation)
            &&& final(uniforms).bind_group_layout == old(uniforms).bind_group_layout
            &&& final(uniforms).materials_buffer == old(uniforms).materials_buffer
            &&& final(uniforms).materials_gpu@ == old(uniforms).materials_gpu@
            &&& final(uniforms).distance_buffer == old(uniforms).distance_buffer
            &&& final(uniforms).distance_gpu == old(uniforms).distance_gpu
            &&& final(uniforms).bind_group == old(uniforms).bind_group
            &&& final(uniforms).extracted_materials == old(uniforms).extracted_materials
            &&& final(uniforms).last_materials_generation == old(
                uniforms,
            ).last_materials_generation
        },
{
    let changed = match uniforms.last_distance_generation {
        None => true,
        Some(g) => g != render_distance.generation,
    };
    if changed {
        uniforms.extracted_distance = Some(render_distance.horizontal);
        uniforms.last_distance_generation = Some(render_distance.generation);
    }
}

/// Prepare phase: allocates the two storage buffers if they are not yet
/// backed by GPU memory (their identity is then stable), and rebuilds the
/// bind group on every pass, since buffer identity may have changed.
pub fn prepare_terrain_uniforms(uniforms: &mut TerrainUniforms, device: &mut RenderDevice)
    requires
        old(device).next_id + 2 <= u64::MAX,
    ensures
        final(uniforms).materials_buffer is Some,
        final(uniforms).distance_buffer is Some,
        old(uniforms).materials_buffer is Some ==> final(uniforms).materials_buffer == old(
            uniforms,
        ).materials_buffer,
        old(uniforms).distance_buffer is Some ==> final(uniforms).distance_buffer == old(
            uniforms,
        ).distance_buffer,
        final(uniforms).bind_group == Some(
            BindGroupModel {
                layout: old(uniforms).bind_group_layout,
                materials_buffer: final(uniforms).materials_buffer->0,
                distance_buffer: final(uniforms).distance_buffer->0,
            },
        ),
        final(uniforms).bind_group_layout == old(uniforms).bind_group_layout,
        final(uniforms).materials_gpu@ == old(uniforms).materials_gpu@,
        final(uniforms).distance_gpu == old(uniforms).distance_gpu,
        final(uniforms).extracted_materials == old(uniforms).extracted_materials,
        final(uniforms).extracted_distance == old(uniforms).extracted_distance,
        final(uniforms).last_materials_generation == old(uniforms).last_materials_generation,
        final(uniforms).last_distance_generation == old(uniforms).last_distance_generation,
        final(device).next_id <= old(device).next_id + 2,
{
    if uniforms.materials_buffer.is_none() {
        let id = device.create_id();
        uniforms.materials_buffer = Some(id);
    }
    if uniforms.distance_buffer.is_none() {
        let id = device.create_id();
        uniforms.distance_buffer = Some(id);
    }
    let mb = match uniforms.materials_buffer {
        Some(id) => id,
        None => 0,
    };
    let db = match uniforms.distance_buffer {
        Some(id) => id,
        None => 0,
    };
    uniforms.bind_group = Some(
        BindGroupModel {
            layout: uniforms.bind_group_layout,
            materials_buffer: mb,
            distance_buffer: db,
        },
    );
}

/// Upload phase for the material table: copies the pending snapshot, if
/// any, into the GPU-resident buffer and schedules the transfer; without a
/// pending snapshot no GPU work happens.
pub fn upload_voxel_materials(uniforms: &mut TerrainUniforms, queue: &mut RenderQueue)
    requires
        old(uniforms).materials_buffer is Some,
        old(queue).upload_count < u64::MAX,
    ensures
        old(uniforms).extracted_materials is None ==> *final(uniforms) == *old(uniforms)
            && final(queue).upload_count == old(queue).upload_count,
        old(uniforms).extracted_materials matches Some(t) ==> {
            &&& final(uniforms).materials_gpu@ == t@
            &&& final(uniforms).extracted_materials is None
            &&& final(queue).upload_count == old(queue).upload_count + 1
            &&& final(uniforms).bind_group_layout == old(uniforms).bind_group_layout
            &&& final(uniforms).materials_buffer == old(uniforms).materials_buffer
            &&& final(uniforms).distance_buffer == old(uniforms).distance_buffer
            &&& final(uniforms).distance_gpu == old(uniforms).distance_gpu
            &&& final(uniforms).bind_group == old(uniforms).bind_group
            &&& final(uniforms).extracted_distance == old(uniforms).extracted_distance
            &&& final(uniforms).last_materials_generation == old(
                uniforms,
            ).last_materials_generation
            &&& final(uniforms).last_distance_generation == old(
                uniforms,
            ).last_distance_generation
        },
{
    let pending = uniforms.extracted_materials.take();
    match pending {
        None => {},
        Some(t) => {
            uniforms.materials_gpu = t;
            queue.record_upload();
        },
    }
}

/// Upload phase for the render-distance scalar, independent of the material
/// table so one changing does not force re-uploading the other.
pub fn upload_render_distance_uniform(uniforms: &mut TerrainUniforms, queue: &mut RenderQueue)
    requires
        old(uniforms).distance_buffer is Some,
        old(queue).upload_count < u64::MAX,
    ensures
        old(uniforms).extracted_distance is None ==> *final(uniforms) == *old(uniforms)
            && final(queue).upload_count == old(queue).upload_count,
        old(uniforms).extracted_distance matches Some(d) ==> {
            &&& final(uniforms).distance_gpu == d
            &&& final(uniforms).extracted_distance is None
            &&& final(queue).upload_count == old(queue).upload_count + 1
            &&& final(uniforms).bind_group_layout == old(uniforms).bind_group_layout
            &&& final(uniforms).materials_buffer == old(uniforms).materials_buffer
            &&& final(uniforms).materials_gpu@ == old(uniforms).materials_gpu@
            &&& final(uniforms).distance_buffer == old(uniforms).distance_buffer
            &&& final(uniforms).bind_group == old(uniforms).bind_group
            &&& final(uniforms).extracted_materials == old(uniforms).extracted_materials
            &&& final(uniforms).last_materials_generation == old(
                uniforms,
            ).last_materials_generation
            &&& final(uniforms).last_distance_generation == old(
                uniforms,
            ).last_distance_generation
        },
{
    let pending = uniforms.extracted_distance.take();
    match pending {
        None => {},
        Some(d) => {
            uniforms.distance_gpu = d;
            queue.record_upload();
        },
    }
}

/// Binds the terrain uniforms for use in shaders: the draw-time render
/// command consuming the bind group at its fixed slot. Issuing it before
/// the bind group has been built at least once is a precondition violation,
/// excluded by contract.
pub struct SetTerrainUniformsBindGroup {
    pub slot: u32,
}

impl SetTerrainUniformsBindGroup {
    /// The bind command for one terrain draw call: which bind group to set
    /// at which slot.
    pub fn render(&self, uniforms: &TerrainUniforms) -> (r: (u32, BindGroupModel))
        requires
            uniforms.bind_group is Some,
        ensures
            r.0 == self.slot,
            r.1 == uniforms.bind_group->0,
    {
        let bg = match &uniforms.bind_group {
            Some(bg) => *bg,
            None => BindGroupModel { layout: 0, materials_buffer: 0, distance_buffer: 0 },
        };
        (self.slot, bg)
    }
}

/// Whether the registry generation differed from the last one the uniforms
/// observed, so this frame re-extracts and re-uploads the material table.
pub open spec fn materials_outdated(u0: TerrainUniforms, materials: &VoxelMaterialRegistry) -> bool {
    match u0.last_materials_generation {
        Some(g) => g != materials.generation,
        None => true,
    }
}

/// The same change test for the render-distance setting.
pub open spec fn distance_outdated(u0: TerrainUniforms, radius: &ChunkLoadRadius) -> bool {
    match u0.last_distance_generation {
        Some(g) => g != radius.generation,
        None => true,
    }
}

/// What one whole uniform frame (Extract, Prepare, Upload, in that order)
/// guarantees, relating the pre and post uniform state and the upload
/// counter to the observed registry and setting.
pub open spec fn uniforms_frame_post(
    u0: TerrainUniforms,
    q0: u64,
    u1: TerrainUniforms,
    q1: u64,
    materials: &VoxelMaterialRegistry,
    radius: &ChunkLoadRadius,
) -> bool {
    &&& u1.last_materials_generation == Some(materials.generation)
    &&& u1.last_distance_generation == Some(radius.generation)
    &&& u1.materials_gpu@ == if materials_outdated(u0, materials) {
        extracted_table(materials.materials@)
    } else {
        u0.materials_gpu@
    }
    &&& u1.distance_gpu == if distance_outdated(u0, radius) {
        radius.horizontal
    } else {
        u0.distance_gpu
    }
    &&& q1 == q0 + (if materials_outdated(u0, materials) {
        1int
    } else {
        0int
    }) + (if distance_outdated(u0, radius) {
        1int
    } else {
        0int
    })
    &&& u1.clean()
    &&& u1.bind_group_layout == u0.bind_group_layout
    &&& u1.materials_buffer is Some
    &&& u1.distance_buffer is Some
    &&& u0.materials_buffer is Some ==> u1.materials_buffer == u0.materials_buffer
    &&& u0.distance_buffer is Some ==> u1.distance_buffer == u0.distance_buffer
    &&& u1.bind_group == Some(
        BindGroupModel {
            layout: u0.bind_group_layout,
            materials_buffer: u1.materials_buffer->0,
            distance_buffer: u1.distance_buffer->0,
        },
    )
}

/// Handles the management of uniforms and bind groups for rendering
/// terrain: drives the fixed per-frame phase order Extract, then Prepare,
/// then the two independent Uploads, by direct sequencing.
pub struct VoxelTerrainUniformsPlugin;

impl VoxelTerrainUniformsPlugin {
    pub fn run_render_frame(
        &self,
        uniforms: &mut TerrainUniforms,
        device: &mut RenderDevice,
        queue: &mut RenderQueue,
        materials: &VoxelMaterialRegistry,
        radius: &ChunkLoadRadius,
    )
        requires
            materials.wf(),
            old(uniforms).clean(),
            old(device).next_id + 2 <= u64::MAX,
            old(queue).upload_count + 2 <= u64::MAX,
        ensures
            final(uniforms).clean(),
            uniforms_frame_post(
                *old(uniforms),
                old(queue).upload_count,
                *final(uniforms),
                final(queue).upload_count,
                materials,
                radius,
            ),
    {
        extract_voxel_materials(uniforms, materials);
        extract_terrain_render_settings_uniform(uniforms, radius);
        prepare_terrain_uniforms(uniforms, device);
        upload_voxel_materials(uniforms, queue);
        upload_render_distance_uniform(uniforms, queue);
    }
}

/// Idempotent re-upload avoidance: when neither the material registry nor
/// the render-distance setting changed between two frames, the second frame
/// schedules no GPU transfer at all and the GPU-resident contents stay as
/// they were.
pub proof fn lemma_no_reupload(
    u0: TerrainUniforms,
    q0: u64,
    u1: TerrainUniforms,
    q1: u64,
    u2: TerrainUniforms,
    q2: u64,
    materials: &VoxelMaterialRegistry,
    radius: &ChunkLoadRadius,
)
    requires
        uniforms_frame_post(u0, q0, u1, q1, materials, radius),
        uniforms_frame_post(u1, q1, u2, q2, materials, radius),
    ensures
        q2 == q1,
        u2.materials_gpu@ == u1.materials_gpu@,
        u2.distance_gpu == u1.distance_gpu,
        u2.bind_group == u1.bind_group,
{
    assert(!materials_outdated(u1, materials));
    assert(!distance_outdated(u1, radius));
}

} // verus!
