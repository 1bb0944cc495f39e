use voxel_pipeline::chunk::ChunkBuffer;
use voxel_pipeline::chunk::ChunkEntities;
use voxel_pipeline::chunk::ChunkKey;
use voxel_pipeline::chunk::ChunkMap;
use voxel_pipeline::chunk::ChunkShape;
use voxel_pipeline::chunk::DirtyChunks;
use voxel_pipeline::mesher::BufferPool;
use voxel_pipeline::mesher::ChunkMesh;
use voxel_pipeline::mesher::MeshBuffers;
use voxel_pipeline::mesher::mesh_buffer;
use voxel_pipeline::mesher::quad_corners;
use voxel_pipeline::mesher::Vertex;
use voxel_pipeline::meshing::MeshTasks;
use voxel_pipeline::meshing::MeshWorld;
use voxel_pipeline::meshing::VoxelWorldMeshingPlugin;
use voxel_pipeline::meshing::prepare_chunks;
use voxel_pipeline::meshing::process_mesh_tasks;
use voxel_pipeline::meshing::queue_mesh_tasks;
use voxel_pipeline::meshing::run_pending_mesh_tasks;

fn key(x: i32, y: i32, z: i32) -> ChunkKey {
    ChunkKey { x, y, z }
}

fn cube_buffer(dim: usize, side: usize, material: u8) -> ChunkBuffer {
    // A padded grid with a solid `side`-wide cube in its interior corner.
    let shape = ChunkShape { sx: dim, sy: dim, sz: dim };
    let mut buffer = ChunkBuffer::new_filled(shape, 0);
    for x in 1..=side {
        for y in 1..=side {
            for z in 1..=side {
                buffer.set_voxel(x, y, z, material);
            }
        }
    }
    buffer
}

#[test]
fn solid_cube_meshes_to_six_quads() {
    // A 3-voxel-wide solid cube in an otherwise empty padded grid must
    // yield exactly one merged quad per external face: 6 quads, 12
    // triangles, and no internal faces.
    let buffer = cube_buffer(5, 3, 7);
    let mut scratch = MeshBuffers::new();
    let mut mesh = ChunkMesh::new();
    mesh_buffer(&buffer, &mut scratch, &mut mesh);
    assert_eq!(mesh.quads.len(), 6);
    assert_eq!(mesh.triangle_count(), 12);
    for q in &mesh.quads {
        assert_eq!(q.w, 3);
        assert_eq!(q.h, 3);
        assert_eq!(q.u, 0);
        assert_eq!(q.v, 0);
        assert_eq!(q.material, 7);
    }
    // One quad per direction.
    let mut dirs: Vec<u8> = mesh.quads.iter().map(|q| q.dir).collect();
    dirs.sort();
    assert_eq!(dirs, vec![0, 1, 2, 3, 4, 5]);
}

#[test]
fn two_by_two_cube_merges_per_face() {
    let buffer = cube_buffer(4, 2, 1);
    let mut scratch = MeshBuffers::new();
    let mut mesh = ChunkMesh::new();
    mesh_buffer(&buffer, &mut scratch, &mut mesh);
    assert_eq!(mesh.quads.len(), 6);
    for q in &mesh.quads {
        assert_eq!((q.w, q.h), (2, 2));
    }
}

#[test]
fn empty_grid_meshes_to_nothing() {
    let buffer = ChunkBuffer::new_filled(ChunkShape { sx: 6, sy: 5, sz: 4 }, 0);
    let mut scratch = MeshBuffers::new();
    let mut mesh = ChunkMesh::new();
    mesh_buffer(&buffer, &mut scratch, &mut mesh);
    assert_eq!(mesh.quads.len(), 0);
    assert_eq!(mesh.triangle_count(), 0);
}

#[test]
fn single_voxel_shows_six_unit_faces() {
    let buffer = cube_buffer(3, 1, 9);
    let mut scratch = MeshBuffers::new();
    let mut mesh = ChunkMesh::new();
    mesh_buffer(&buffer, &mut scratch, &mut mesh);
    assert_eq!(mesh.quads.len(), 6);
    for q in &mesh.quads {
        assert_eq!((q.w, q.h), (1, 1));
    }
}

#[test]
fn differently_typed_neighbors_expose_their_shared_face() {
    // Two adjacent voxels of different materials: the face between them is
    // exposed from both sides, and no faces merge across materials.
    let shape = ChunkShape { sx: 5, sy: 4, sz: 4 };
    let mut buffer = ChunkBuffer::new_filled(shape, 0);
    buffer.set_voxel(1, 1, 1, 1);
    buffer.set_voxel(2, 1, 1, 2);
    let mut scratch = MeshBuffers::new();
    let mut mesh = ChunkMesh::new();
    mesh_buffer(&buffer, &mut scratch, &mut mesh);
    assert_eq!(mesh.quads.len(), 12);
    let mat1 = mesh.quads.iter().filter(|q| q.material == 1).count();
    let mat2 = mesh.quads.iter().filter(|q| q.material == 2).count();
    assert_eq!(mat1, 6);
    assert_eq!(mat2, 6);
}

#[test]
fn meshing_is_deterministic_across_runs_and_workers() {
    // Byte-identical output across repeated invocations, fresh or reused
    // scratch buffers, and different worker scratch slots.
    let shape = ChunkShape { sx: 8, sy: 7, sz: 6 };
    let mut buffer = ChunkBuffer::new_filled(shape, 0);
    let mut seed: u32 = 11;
    for x in 1..7 {
        for y in 1..6 {
            for z in 1..5 {
                seed = seed.wrapping_mul(1664525).wrapping_add(1013904223);
                buffer.set_voxel(x, y, z, (seed >> 24) as u8 % 3);
            }
        }
    }
    let mut scratch_a = MeshBuffers::new();
    let mut scratch_b = MeshBuffers::new();
    let mut mesh_a = ChunkMesh::new();
    let mut mesh_b = ChunkMesh::new();
    let mut mesh_c = ChunkMesh::new();
    mesh_buffer(&buffer, &mut scratch_a, &mut mesh_a);
    mesh_buffer(&buffer, &mut scratch_b, &mut mesh_b);
    // Reuse of a dirty scratch buffer must not change the output.
    mesh_buffer(&buffer, &mut scratch_a, &mut mesh_c);
    assert!(!mesh_a.quads.is_empty());
    assert_eq!(mesh_a.quads, mesh_b.quads);
    assert_eq!(mesh_a.quads, mesh_c.quads);
}

#[test]
fn skip_on_race_without_entity_or_buffer() {
    // A dirty key with no live entity, and one with an entity but no
    // resident buffer, spawn no task and change nothing.
    let mut world = MeshWorld::new();
    let mut entities = ChunkEntities::new();
    let mut tasks = MeshTasks::new();
    let mut dirty = DirtyChunks::new();
    let storage = ChunkMap::new();

    dirty.mark(key(0, 0, 0));
    // No entity at all for (0,0,0); an entity but no buffer for (1,0,0).
    prepare_chunks(&mut world, &mut entities, &vec![key(1, 0, 0)]);
    dirty.mark(key(1, 0, 0));

    queue_mesh_tasks(&mut world, &mut tasks, &dirty, &entities, &storage);
    assert_eq!(tasks.len(), 0);
    assert_eq!(world.len(), 1);
    assert!(!world.entities[0].visible);
    assert!(world.entities[0].pending.is_none());
}

#[test]
fn at_most_one_marker_even_when_double_scheduled() {
    let mut world = MeshWorld::new();
    let mut entities = ChunkEntities::new();
    let mut tasks = MeshTasks::new();
    let mut dirty = DirtyChunks::new();
    let mut storage = ChunkMap::new();

    let k = key(0, 0, 0);
    prepare_chunks(&mut world, &mut entities, &vec![k]);
    storage.store(k, cube_buffer(4, 2, 1));
    dirty.mark(k);

    queue_mesh_tasks(&mut world, &mut tasks, &dirty, &entities, &storage);
    assert_eq!(tasks.len(), 1);
    assert_eq!(world.entities[0].pending, Some(0));

    // A buggy collaborator leaving the key dirty re-schedules: the new task
    // replaces the marker, so still exactly one computation is attached.
    queue_mesh_tasks(&mut world, &mut tasks, &dirty, &entities, &storage);
    assert_eq!(tasks.len(), 2);
    assert_eq!(world.entities[0].pending, Some(1));
}

#[test]
fn polling_before_completion_changes_nothing() {
    let mut world = MeshWorld::new();
    let mut entities = ChunkEntities::new();
    let mut tasks = MeshTasks::new();
    let mut dirty = DirtyChunks::new();
    let mut storage = ChunkMap::new();

    let k = key(2, 0, -1);
    prepare_chunks(&mut world, &mut entities, &vec![k]);
    storage.store(k, cube_buffer(5, 3, 4));
    dirty.mark(k);
    queue_mesh_tasks(&mut world, &mut tasks, &dirty, &entities, &storage);

    // Not yet complete: the entity stays invisible and keeps its marker.
    process_mesh_tasks(&mut world, &tasks);
    assert!(!world.entities[0].visible);
    assert_eq!(world.entities[0].pending, Some(0));
}

#[test]
fn dirty_then_scheduled_chunk_becomes_visible_with_meshed_geometry() {
    let mut world = MeshWorld::new();
    let mut entities = ChunkEntities::new();
    let mut tasks = MeshTasks::new();
    let mut dirty = DirtyChunks::new();
    let mut storage = ChunkMap::new();
    let mut pool = BufferPool::new(2);

    let k = key(2, 0, -1);
    let buffer = cube_buffer(5, 3, 4);
    prepare_chunks(&mut world, &mut entities, &vec![k]);
    storage.store(k, buffer.clone());
    dirty.mark(k);

    queue_mesh_tasks(&mut world, &mut tasks, &dirty, &entities, &storage);
    run_pending_mesh_tasks(&mut tasks, &mut pool, 1);
    process_mesh_tasks(&mut world, &tasks);

    assert!(world.entities[0].visible);
    assert!(world.entities[0].pending.is_none());

    let mut scratch = MeshBuffers::new();
    let mut expected = ChunkMesh::new();
    mesh_buffer(&buffer, &mut scratch, &mut expected);
    assert_eq!(world.entities[0].mesh.quads, expected.quads);
    assert_eq!(expected.quads.len(), 6);
}

#[test]
fn frame_driver_runs_queue_then_process() {
    let plugin = VoxelWorldMeshingPlugin;
    let mut world = MeshWorld::new();
    let mut entities = ChunkEntities::new();
    let mut tasks = MeshTasks::new();
    let mut dirty = DirtyChunks::new();
    let mut storage = ChunkMap::new();
    let mut pool = BufferPool::new(1);

    let k = key(0, 1, 0);
    prepare_chunks(&mut world, &mut entities, &vec![k]);
    storage.store(k, cube_buffer(4, 2, 3));
    dirty.mark(k);

    // Frame 1: schedules, polls (nothing complete yet).
    plugin.run_frame(&mut world, &mut tasks, &dirty, &entities, &storage);
    assert!(!world.entities[0].visible);
    assert_eq!(world.entities[0].pending, Some(0));

    // Workers drain the queue between frames; frame 2 integrates. The
    // still-dirty key re-schedules first, so the marker moves on.
    run_pending_mesh_tasks(&mut tasks, &mut pool, 0);
    let cleared = DirtyChunks::new();
    plugin.run_frame(&mut world, &mut tasks, &cleared, &entities, &storage);
    assert!(world.entities[0].visible);
    assert!(world.entities[0].pending.is_none());
    assert_eq!(world.entities[0].mesh.quads.len(), 6);
}

#[test]
fn quad_corners_follow_the_face_plane_and_scale() {
    // The single quad of the cube's negative-x face: its plane sits at the
    // near side of layer 1, and corners span the merged 3-by-3 extent.
    let buffer = cube_buffer(5, 3, 7);
    let mut scratch = MeshBuffers::new();
    let mut mesh = ChunkMesh::new();
    mesh_buffer(&buffer, &mut scratch, &mut mesh);
    let q = *mesh.quads.iter().find(|q| q.dir == 0).expect("negative-x face");
    let corners = quad_corners(&q, 2);
    assert_eq!(
        corners,
        vec![
            Vertex { x: 2, y: 2, z: 2 },
            Vertex { x: 2, y: 8, z: 2 },
            Vertex { x: 2, y: 8, z: 8 },
            Vertex { x: 2, y: 2, z: 8 },
        ]
    );
    // The positive-x face plane sits at the far side of layer 3.
    let qp = *mesh.quads.iter().find(|q| q.dir == 1).expect("positive-x face");
    let corners_p = quad_corners(&qp, 1);
    assert!(corners_p.iter().all(|v| v.x == 4));
}

#[test]
fn unloading_between_marking_and_scheduling_is_skipped() {
    // The expected race of the dirty cycle: a chunk is marked dirty, then
    // unloaded before the scheduling pass runs. The pass skips it without
    // error and later cycles are unaffected.
    let mut world = MeshWorld::new();
    let mut entities = ChunkEntities::new();
    let mut tasks = MeshTasks::new();
    let mut dirty = DirtyChunks::new();
    let mut storage = ChunkMap::new();

    let ka = key(0, 0, 0);
    let kb = key(1, 0, 0);
    prepare_chunks(&mut world, &mut entities, &vec![ka, kb]);
    storage.store(ka, cube_buffer(4, 2, 1));
    storage.store(kb, cube_buffer(4, 2, 2));
    dirty.mark(ka);
    dirty.mark(kb);

    // Chunk A is unloaded before scheduling: lookup and storage both drop it.
    assert_eq!(entities.detach(ka), Some(0));
    storage.remove(ka);

    queue_mesh_tasks(&mut world, &mut tasks, &dirty, &entities, &storage);
    // A second detach finds nothing, harmlessly.
    assert_eq!(entities.detach(ka), None);
    // Only chunk B got a task; chunk A's entry is untouched.
    assert_eq!(tasks.len(), 1);
    assert!(world.entities[0].pending.is_none());
    assert_eq!(world.entities[1].pending, Some(0));
}

#[test]
fn dirty_set_deduplicates_marks() {
    let mut dirty = DirtyChunks::new();
    dirty.mark(key(1, 2, 3));
    dirty.mark(key(1, 2, 3));
    dirty.mark(key(4, 5, 6));
    assert_eq!(dirty.num_dirty(), 2);
    dirty.clear();
    assert_eq!(dirty.num_dirty(), 0);
}

#[test]
fn command_queue_collects_and_drains_unload_requests() {
    let mut queue = voxel_pipeline::chunk::ChunkCommandQueue::new();
    queue.queue_unload(&vec![key(0, 0, 0), key(1, 0, 0)]);
    queue.queue_unload(&vec![key(2, 0, 0)]);
    let drained = queue.drain();
    assert_eq!(drained, vec![key(0, 0, 0), key(1, 0, 0), key(2, 0, 0)]);
    assert_eq!(queue.drain(), vec![]);
}
