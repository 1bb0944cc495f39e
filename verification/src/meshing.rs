use vstd::prelude::*;

use crate::chunk::ChunkBuffer;
use crate::chunk::ChunkEntities;
use crate::chunk::ChunkKey;
use crate::chunk::ChunkMap;
use crate::chunk::DirtyChunks;
use crate::chunk::GridView;
use crate::chunk::find_entity;
use crate::chunk::lemma_find_entity_witness;
use crate::mesher::BufferPool;
use crate::mesher::ChunkMesh;
use crate::mesher::Quad;
use crate::mesher::mesh_buffer;
use crate::mesher::mesh_spec;

verus! {

/// Spec-level render state of one chunk entity.
pub struct EntryView {
    pub key: ChunkKey,
    pub visible: bool,
    pub mesh: Seq<Quad>,
    pub pending: Option<int>,
}

/// Render-side state attached to a chunk's scene entity: its geometry
/// content, its visibility flag, and the in-flight meshing marker. At most
/// one meshing computation is ever attached, by construction of the single
/// `pending` slot.
pub struct ChunkEntry {
    pub key: ChunkKey,
    pub visible: bool,
    pub mesh: ChunkMesh,
    pub pending: Option<usize>,
}

impl View for ChunkEntry {
    type V = EntryView;

    open spec fn view(&self) -> EntryView {
        EntryView {
            key: self.key,
            visible: self.visible,
            mesh: self.mesh@,
            pending: match self.pending {
                Some(t) => Some(t as int),
                None => None,
            },
        }
    }
}

/// The scene-graph slice the meshing pipeline owns: one entry per chunk
/// entity, addressed by entity id.
pub struct MeshWorld {
    pub entities: Vec<ChunkEntry>,
}

impl View for MeshWorld {
    type V = Seq<EntryView>;

    open spec fn view(&self) -> Seq<EntryView> {
        self.entities@.map(|i: int, e: ChunkEntry| e@)
    }
}

impl MeshWorld {
    pub fn new() -> (r: Self)
        ensures
            r@.len() == 0,
    {
        MeshWorld { entities: Vec::new() }
    }

    pub fn len(&self) -> (n: usize)
        ensures
            n == self@.len(),
    {
        self.entities.len()
    }
}

/// Spec-level state of one spawned meshing unit of work.
pub struct TaskView {
    pub entity: int,
    pub buffer: GridView,
    pub result: Option<Seq<Quad>>,
}

/// One asynchronous meshing unit of work: the target entity, the cloned
/// shared buffer handle it reads, and the completed geometry once a worker
/// has run it.
pub struct ChunkMeshingTask {
    pub entity: usize,
    pub buffer: ChunkBuffer,
    pub result: Option<ChunkMesh>,
}

impl View for ChunkMeshingTask {
    type V = TaskView;

    open spec fn view(&self) -> TaskView {
        TaskView {
            entity: self.entity as int,
            buffer: self.buffer@,
            result: match self.result {
                Some(ref m) => Some(m@),
                None => None,
            },
        }
    }
}

/// The outstanding units of work handed to the worker pool.
pub struct MeshTasks {
    pub tasks: Vec<ChunkMeshingTask>,
}

impl View for MeshTasks {
    type V = Seq<TaskView>;

    open spec fn view(&self) -> Seq<TaskView> {
        self.tasks@.map(|i: int, t: ChunkMeshingTask| t@)
    }
}

impl MeshTasks {
    pub fn new() -> (r: Self)
        ensures
            r@.len() == 0,
    {
        MeshTasks { tasks: Vec::new() }
    }

    pub fn len(&self) -> (n: usize)
        ensures
            n == self@.len(),
    {
        self.tasks.len()
    }
}

/// Correctness of stored task state: every task holds a well-formed buffer,
/// and every completed result is exactly the meshing output of its buffer.
pub open spec fn tasks_results_wf(t: Seq<TaskView>) -> bool {
    &&& forall|i: int| 0 <= i < t.len() ==> (#[trigger] t[i]).buffer.wf()
    &&& forall|i: int|
        0 <= i < t.len() && (#[trigger] t[i]).result is Some ==> t[i].result->0 == mesh_spec(
            t[i].buffer,
        )
}

/// Well-formedness tying the scene entries and the task queue together:
/// every attached marker names a live task that targets its entity, every
/// task targets a live entity, and the stored task state is correct.
pub open spec fn world_tasks_wf(w: Seq<EntryView>, t: Seq<TaskView>) -> bool {
    &&& forall|e: int|
        0 <= e < w.len() && (#[trigger] w[e]).pending is Some ==> 0 <= w[e].pending->0 < t.len()
            && t[w[e].pending->0].entity == e
    &&& forall|i: int| 0 <= i < t.len() ==> 0 <= (#[trigger] t[i]).entity < w.len()
    &&& tasks_results_wf(t)
}

/// Number of outstanding meshing computations attached to entity `e`.
pub open spec fn inflight_count(w: Seq<EntryView>, e: int) -> nat {
    if 0 <= e < w.len() && w[e].pending is Some {
        1nat
    } else {
        0nat
    }
}

/// At-most-one in-flight: at any frame boundary, at most one outstanding
/// meshing computation is attached to any chunk entity. The per-entity
/// marker is a single slot, so this holds of every reachable state.
pub proof fn lemma_at_most_one_in_flight(w: Seq<EntryView>, e: int)
    ensures
        inflight_count(w, e) <= 1,
{
}

/// Whether a dirty key resolves, at scheduling time, to both a live scene
/// entity and a resident voxel buffer. A key failing this is an expected
/// race (chunk unloaded between marking and scheduling) and is skipped.
pub open spec fn resolvable(k: ChunkKey, ents: ChunkEntities, storage: ChunkMap, w: Seq<EntryView>) -> bool {
    &&& ents.spec_entity(k) is Some
    &&& 0 <= ents.spec_entity(k)->0 < w.len()
    &&& storage.spec_buffer_at(k) is Some
}

/// Whether task view `tv` is the freshly spawned task for dirty key `k`.
pub open spec fn resolves_to(
    k: ChunkKey,
    ents: ChunkEntities,
    storage: ChunkMap,
    w: Seq<EntryView>,
    tv: TaskView,
) -> bool {
    &&& resolvable(k, ents, storage, w)
    &&& tv.entity == ents.spec_entity(k)->0 as int
    &&& tv.buffer == storage.spec_buffer_at(k)->0
    &&& tv.result is None
}

/// The entity id a key currently maps to (meaningful only when the lookup
/// succeeds).
pub open spec fn ents_id(ents: ChunkEntities, k: ChunkKey) -> int {
    ents.spec_entity(k)->0 as int
}

/// Whether `tv` was spawned for one of the given dirty keys.
pub open spec fn spawned_for_some_key(
    tv: TaskView,
    dirty: Seq<ChunkKey>,
    ents: ChunkEntities,
    storage: ChunkMap,
    w0: Seq<EntryView>,
) -> bool {
    exists|j: int| 0 <= j < dirty.len() && resolves_to(#[trigger] dirty[j], ents, storage, w0, tv)
}

/// Whether a fresh task for key `k` sits in the queue beyond `t0len` with
/// its in-flight marker attached to `k`'s entity.
pub open spec fn key_scheduled(
    k: ChunkKey,
    t0len: int,
    w1: Seq<EntryView>,
    t1: Seq<TaskView>,
    ents: ChunkEntities,
    storage: ChunkMap,
    w0: Seq<EntryView>,
) -> bool {
    exists|i: int|
        t0len <= i < t1.len() && resolves_to(k, ents, storage, w0, #[trigger] t1[i])
            && w1[t1[i].entity].pending == Some(i)
}

/// Whether some dirty key resolves to entity `e`.
pub open spec fn some_key_resolves_to(
    dirty: Seq<ChunkKey>,
    ents: ChunkEntities,
    storage: ChunkMap,
    w0: Seq<EntryView>,
    e: int,
) -> bool {
    exists|j: int|
        0 <= j < dirty.len() && resolvable(#[trigger] dirty[j], ents, storage, w0) && ents_id(
            ents,
            dirty[j],
        ) == e
}

/// Everything one scheduling pass guarantees, relating the pre state
/// (`w0`, `t0`) to the post state (`w1`, `t1`) over the dirty snapshot.
pub open spec fn queue_post(
    w0: Seq<EntryView>,
    t0: Seq<TaskView>,
    w1: Seq<EntryView>,
    t1: Seq<TaskView>,
    dirty: Seq<ChunkKey>,
    ents: ChunkEntities,
    storage: ChunkMap,
) -> bool {
    &&& w1.len() == w0.len()
    &&& t1.len() >= t0.len()
    &&& forall|i: int| 0 <= i < t0.len() ==> t1[i] == t0[i]
    &&& forall|i: int|
        t0.len() <= i < t1.len() ==> spawned_for_some_key(
            #[trigger] t1[i],
            dirty,
            ents,
            storage,
            w0,
        )
    &&& forall|j: int|
        0 <= j < dirty.len() && resolvable(#[trigger] dirty[j], ents, storage, w0)
            ==> key_scheduled(dirty[j], t0.len() as int, w1, t1, ents, storage, w0)
    &&& forall|e: int|
        0 <= e < w0.len() && !some_key_resolves_to(dirty, ents, storage, w0, e) ==> #[trigger] w1[e]
            == w0[e]
    &&& forall|e: int|
        0 <= e < w0.len() ==> (#[trigger] w1[e]).key == w0[e].key && w1[e].visible == w0[e].visible
            && w1[e].mesh == w0[e].mesh
}

/// Distinct chunk keys resolve to distinct entities when the lookup is
/// injective on entity ids.
pub proof fn lemma_entities_injective(ents: ChunkEntities, k1: ChunkKey, k2: ChunkKey)
    requires
        ents.injective(),
        k1 != k2,
        ents.spec_entity(k1) is Some,
        ents.spec_entity(k2) is Some,
    ensures
        ents.spec_entity(k1)->0 != ents.spec_entity(k2)->0,
{
    lemma_find_entity_witness(ents.entries@, k1, 0);
    lemma_find_entity_witness(ents.entries@, k2, 0);
    let idx1 = choose|idx: int|
        0 <= idx < ents.entries@.len() && (#[trigger] ents.entries@[idx]).0 == k1
            && ents.entries@[idx].1 == ents.spec_entity(k1)->0;
    let idx2 = choose|idx: int|
        0 <= idx < ents.entries@.len() && (#[trigger] ents.entries@[idx]).0 == k2
            && ents.entries@[idx].1 == ents.spec_entity(k2)->0;
    assert(idx1 != idx2);
}

/// Attaches the render components for newly inserted chunk entities: an
/// empty, invisible mesh and no in-flight marker, and registers the
/// key-to-entity association.
pub fn prepare_chunks(world: &mut MeshWorld, entities: &mut ChunkEntities, keys: &Vec<ChunkKey>)
    requires
        old(entities).wf(),
        old(entities).injective(),
        forall|j: int, i: int|
            #![trigger old(entities).entries@[i], keys@[j]]
            0 <= j < keys@.len() && 0 <= i < old(entities).entries@.len() ==> old(
                entities,
            ).entries@[i].0 != keys@[j],
        forall|i: int, j: int| 0 <= i < j < keys@.len() ==> keys@[i] != keys@[j],
    ensures
        final(world)@.len() == old(world)@.len() + keys@.len(),
        forall|e: int| 0 <= e < old(world)@.len() ==> final(world)@[e] == old(world)@[e],
        forall|j: int|
            0 <= j < keys@.len() ==> final(world)@[old(world)@.len() + j] == (EntryView {
                key: keys@[j],
                visible: false,
                mesh: Seq::empty(),
                pending: None,
            }),
        final(entities).wf(),
        final(entities).entries@ == old(entities).entries@ + Seq::new(
            keys@.len(),
            |j: int| (keys@[j], (old(world)@.len() + j) as usize),
        ),
{
    let base = world.entities.len();
    let n = keys.len();
    let mut j: usize = 0;
    while j < n
        invariant
            j <= n,
            n == keys@.len(),
            world@.len() == base + j,
            entities.wf(),
            forall|e: int| 0 <= e < base ==> world@[e] == old(world)@[e],
            forall|jj: int|
                0 <= jj < j ==> world@[base + jj] == (EntryView {
                    key: keys@[jj],
                    visible: false,
                    mesh: Seq::empty(),
                    pending: None,
                }),
            entities.entries@ == old(entities).entries@ + Seq::new(
                j as nat,
                |jj: int| (keys@[jj], (base + jj) as usize),
            ),
            forall|jj: int, i: int|
                #![trigger old(entities).entries@[i], keys@[jj]]
                0 <= jj < keys@.len() && 0 <= i < old(entities).entries@.len() ==> old(
                    entities,
                ).entries@[i].0 != keys@[jj],
            forall|i: int, jj: int| 0 <= i < jj < keys@.len() ==> keys@[i] != keys@[jj],
        decreases n - j,
    {
        let key = keys[j];
        let eid = world.entities.len();
        let ent = ChunkEntry { key, visible: false, mesh: ChunkMesh::new(), pending: None };
        let ghost w_pre = world@;
        world.entities.push(ent);
        proof {
            assert(world@ =~= w_pre.push(ent@));
            assert(ent@.mesh =~= Seq::<Quad>::empty());
            assert(ent@ == (EntryView { key, visible: false, mesh: Seq::empty(), pending: None }));
        }
        let ghost e_pre = entities.entries@;
        proof {
            assert forall|i: int| 0 <= i < e_pre.len() implies (#[trigger] e_pre[i]).0 != key by {
                if i < old(entities).entries@.len() {
                } else {
                    assert(e_pre[i].0 == keys@[i - old(entities).entries@.len()]);
                }
            }
        }
        entities.attach(key, eid);
        j = j + 1;
        proof {
            assert(entities.entries@ =~= old(entities).entries@ + Seq::new(
                j as nat,
                |jj: int| (keys@[jj], (base + jj) as usize),
            ));
        }
    }
    proof {
        assert(entities.entries@ == old(entities).entries@ + Seq::new(
            keys@.len(),
            |jj: int| (keys@[jj], (base + jj) as usize),
        ));
    }
}

/// One scheduling pass: for each dirty chunk that still resolves to a live
/// scene entity and a resident voxel buffer, spawns one meshing task over a
/// cloned shared buffer handle and attaches the in-flight marker to the
/// entity. Keys that no longer resolve are skipped silently: they are
/// expected races with unloading, retried by the next dirty cycle. An
/// entity already carrying a marker has it overwritten, so the superseded
/// task's result is dropped at polling time (the documented
/// unsafe-by-contract double-scheduling behavior).
pub fn queue_mesh_tasks(
    world: &mut MeshWorld,
    tasks: &mut MeshTasks,
    dirty: &DirtyChunks,
    entities: &ChunkEntities,
    storage: &ChunkMap,
)
    requires
        dirty.wf(),
        entities.wf(),
        entities.injective(),
        storage.wf(),
        world_tasks_wf(old(world)@, old(tasks)@),
    ensures
        world_tasks_wf(final(world)@, final(tasks)@),
        queue_post(
            old(world)@,
            old(tasks)@,
            final(world)@,
            final(tasks)@,
            dirty.keys@,
            *entities,
            *storage,
        ),
{
    let ghost w0 = world@;
    let ghost t0 = tasks@;
    let n = dirty.keys.len();
    let mut d: usize = 0;
    while d < n
        invariant
            d <= n,
            n == dirty.keys@.len(),
            dirty.wf(),
            entities.wf(),
            entities.injective(),
            storage.wf(),
            world@.len() == w0.len(),
            world_tasks_wf(world@, tasks@),
            queue_post(w0, t0, world@, tasks@, dirty.keys@.subrange(0, d as int), *entities, *storage),
        decreases n - d,
    {
        let ghost dpre = dirty.keys@.subrange(0, d as int);
        let ghost dpost = dirty.keys@.subrange(0, d as int + 1);
        let ghost w_prev = world@;
        let ghost t_prev = tasks@;
        let k = dirty.keys[d];
        proof {
            assert(dpost =~= dpre.push(k));
        }
        let mut spawned: bool = false;
        match entities.entity(k) {
            None => {},
            Some(e) => {
                if e < world.entities.len() {
                    match storage.buffer_at(k) {
                        None => {},
                        Some(buf) => {
                            let tid = tasks.tasks.len();
                            let task = ChunkMeshingTask { entity: e, buffer: buf, result: None };
                            let ghost tv = task@;
                            tasks.tasks.push(task);
                            world.entities[e].pending = Some(tid);
                            spawned = true;
                            proof {
                                assert(tasks@ =~= t_prev.push(tv));
                                let ev = EntryView {
                                    key: w_prev[e as int].key,
                                    visible: w_prev[e as int].visible,
                                    mesh: w_prev[e as int].mesh,
                                    pending: Some(tid as int),
                                };
                                assert(world@ =~= w_prev.update(e as int, ev));
                                assert(resolvable(k, *entities, *storage, w0));
                                assert(resolves_to(k, *entities, *storage, w0, tv));
                            }
                        },
                    }
                }
            },
        }
        proof {
            let wv = world@;
            let tvs = tasks@;
            let ghost ek: int = if entities.spec_entity(k) is Some {
                entities.spec_entity(k)->0 as int
            } else {
                -1
            };
            if !spawned {
                assert(!resolvable(k, *entities, *storage, w0));
                assert(wv == w_prev && tvs == t_prev);
            }
            // Every task beyond the original queue was spawned for some dirty
            // key of the processed prefix.
            assert forall|i: int| t0.len() <= i < tvs.len() implies spawned_for_some_key(
                #[trigger] tvs[i],
                dpost,
                *entities,
                *storage,
                w0,
            ) by {
                if i < t_prev.len() {
                    assert(tvs[i] == t_prev[i]);
                    assert(spawned_for_some_key(t_prev[i], dpre, *entities, *storage, w0));
                    let j0 = choose|j: int|
                        0 <= j < dpre.len() && resolves_to(
                            #[trigger] dpre[j],
                            *entities,
                            *storage,
                            w0,
                            t_prev[i],
                        );
                    assert(dpost[j0] == dpre[j0]);
                    assert(resolves_to(dpost[j0], *entities, *storage, w0, tvs[i]));
                } else {
                    assert(spawned);
                    assert(resolves_to(dpost[dpost.len() - 1], *entities, *storage, w0, tvs[i]));
                }
            }
            // Every resolvable key of the prefix has its freshly spawned task
            // attached to its entity.
            assert forall|j: int|
                0 <= j < dpost.len() && resolvable(
                    #[trigger] dpost[j],
                    *entities,
                    *storage,
                    w0,
                ) implies exists|i: int|
                t0.len() <= i < tvs.len() && resolves_to(
                    dpost[j],
                    *entities,
                    *storage,
                    w0,
                    #[trigger] tvs[i],
                ) && wv[tvs[i].entity].pending == Some(i) by {
                if j == dpost.len() - 1 {
                    assert(spawned);
                    let i0 = t_prev.len() as int;
                    assert(t0.len() <= i0 < tvs.len());
                    assert(resolves_to(dpost[j], *entities, *storage, w0, tvs[i0]));
                    assert(wv[tvs[i0].entity].pending == Some(i0));
                } else {
                    assert(dpost[j] == dpre[j]);
                    let i0 = choose|i: int|
                        t0.len() <= i < t_prev.len() && resolves_to(
                            dpre[j],
                            *entities,
                            *storage,
                            w0,
                            #[trigger] t_prev[i],
                        ) && w_prev[t_prev[i].entity].pending == Some(i);
                    assert(tvs[i0] == t_prev[i0]);
                    if spawned {
                        lemma_entities_injective(*entities, dpre[j], k);
                        assert(t_prev[i0].entity != ek);
                    }
                    assert(wv[tvs[i0].entity].pending == Some(i0));
                    assert(resolves_to(dpost[j], *entities, *storage, w0, tvs[i0]));
                }
            }
            // An entity no prefix key resolves to is untouched.
            assert forall|e2: int|
                0 <= e2 < w0.len() && !some_key_resolves_to(dpost, *entities, *storage, w0, e2)
                implies wv[e2] == w0[e2] by {
                if some_key_resolves_to(dpre, *entities, *storage, w0, e2) {
                    let j0 = choose|j: int|
                        0 <= j < dpre.len() && resolvable(
                            #[trigger] dpre[j],
                            *entities,
                            *storage,
                            w0,
                        ) && ents_id(*entities, dpre[j]) == e2;
                    assert(dpost[j0] == dpre[j0]);
                    assert(resolvable(dpost[j0], *entities, *storage, w0) && ents_id(
                        *entities,
                        dpost[j0],
                    ) == e2);
                    assert(some_key_resolves_to(dpost, *entities, *storage, w0, e2));
                    assert(false);
                }
                assert(!some_key_resolves_to(dpre, *entities, *storage, w0, e2));
                assert(w_prev[e2] == w0[e2]);
                if spawned {
                    assert(resolvable(dpost[dpost.len() - 1], *entities, *storage, w0));
                    assert(some_key_resolves_to(dpost, *entities, *storage, w0, ek) || ek != e2);
                    assert(ek != e2);
                }
            }
            assert forall|e2: int| 0 <= e2 < w0.len() implies (#[trigger] wv[e2]).key == w0[e2].key
                && wv[e2].visible == w0[e2].visible && wv[e2].mesh == w0[e2].mesh by {
                assert(w_prev[e2].key == w0[e2].key && w_prev[e2].visible == w0[e2].visible
                    && w_prev[e2].mesh == w0[e2].mesh);
            }
            assert(queue_post(w0, t0, wv, tvs, dpost, *entities, *storage));
        }
        d = d + 1;
    }
    proof {
        assert(dirty.keys@.subrange(0, n as int) =~= dirty.keys@);
    }
}

/// What a full worker pass guarantees: every task is completed with the
/// deterministic meshing output of its buffer; targets and buffers are kept.
pub open spec fn complete_post(t1: Seq<TaskView>, t2: Seq<TaskView>) -> bool {
    &&& t2.len() == t1.len()
    &&& forall|i: int|
        0 <= i < t1.len() ==> (#[trigger] t2[i]).entity == t1[i].entity && t2[i].buffer
            == t1[i].buffer && t2[i].result == Some(mesh_spec(t1[i].buffer))
}

/// Runs one spawned meshing unit of work to completion on the calling
/// worker's own scratch slot.
pub fn run_mesh_task(tasks: &mut MeshTasks, t: usize, pool: &mut BufferPool, worker: usize)
    requires
        t < old(tasks)@.len(),
        worker < old(pool).slots@.len(),
        old(tasks)@[t as int].buffer.wf(),
    ensures
        final(tasks)@.len() == old(tasks)@.len(),
        forall|i: int| 0 <= i < old(tasks)@.len() && i != t ==> final(tasks)@[i] == old(tasks)@[i],
        final(tasks)@[t as int].entity == old(tasks)@[t as int].entity,
        final(tasks)@[t as int].buffer == old(tasks)@[t as int].buffer,
        final(tasks)@[t as int].result == Some(mesh_spec(old(tasks)@[t as int].buffer)),
        final(pool).slots@.len() == old(pool).slots@.len(),
{
    let entity = tasks.tasks[t].entity;
    let buffer = tasks.tasks[t].buffer.clone();
    let mut mesh = ChunkMesh::new();
    let scratch = &mut pool.slots[worker];
    mesh_buffer(&buffer, scratch, &mut mesh);
    let ghost t_pre = tasks@;
    tasks.tasks[t] = ChunkMeshingTask { entity, buffer, result: Some(mesh) };
    proof {
        assert(tasks@ =~= t_pre.update(
            t as int,
            TaskView {
                entity: entity as int,
                buffer: old(tasks)@[t as int].buffer,
                result: Some(mesh_spec(old(tasks)@[t as int].buffer)),
            },
        ));
    }
}

/// Completes every outstanding unit of work, standing for the fixed-size
/// worker pool draining its queue between two frames. Already completed
/// tasks are left alone; their results already equal the meshing output.
pub fn run_pending_mesh_tasks(tasks: &mut MeshTasks, pool: &mut BufferPool, worker: usize)
    requires
        worker < old(pool).slots@.len(),
        tasks_results_wf(old(tasks)@),
    ensures
        complete_post(old(tasks)@, final(tasks)@),
        tasks_results_wf(final(tasks)@),
        final(pool).slots@.len() == old(pool).slots@.len(),
{
    let n = tasks.tasks.len();
    let mut t: usize = 0;
    while t < n
        invariant
            t <= n,
            n == tasks@.len(),
            worker < pool.slots@.len(),
            pool.slots@.len() == old(pool).slots@.len(),
            tasks@.len() == old(tasks)@.len(),
            tasks_results_wf(old(tasks)@),
            forall|i: int|
                0 <= i < t ==> (#[trigger] tasks@[i]).entity == old(tasks)@[i].entity
                    && tasks@[i].buffer == old(tasks)@[i].buffer && tasks@[i].result == Some(
                    mesh_spec(old(tasks)@[i].buffer),
                ),
            forall|i: int| t <= i < n ==> #[trigger] tasks@[i] == old(tasks)@[i],
        decreases n - t,
    {
        let done = tasks.tasks[t].result.is_some();
        if !done {
            run_mesh_task(tasks, t, pool, worker);
        }
        t = t + 1;
    }
}

/// Worker-pool independence: the drained task queue is fully determined by
/// the queue before the workers ran, however many workers drained it and in
/// whatever order. Together with the determinism of the mesher this makes
/// the produced geometry independent of the worker-pool size.
pub proof fn lemma_completion_deterministic(t: Seq<TaskView>, a: Seq<TaskView>, b: Seq<TaskView>)
    requires
        complete_post(t, a),
        complete_post(t, b),
    ensures
        a == b,
{
    assert forall|i: int| 0 <= i < a.len() implies a[i] == b[i] by {
        assert(a[i].entity == t[i].entity && b[i].entity == t[i].entity);
        assert(a[i].buffer == t[i].buffer && b[i].buffer == t[i].buffer);
        assert(a[i].result == Some(mesh_spec(t[i].buffer)) && b[i].result == Some(
            mesh_spec(t[i].buffer),
        ));
    }
    assert(a =~= b);
}

/// Whether the task entity `e`'s marker points at has a completed result.
pub open spec fn task_completed(w0: Seq<EntryView>, t: Seq<TaskView>, e: int) -> bool {
    &&& w0[e].pending is Some
    &&& 0 <= w0[e].pending->0 < t.len()
    &&& t[w0[e].pending->0].result is Some
}

/// What one integration pass guarantees: entities whose in-flight task has
/// completed receive its geometry, become visible and lose their marker;
/// every other entity is left exactly as it was (the pipeline's
/// non-blocking suspension point).
pub open spec fn process_post(w0: Seq<EntryView>, t: Seq<TaskView>, w1: Seq<EntryView>) -> bool {
    &&& w1.len() == w0.len()
    &&& forall|e: int|
        0 <= e < w0.len() ==> #[trigger] w1[e] == (if task_completed(w0, t, e) {
            EntryView {
                key: w0[e].key,
                visible: true,
                mesh: t[w0[e].pending->0].result->0,
                pending: None,
            }
        } else {
            w0[e]
        })
}

/// One integration pass: polls every entity carrying an in-flight marker
/// without blocking; a completed task's geometry is installed, the entity
/// becomes visible, and the marker is removed. Entities whose task has not
/// completed are left unchanged.
pub fn process_mesh_tasks(world: &mut MeshWorld, tasks: &MeshTasks)
    requires
        world_tasks_wf(old(world)@, tasks@),
    ensures
        world_tasks_wf(final(world)@, tasks@),
        process_post(old(world)@, tasks@, final(world)@),
{
    let n = world.entities.len();
    let mut e: usize = 0;
    while e < n
        invariant
            e <= n,
            n == world@.len(),
            world@.len() == old(world)@.len(),
            world_tasks_wf(old(world)@, tasks@),
            forall|e2: int|
                0 <= e2 < e ==> #[trigger] world@[e2] == (if task_completed(
                    old(world)@,
                    tasks@,
                    e2,
                ) {
                    EntryView {
                        key: old(world)@[e2].key,
                        visible: true,
                        mesh: tasks@[old(world)@[e2].pending->0].result->0,
                        pending: None,
                    }
                } else {
                    old(world)@[e2]
                }),
            forall|e2: int| e <= e2 < n ==> #[trigger] world@[e2] == old(world)@[e2],
        decreases n - e,
    {
        let pending = world.entities[e].pending;
        match pending {
            None => {},
            Some(tid) => {
                proof {
                    assert(world@[e as int] == world.entities@[e as int]@);
                    assert(world@[e as int] == old(world)@[e as int]);
                    assert(old(world)@[e as int].pending == Some(tid as int));
                    assert(tasks@.len() == tasks.tasks@.len());
                    assert(tid < tasks@.len());
                }
                match &tasks.tasks[tid].result {
                    None => {},
                    Some(m) => {
                        let mesh = m.clone();
                        proof {
                            assert(tasks@[tid as int] == tasks.tasks@[tid as int]@);
                            assert(tasks@[tid as int].result == Some(mesh@));
                        }
                        let key = world.entities[e].key;
                        let ghost w_pre = world@;
                        world.entities[e] = ChunkEntry { key, visible: true, mesh, pending: None };
                        proof {
                            assert(world@ =~= w_pre.update(
                                e as int,
                                EntryView {
                                    key: old(world)@[e as int].key,
                                    visible: true,
                                    mesh: tasks@[old(world)@[e as int].pending->0].result->0,
                                    pending: None,
                                },
                            ));
                        }
                    },
                }
            },
        }
        e = e + 1;
    }
}

/// Frame-order guarantee of the meshing stage: there is an intermediate
/// state such that the frame is one scheduling pass followed by one
/// integration pass over the same task queue.
pub open spec fn meshing_frame_post(
    w0: Seq<EntryView>,
    t0: Seq<TaskView>,
    w1: Seq<EntryView>,
    t1: Seq<TaskView>,
    dirty: Seq<ChunkKey>,
    ents: ChunkEntities,
    storage: ChunkMap,
) -> bool {
    exists|wm: Seq<EntryView>|
        #[trigger] queue_post(w0, t0, wm, t1, dirty, ents, storage) && process_post(wm, t1, w1)
}

/// Handles the meshing of the chunks: one scheduling pass, then one
/// non-blocking integration pass, in that fixed order, once per frame.
pub struct VoxelWorldMeshingPlugin;

impl VoxelWorldMeshingPlugin {
    pub fn run_frame(
        &self,
        world: &mut MeshWorld,
        tasks: &mut MeshTasks,
        dirty: &DirtyChunks,
        entities: &ChunkEntities,
        storage: &ChunkMap,
    )
        requires
            dirty.wf(),
            entities.wf(),
            entities.injective(),
            storage.wf(),
            world_tasks_wf(old(world)@, old(tasks)@),
        ensures
            world_tasks_wf(final(world)@, final(tasks)@),
            meshing_frame_post(
                old(world)@,
                old(tasks)@,
                final(world)@,
                final(tasks)@,
                dirty.keys@,
                *entities,
                *storage,
            ),
    {
        queue_mesh_tasks(world, tasks, dirty, entities, storage);
        let ghost wm = world@;
        process_mesh_tasks(world, tasks);
        proof {
            assert(queue_post(old(world)@, old(tasks)@, wm, tasks@, dirty.keys@, *entities, *storage)
                && process_post(wm, tasks@, world@));
        }
    }
}

/// Skip-on-race: a scheduling pass whose dirty snapshot holds no key that
/// still resolves to a live entity and a resident buffer spawns no task and
/// leaves every entity untouched. (And it never errs: `queue_mesh_tasks`
/// is total on its precondition.)
pub proof fn lemma_skip_on_race(
    w0: Seq<EntryView>,
    t0: Seq<TaskView>,
    w1: Seq<EntryView>,
    t1: Seq<TaskView>,
    dirty: Seq<ChunkKey>,
    ents: ChunkEntities,
    storage: ChunkMap,
)
    requires
        queue_post(w0, t0, w1, t1, dirty, ents, storage),
        forall|j: int| 0 <= j < dirty.len() ==> !resolvable(#[trigger] dirty[j], ents, storage, w0),
    ensures
        t1 == t0,
        w1 == w0,
{
    if t1.len() > t0.len() {
        assert(spawned_for_some_key(t1[t0.len() as int], dirty, ents, storage, w0));
        let j0 = choose|j: int|
            0 <= j < dirty.len() && resolves_to(
                #[trigger] dirty[j],
                ents,
                storage,
                w0,
                t1[t0.len() as int],
            );
        assert(false);
    }
    assert(t1 =~= t0);
    assert forall|e: int| 0 <= e < w0.len() implies w1[e] == w0[e] by {
        if some_key_resolves_to(dirty, ents, storage, w0, e) {
            let j0 = choose|j: int|
                0 <= j < dirty.len() && resolvable(#[trigger] dirty[j], ents, storage, w0)
                    && ents_id(ents, dirty[j]) == e;
            assert(false);
        }
    }
    assert(w1 =~= w0);
}

/// Eventual visibility: a chunk marked dirty whose key still resolved at
/// scheduling time becomes visible, with geometry exactly equal to the
/// deterministic meshing output of its stored voxel buffer, once the worker
/// pool completes the spawned tasks and an integration pass polls them.
pub proof fn lemma_eventual_visibility(
    w0: Seq<EntryView>,
    t0: Seq<TaskView>,
    w1: Seq<EntryView>,
    t1: Seq<TaskView>,
    t2: Seq<TaskView>,
    w2: Seq<EntryView>,
    dirty: Seq<ChunkKey>,
    ents: ChunkEntities,
    storage: ChunkMap,
    k: ChunkKey,
)
    requires
        queue_post(w0, t0, w1, t1, dirty, ents, storage),
        complete_post(t1, t2),
        process_post(w1, t2, w2),
        dirty.contains(k),
        resolvable(k, ents, storage, w0),
    ensures
        0 <= ents_id(ents, k) < w2.len(),
        w2[ents_id(ents, k)].visible,
        w2[ents_id(ents, k)].mesh == mesh_spec(storage.spec_buffer_at(k)->0),
{
    let j = choose|j: int| 0 <= j < dirty.len() && dirty[j] == k;
    assert(resolvable(dirty[j], ents, storage, w0));
    assert(key_scheduled(k, t0.len() as int, w1, t1, ents, storage, w0));
    let i = choose|i: int|
        t0.len() <= i < t1.len() && resolves_to(k, ents, storage, w0, #[trigger] t1[i])
            && w1[t1[i].entity].pending == Some(i);
    let e = t1[i].entity;
    assert(e == ents_id(ents, k));
    assert(t2[i].result == Some(mesh_spec(storage.spec_buffer_at(k)->0)));
    assert(task_completed(w1, t2, e));
    assert(w2[e].mesh == t2[w1[e].pending->0].result->0);
}

} // verus!
