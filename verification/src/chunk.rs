use vstd::prelude::*;

verus! {

/// Edge length of an unpadded chunk, in voxels.
pub const CHUNK_LENGTH: usize = 32;

/// Largest padded grid edge the mesher accepts. Keeps every linearized grid
/// index comfortably inside `usize` on all targets.
pub const MAX_GRID_DIM: usize = 66;

/// The voxel material value standing for empty space ("air").
pub const EMPTY_VOXEL: u8 = 0;

/// Integer coordinate identifying a chunk's position in the regular grid.
/// Unique per chunk; the join key across the dirty set, the chunk storage
/// and the chunk-entity lookup.
#[derive(Clone, Copy, PartialEq, Eq, Structural, Debug, Hash)]
pub struct ChunkKey {
    pub x: i32,
    pub y: i32,
    pub z: i32,
}

/// Shape metadata of a padded voxel grid: the grid spans `sx * sy * sz`
/// cells, including the one-cell halo border on every side.
#[derive(Clone, Copy, PartialEq, Eq, Structural, Debug)]
pub struct ChunkShape {
    pub sx: usize,
    pub sy: usize,
    pub sz: usize,
}

impl ChunkShape {
    pub open spec fn wf(self) -> bool {
        &&& 2 <= self.sx <= MAX_GRID_DIM
        &&& 2 <= self.sy <= MAX_GRID_DIM
        &&& 2 <= self.sz <= MAX_GRID_DIM
    }
}

/// Spec-level contents of a padded voxel grid: the voxel sequence in
/// x-fastest linear order together with the grid extents.
pub struct GridView {
    pub voxels: Seq<u8>,
    pub sx: int,
    pub sy: int,
    pub sz: int,
}

impl GridView {
    pub open spec fn wf(self) -> bool {
        &&& 2 <= self.sx <= MAX_GRID_DIM
        &&& 2 <= self.sy <= MAX_GRID_DIM
        &&& 2 <= self.sz <= MAX_GRID_DIM
        &&& self.voxels.len() == self.sx * self.sy * self.sz
    }

    /// Linearized index of cell `(x, y, z)`.
    pub open spec fn grid_index(self, x: int, y: int, z: int) -> int {
        x + self.sx * (y + self.sy * z)
    }

    /// Material of the voxel at cell `(x, y, z)`.
    pub open spec fn vox(self, x: int, y: int, z: int) -> u8 {
        self.voxels[self.grid_index(x, y, z)]
    }
}

/// A linearized grid index stays in bounds for in-range coordinates, and
/// every intermediate product fits well below `usize::MAX`.
pub proof fn lemma_grid_index_bounds(sx: int, sy: int, sz: int, x: int, y: int, z: int)
    by (nonlinear_arith)
    requires
        0 < sx <= 66,
        0 < sy <= 66,
        0 < sz <= 66,
        0 <= x < sx,
        0 <= y < sy,
        0 <= z < sz,
    ensures
        0 <= sy * z <= 66 * 66,
        0 <= y + sy * z <= 66 * 66 + 66,
        0 <= sx * (y + sy * z) <= 66 * (66 * 66 + 66),
        0 <= x + sx * (y + sy * z) < sx * sy * sz,
        sx * sy * sz <= 66 * 66 * 66,
{
}

/// The cell count of a well-formed shape fits well below `usize::MAX`.
pub proof fn lemma_grid_len_bounds(sx: int, sy: int, sz: int)
    by (nonlinear_arith)
    requires
        0 < sx <= 66,
        0 < sy <= 66,
        0 < sz <= 66,
    ensures
        0 < sx * sy <= 66 * 66,
        0 < sx * sy * sz <= 66 * 66 * 66,
{
}

/// A fixed-size padded voxel grid plus its shape metadata. Immutable for the
/// duration of a meshing task; the scheduler clones a handle per task.
pub struct ChunkBuffer {
    pub shape: ChunkShape,
    pub voxels: Vec<u8>,
}

impl View for ChunkBuffer {
    type V = GridView;

    open spec fn view(&self) -> GridView {
        GridView {
            voxels: self.voxels@,
            sx: self.shape.sx as int,
            sy: self.shape.sy as int,
            sz: self.shape.sz as int,
        }
    }
}

impl Clone for ChunkBuffer {
    /// A cheap shared-handle clone in spirit: the copy views identically.
    fn clone(&self) -> (r: Self)
        ensures
            r@ == self@,
    {
        let r = ChunkBuffer { shape: self.shape, voxels: self.voxels.clone() };
        proof {
            assert(r.voxels@ =~= self.voxels@);
            assert(r@ =~~= self@);
        }
        r
    }
}

impl ChunkBuffer {
    pub open spec fn wf(self) -> bool {
        self@.wf()
    }

    /// A fresh grid of the given shape with every voxel set to `fill`.
    pub fn new_filled(shape: ChunkShape, fill: u8) -> (r: Self)
        requires
            shape.wf(),
        ensures
            r.wf(),
            r.shape == shape,
            r@.voxels.len() == shape.sx * shape.sy * shape.sz,
            forall|i: int| 0 <= i < r@.voxels.len() ==> r@.voxels[i] == fill,
    {
        proof {
            lemma_grid_len_bounds(shape.sx as int, shape.sy as int, shape.sz as int);
        }
        let n: usize = shape.sx * shape.sy * shape.sz;
        let mut voxels: Vec<u8> = Vec::new();
        let mut i: usize = 0;
        while i < n
            invariant
                i <= n,
                voxels@.len() == i,
                forall|j: int| 0 <= j < i ==> voxels@[j] == fill,
            decreases n - i,
        {
            voxels.push(fill);
            i = i + 1;
        }
        ChunkBuffer { shape, voxels }
    }

    /// Reads the material at cell `(x, y, z)`.
    pub fn voxel(&self, x: usize, y: usize, z: usize) -> (m: u8)
        requires
            self.wf(),
            x < self@.sx,
            y < self@.sy,
            z < self@.sz,
        ensures
            m == self@.vox(x as int, y as int, z as int),
    {
        proof {
            lemma_grid_index_bounds(self@.sx, self@.sy, self@.sz, x as int, y as int, z as int);
        }
        let idx: usize = x + self.shape.sx * (y + self.shape.sy * z);
        self.voxels[idx]
    }

    /// Overwrites the material at cell `(x, y, z)`.
    pub fn set_voxel(&mut self, x: usize, y: usize, z: usize, m: u8)
        requires
            old(self).wf(),
            x < old(self)@.sx,
            y < old(self)@.sy,
            z < old(self)@.sz,
        ensures
            final(self).wf(),
            final(self).shape == old(self).shape,
            final(self)@.voxels == old(self)@.voxels.update(
                old(self)@.grid_index(x as int, y as int, z as int),
                m,
            ),
    {
        proof {
            lemma_grid_index_bounds(self@.sx, self@.sy, self@.sz, x as int, y as int, z as int);
        }
        let idx: usize = x + self.shape.sx * (y + self.shape.sy * z);
        self.voxels[idx] = m;
    }
}

/// The set of chunk keys marked dirty this cycle. Recomputed and cleared by
/// the external chunk loader; the meshing pipeline only reads it. Free of
/// duplicates within one snapshot.
pub struct DirtyChunks {
    pub keys: Vec<ChunkKey>,
}

impl DirtyChunks {
    pub open spec fn wf(self) -> bool {
        forall|i: int, j: int| 0 <= i < j < self.keys@.len() ==> self.keys@[i] != self.keys@[j]
    }

    pub open spec fn spec_contains(self, k: ChunkKey) -> bool {
        self.keys@.contains(k)
    }

    pub fn new() -> (r: Self)
        ensures
            r.wf(),
            r.keys@.len() == 0,
    {
        DirtyChunks { keys: Vec::new() }
    }

    pub fn num_dirty(&self) -> (n: usize)
        ensures
            n == self.keys@.len(),
    {
        self.keys.len()
    }

    /// Marks `k` dirty; a key already present is left alone, preserving the
    /// no-duplicates snapshot contract.
    pub fn mark(&mut self, k: ChunkKey)
        requires
            old(self).wf(),
        ensures
            final(self).wf(),
            final(self).spec_contains(k),
            old(self).spec_contains(k) ==> final(self).keys@ == old(self).keys@,
            !old(self).spec_contains(k) ==> final(self).keys@ == old(self).keys@.push(k),
    {
        let n = self.keys.len();
        let mut i: usize = 0;
        while i < n
            invariant
                i <= n,
                n == self.keys@.len(),
                self.keys@ == old(self).keys@,
                old(self).wf(),
                forall|j: int| 0 <= j < i ==> self.keys@[j] != k,
            decreases n - i,
        {
            if self.keys[i] == k {
                assert(self.keys@[i as int] == k);
                return ;
            }
            i = i + 1;
        }
        assert(!old(self).spec_contains(k));
        self.keys.push(k);
        assert(self.keys@.last() == k);
        assert forall|a: int, b: int| 0 <= a < b < self.keys@.len() implies self.keys@[a]
            != self.keys@[b] by {
            if b == self.keys@.len() - 1 {
                assert(self.keys@[a] == old(self).keys@[a]);
            }
        }
    }

    pub fn clear(&mut self)
        ensures
            final(self).wf(),
            final(self).keys@.len() == 0,
    {
        self.keys.clear();
    }
}

/// First match in an association list from chunk key to scene entity id.
pub open spec fn find_entity(s: Seq<(ChunkKey, usize)>, k: ChunkKey, i: int) -> Option<usize>
    decreases s.len() - i,
{
    if i < 0 || i >= s.len() {
        None
    } else if s[i].0 == k {
        Some(s[i].1)
    } else {
        find_entity(s, k, i + 1)
    }
}

/// Externally-owned lookup from chunk coordinate to live scene entity id.
pub struct ChunkEntities {
    pub entries: Vec<(ChunkKey, usize)>,
}

impl ChunkEntities {
    pub open spec fn wf(self) -> bool {
        forall|i: int, j: int|
            0 <= i < j < self.entries@.len() ==> self.entries@[i].0 != self.entries@[j].0
    }

    pub open spec fn spec_entity(self, k: ChunkKey) -> Option<usize> {
        find_entity(self.entries@, k, 0)
    }

    /// Whether distinct keys map to distinct entity ids, as the external
    /// chunk loader guarantees (one scene entity per loaded chunk).
    pub open spec fn injective(self) -> bool {
        forall|i: int, j: int|
            0 <= i < self.entries@.len() && 0 <= j < self.entries@.len() && i != j ==> (
            #[trigger] self.entries@[i]).1 != (#[trigger] self.entries@[j]).1
    }

    pub fn new() -> (r: Self)
        ensures
            r.wf(),
            r.entries@.len() == 0,
    {
        ChunkEntities { entries: Vec::new() }
    }

    pub fn len(&self) -> (n: usize)
        ensures
            n == self.entries@.len(),
    {
        self.entries.len()
    }

    /// The entity currently associated with `key`, if the chunk is loaded.
    pub fn entity(&self, key: ChunkKey) -> (r: Option<usize>)
        ensures
            r == self.spec_entity(key),
    {
        let n = self.entries.len();
        let mut i: usize = 0;
        while i < n
            invariant
                i <= n,
                n == self.entries@.len(),
                find_entity(self.entries@, key, 0) == find_entity(self.entries@, key, i as int),
            decreases n - i,
        {
            if self.entries[i].0 == key {
                return Some(self.entries[i].1);
            }
            i = i + 1;
        }
        None
    }

    /// Associates `key` with entity `ent`; the caller keeps keys unique.
    pub fn attach(&mut self, key: ChunkKey, ent: usize)
        requires
            old(self).wf(),
            forall|i: int| 0 <= i < old(self).entries@.len() ==> old(self).entries@[i].0 != key,
        ensures
            final(self).wf(),
            final(self).entries@ == old(self).entries@.push((key, ent)),
    {
        self.entries.push((key, ent));
    }
}

/// A lookup that misses every entry returns nothing.
proof fn lemma_find_entity_none(s: Seq<(ChunkKey, usize)>, k: ChunkKey, i: int)
    requires
        forall|j: int| 0 <= j < s.len() ==> (#[trigger] s[j]).0 != k,
    ensures
        find_entity(s, k, i) is None,
    decreases s.len() - i,
{
    if 0 <= i < s.len() {
        lemma_find_entity_none(s, k, i + 1);
    }
}

/// With unique keys, the lookup returns the entry holding the key.
proof fn lemma_find_entity_at(s: Seq<(ChunkKey, usize)>, k: ChunkKey, idx: int, i: int)
    requires
        0 <= i <= idx < s.len(),
        s[idx].0 == k,
        forall|a: int, b: int| 0 <= a < b < s.len() ==> (#[trigger] s[a]).0 != (#[trigger] s[b]).0,
    ensures
        find_entity(s, k, i) == Some(s[idx].1),
    decreases idx - i,
{
    if i < idx {
        assert(s[i].0 != s[idx].0);
        lemma_find_entity_at(s, k, idx, i + 1);
    }
}

impl ChunkEntities {
    /// Drops the association for `key` (the chunk was unloaded), returning
    /// the entity it was mapped to. Every other association is untouched.
    pub fn detach(&mut self, key: ChunkKey) -> (r: Option<usize>)
        requires
            old(self).wf(),
            old(self).injective(),
        ensures
            final(self).wf(),
            final(self).injective(),
            r == old(self).spec_entity(key),
            final(self).spec_entity(key) is None,
            forall|k2: ChunkKey|
                k2 != key ==> #[trigger] final(self).spec_entity(k2) == old(self).spec_entity(k2),
    {
        let n = self.entries.len();
        let mut i: usize = 0;
        while i < n
            invariant
                i <= n,
                n == self.entries@.len(),
                self.entries@ == old(self).entries@,
                old(self).wf(),
                old(self).injective(),
                forall|j: int| 0 <= j < i ==> (#[trigger] self.entries@[j]).0 != key,
            decreases n - i,
        {
            if self.entries[i].0 == key {
                let ghost pre = self.entries@;
                proof {
                    lemma_find_entity_at(pre, key, i as int, 0);
                }
                let removed = self.entries.remove(i);
                proof {
                    let post = self.entries@;
                    assert forall|j: int| 0 <= j < post.len() implies (#[trigger] post[j])
                        == (if j < i {
                        pre[j]
                    } else {
                        pre[j + 1]
                    }) by {
                        assert(post == pre.remove(i as int));
                    }
                    assert forall|j: int| 0 <= j < post.len() implies (#[trigger] post[j]).0
                        != key by {
                        if j >= i {
                            assert(pre[j + 1].0 != pre[i as int].0);
                        }
                    }
                    lemma_find_entity_none(post, key, 0);
                    assert forall|a: int, b: int| 0 <= a < b < post.len() implies (
                    #[trigger] post[a]).0 != (#[trigger] post[b]).0 by {
                        let pa: int = if a < i {
                            a
                        } else {
                            a + 1
                        };
                        let pb: int = if b < i {
                            b
                        } else {
                            b + 1
                        };
                        assert(pre[pa].0 != pre[pb].0);
                    }
                    assert forall|a: int, b: int|
                        0 <= a < post.len() && 0 <= b < post.len() && a != b implies (
                    #[trigger] post[a]).1 != (#[trigger] post[b]).1 by {
                        let pa: int = if a < i {
                            a
                        } else {
                            a + 1
                        };
                        let pb: int = if b < i {
                            b
                        } else {
                            b + 1
                        };
                        assert(pre[pa].1 != pre[pb].1);
                    }
                    assert forall|k2: ChunkKey| k2 != key implies #[trigger] find_entity(
                        post,
                        k2,
                        0,
                    ) == find_entity(pre, k2, 0) by {
                        if find_entity(pre, k2, 0) is Some {
                            lemma_find_entity_witness(pre, k2, 0);
                            let idx2 = choose|idx: int|
                                0 <= idx < pre.len() && (#[trigger] pre[idx]).0 == k2
                                    && pre[idx].1 == find_entity(pre, k2, 0)->0;
                            if idx2 < i {
                                assert(post[idx2] == pre[idx2]);
                                lemma_find_entity_at(post, k2, idx2, 0);
                            } else {
                                assert(idx2 != i);
                                assert(post[idx2 - 1] == pre[idx2]);
                                lemma_find_entity_at(post, k2, idx2 - 1, 0);
                            }
                        } else {
                            assert forall|j: int| 0 <= j < post.len() implies (
                            #[trigger] post[j]).0 != k2 by {
                                let pj: int = if j < i {
                                    j
                                } else {
                                    j + 1
                                };
                                if pre[pj].0 == k2 {
                                    lemma_find_entity_at(pre, k2, pj, 0);
                                }
                            }
                            lemma_find_entity_none(post, k2, 0);
                        }
                    }
                }
                return Some(removed.1);
            }
            i = i + 1;
        }
        proof {
            lemma_find_entity_none(self.entries@, key, 0);
        }
        None
    }
}

/// A found entity lookup has a witness entry in the association list.
pub proof fn lemma_find_entity_witness(s: Seq<(ChunkKey, usize)>, k: ChunkKey, i: int)
    requires
        0 <= i,
        find_entity(s, k, i) is Some,
    ensures
        exists|idx: int|
            i <= idx < s.len() && (#[trigger] s[idx]).0 == k && s[idx].1 == find_entity(s, k, i)->0,
    decreases s.len() - i,
{
    if i < s.len() && s[i].0 == k {
        assert(s[i].0 == k && s[i].1 == find_entity(s, k, i)->0);
    } else {
        lemma_find_entity_witness(s, k, i + 1);
    }
}

/// First match in an association list from chunk key to voxel buffer.
pub open spec fn find_buffer(s: Seq<(ChunkKey, ChunkBuffer)>, k: ChunkKey, i: int) -> Option<
    GridView,
>
    decreases s.len() - i,
{
    if i < 0 || i >= s.len() {
        None
    } else if s[i].0 == k {
        Some(s[i].1@)
    } else {
        find_buffer(s, k, i + 1)
    }
}

/// Externally-owned chunk storage: maps a chunk coordinate to its voxel
/// buffer. Read-only from the meshing pipeline's perspective.
pub struct ChunkMap {
    pub entries: Vec<(ChunkKey, ChunkBuffer)>,
}

impl ChunkMap {
    pub open spec fn wf(self) -> bool {
        &&& forall|i: int, j: int|
            0 <= i < j < self.entries@.len() ==> self.entries@[i].0 != self.entries@[j].0
        &&& forall|i: int| 0 <= i < self.entries@.len() ==> (#[trigger] self.entries@[i].1).wf()
    }

    pub open spec fn spec_buffer_at(self, k: ChunkKey) -> Option<GridView> {
        find_buffer(self.entries@, k, 0)
    }

    pub fn new() -> (r: Self)
        ensures
            r.wf(),
            r.entries@.len() == 0,
    {
        ChunkMap { entries: Vec::new() }
    }

    /// A cloned shared handle to the buffer stored for `key`, if resident.
    pub fn buffer_at(&self, key: ChunkKey) -> (r: Option<ChunkBuffer>)
        requires
            self.wf(),
        ensures
            r is Some <==> self.spec_buffer_at(key) is Some,
            r is Some ==> r->0@ == self.spec_buffer_at(key)->0 && r->0.wf(),
    {
        let n = self.entries.len();
        let mut i: usize = 0;
        while i < n
            invariant
                i <= n,
                n == self.entries@.len(),
                self.wf(),
                find_buffer(self.entries@, key, 0) == find_buffer(self.entries@, key, i as int),
            decreases n - i,
        {
            if self.entries[i].0 == key {
                assert(find_buffer(self.entries@, key, i as int) == Some(
                    self.entries@[i as int].1@,
                ));
                assert(self.entries@[i as int].1.wf());
                let b = self.entries[i].1.clone();
                return Some(b);
            }
            i = i + 1;
        }
        None
    }

    /// Makes `buffer` resident for `key`; the caller keeps keys unique.
    pub fn store(&mut self, key: ChunkKey, buffer: ChunkBuffer)
        requires
            old(self).wf(),
            buffer.wf(),
            forall|i: int| 0 <= i < old(self).entries@.len() ==> old(self).entries@[i].0 != key,
        ensures
            final(self).wf(),
            final(self).entries@ == old(self).entries@.push((key, buffer)),
    {
        self.entries.push((key, buffer));
    }
}

/// A buffer lookup that misses every entry returns nothing.
proof fn lemma_find_buffer_none(s: Seq<(ChunkKey, ChunkBuffer)>, k: ChunkKey, i: int)
    requires
        forall|j: int| 0 <= j < s.len() ==> (#[trigger] s[j]).0 != k,
    ensures
        find_buffer(s, k, i) is None,
    decreases s.len() - i,
{
    if 0 <= i < s.len() {
        lemma_find_buffer_none(s, k, i + 1);
    }
}

/// With unique keys, the buffer lookup returns the entry holding the key.
proof fn lemma_find_buffer_at(s: Seq<(ChunkKey, ChunkBuffer)>, k: ChunkKey, idx: int, i: int)
    requires
        0 <= i <= idx < s.len(),
        s[idx].0 == k,
        forall|a: int, b: int| 0 <= a < b < s.len() ==> (#[trigger] s[a]).0 != (#[trigger] s[b]).0,
    ensures
        find_buffer(s, k, i) == Some(s[idx].1@),
    decreases idx - i,
{
    if i < idx {
        assert(s[i].0 != s[idx].0);
        lemma_find_buffer_at(s, k, idx, i + 1);
    }
}

/// A found buffer lookup has a witness entry in the association list.
proof fn lemma_find_buffer_witness(s: Seq<(ChunkKey, ChunkBuffer)>, k: ChunkKey, i: int)
    requires
        0 <= i,
        find_buffer(s, k, i) is Some,
    ensures
        exists|idx: int|
            i <= idx < s.len() && (#[trigger] s[idx]).0 == k && s[idx].1@ == find_buffer(s, k, i)->0,
    decreases s.len() - i,
{
    if i < s.len() && s[i].0 == k {
        assert(s[i].0 == k && s[i].1@ == find_buffer(s, k, i)->0);
    } else {
        lemma_find_buffer_witness(s, k, i + 1);
    }
}

impl ChunkMap {
    /// Evicts the buffer stored for `key` (the chunk was unloaded). Every
    /// other chunk's buffer stays resident and untouched.
    pub fn remove(&mut self, key: ChunkKey)
        requires
            old(self).wf(),
        ensures
            final(self).wf(),
            final(self).spec_buffer_at(key) is None,
            forall|k2: ChunkKey|
                k2 != key ==> #[trigger] final(self).spec_buffer_at(k2) == old(self).spec_buffer_at(
                    k2,
                ),
    {
        let n = self.entries.len();
        let mut i: usize = 0;
        while i < n
            invariant
                i <= n,
                n == self.entries@.len(),
                self.entries@ == old(self).entries@,
                old(self).wf(),
                forall|j: int| 0 <= j < i ==> (#[trigger] self.entries@[j]).0 != key,
            decreases n - i,
        {
            if self.entries[i].0 == key {
                let ghost pre = self.entries@;
                self.entries.remove(i);
                proof {
                    let post = self.entries@;
                    assert forall|j: int| 0 <= j < post.len() implies (#[trigger] post[j])
                        == (if j < i {
                        pre[j]
                    } else {
                        pre[j + 1]
                    }) by {
                        assert(post == pre.remove(i as int));
                    }
                    assert forall|j: int| 0 <= j < post.len() implies (#[trigger] post[j]).0
                        != key by {
                        if j >= i {
                            assert(pre[j + 1].0 != pre[i as int].0);
                        }
                    }
                    lemma_find_buffer_none(post, key, 0);
                    assert forall|a: int, b: int| 0 <= a < b < post.len() implies (
                    #[trigger] post[a]).0 != (#[trigger] post[b]).0 by {
                        let pa: int = if a < i {
                            a
                        } else {
                            a + 1
                        };
                        let pb: int = if b < i {
                            b
                        } else {
                            b + 1
                        };
                        assert(pre[pa].0 != pre[pb].0);
                    }
                    assert forall|k2: ChunkKey| k2 != key implies #[trigger] find_buffer(
                        post,
                        k2,
                        0,
                    ) == find_buffer(pre, k2, 0) by {
                        if find_buffer(pre, k2, 0) is Some {
                            lemma_find_buffer_witness(pre, k2, 0);
                            let idx2 = choose|idx: int|
                                0 <= idx < pre.len() && (#[trigger] pre[idx]).0 == k2
                                    && pre[idx].1@ == find_buffer(pre, k2, 0)->0;
                            if idx2 < i {
                                assert(post[idx2] == pre[idx2]);
                                lemma_find_buffer_at(post, k2, idx2, 0);
                            } else {
                                assert(idx2 != i);
                                assert(post[idx2 - 1] == pre[idx2]);
                                lemma_find_buffer_at(post, k2, idx2 - 1, 0);
                            }
                        } else {
                            assert forall|j: int| 0 <= j < post.len() implies (
                            #[trigger] post[j]).0 != k2 by {
                                let pj: int = if j < i {
                                    j
                                } else {
                                    j + 1
                                };
                                if pre[pj].0 == k2 {
                                    lemma_find_buffer_at(pre, k2, pj, 0);
                                }
                            }
                            lemma_find_buffer_none(post, k2, 0);
                        }
                    }
                }
                return ;
            }
            i = i + 1;
        }
        proof {
            lemma_find_buffer_none(self.entries@, key, 0);
        }
    }
}

/// Manual unload requests accepted from the overlay layer; the external
/// storage and entity layer drains them.
pub struct ChunkCommandQueue {
    pub unload: Vec<ChunkKey>,
}

impl ChunkCommandQueue {
    pub fn new() -> (r: Self)
        ensures
            r.unload@.len() == 0,
    {
        ChunkCommandQueue { unload: Vec::new() }
    }

    /// Appends every given key to the pending unload requests.
    pub fn queue_unload(&mut self, keys: &Vec<ChunkKey>)
        ensures
            final(self).unload@ == old(self).unload@ + keys@,
    {
        let n = keys.len();
        let mut i: usize = 0;
        while i < n
            invariant
                i <= n,
                n == keys@.len(),
                self.unload@ == old(self).unload@ + keys@.subrange(0, i as int),
            decreases n - i,
        {
            self.unload.push(keys[i]);
            i = i + 1;
            assert(keys@.subrange(0, i as int) == keys@.subrange(0, i as int - 1).push(
                keys@[i as int - 1],
            ));
        }
        assert(keys@.subrange(0, n as int) =~= keys@);
    }

    /// Hands all pending requests to the storage layer and empties the queue.
    pub fn drain(&mut self) -> (r: Vec<ChunkKey>)
        ensures
            r@ == old(self).unload@,
            final(self).unload@.len() == 0,
    {
        let mut out: Vec<ChunkKey> = Vec::new();
        core::mem::swap(&mut out, &mut self.unload);
        out
    }
}

} // verus!
