use vstd::prelude::*;
use vstd::arithmetic::div_mod::lemma_fundamental_div_mod_converse;

use crate::chunk::ChunkBuffer;
use crate::chunk::EMPTY_VOXEL;
use crate::chunk::GridView;

verus! {

/// One merged rectangle of exposed same-material voxel faces.
///
/// `dir` encodes the face normal: axis `dir / 2` (0 = x, 1 = y, 2 = z),
/// pointing towards positive coordinates when `dir % 2 == 1`. `layer` is the
/// grid coordinate of the voxel layer the faces belong to. `u` and `v` are
/// 0-based coordinates inside the layer's interior face mask, `w` and `h` the
/// merged extent, and `material` the shared voxel material of the rectangle.
#[derive(Clone, Copy, PartialEq, Eq, Structural, Debug)]
pub struct Quad {
    pub dir: u8,
    pub layer: usize,
    pub u: usize,
    pub v: usize,
    pub w: usize,
    pub h: usize,
    pub material: u8,
}

/// Axis of a face direction.
pub open spec fn dir_axis(dir: int) -> int {
    dir / 2
}

/// Whether a face direction points towards positive coordinates.
pub open spec fn dir_positive(dir: int) -> bool {
    dir % 2 == 1
}

/// Grid extent along axis `a`.
pub open spec fn axis_dim(g: GridView, a: int) -> int {
    if a == 0 {
        g.sx
    } else if a == 1 {
        g.sy
    } else {
        g.sz
    }
}

/// Grid cell addressed by a layer coordinate along axis `a` and the two
/// tangent coordinates `gu`, `gv` (in grid units).
pub open spec fn face_cell(a: int, layer: int, gu: int, gv: int) -> (int, int, int) {
    if a == 0 {
        (layer, gu, gv)
    } else if a == 1 {
        (gu, layer, gv)
    } else {
        (gu, gv, layer)
    }
}

/// Width of the face mask of direction `dir`: the interior extent of the
/// first tangent axis.
pub open spec fn mask_width(g: GridView, dir: int) -> int {
    if dir_axis(dir) == 0 {
        g.sy - 2
    } else {
        g.sx - 2
    }
}

/// Height of the face mask of direction `dir`: the interior extent of the
/// second tangent axis.
pub open spec fn mask_height(g: GridView, dir: int) -> int {
    if dir_axis(dir) == 2 {
        g.sy - 2
    } else {
        g.sz - 2
    }
}

/// Material shown by the face of the interior cell at mask coordinates
/// `(u, v)` of layer `layer`, direction `dir`; the empty material where the
/// face is hidden. A face is exposed exactly where a solid voxel borders a
/// non-solid or differently-typed neighbor along the face normal.
pub open spec fn face_visible_mat(g: GridView, dir: int, layer: int, u: int, v: int) -> u8 {
    let a = dir_axis(dir);
    let n_layer = if dir_positive(dir) {
        layer + 1
    } else {
        layer - 1
    };
    let c = face_cell(a, layer, u + 1, v + 1);
    let nc = face_cell(a, n_layer, u + 1, v + 1);
    let m = g.vox(c.0, c.1, c.2);
    let nm = g.vox(nc.0, nc.1, nc.2);
    if m != EMPTY_VOXEL && nm != m {
        m
    } else {
        EMPTY_VOXEL
    }
}

/// The face mask of one layer: row-major materials of the exposed faces.
pub open spec fn face_mask(g: GridView, dir: int, layer: int) -> Seq<u8> {
    let mw = mask_width(g, dir);
    let mh = mask_height(g, dir);
    Seq::new((mw * mh) as nat, |i: int| face_visible_mat(g, dir, layer, i % mw, i / mw))
}

/// Length of the run of cells holding material `m` in row `v`, starting at
/// column `u` and stopping at the row end.
pub open spec fn run_w(mask: Seq<u8>, mw: int, u: int, v: int, m: u8) -> nat
    decreases mw - u,
{
    if u < 0 || u >= mw || mask[v * mw + u] != m {
        0
    } else {
        1 + run_w(mask, mw, u + 1, v, m)
    }
}

/// Whether columns `u..u + w` of row `v` all hold material `m`.
pub open spec fn row_is(mask: Seq<u8>, mw: int, u: int, v: int, w: int, m: u8) -> bool {
    forall|idx: int| v * mw + u <= idx < v * mw + u + w ==> mask[idx] == m
}

/// Number of consecutive rows from `v` on whose columns `u..u + w` all hold
/// material `m`, stopping at the mask's last row.
pub open spec fn run_h(mask: Seq<u8>, mw: int, mh: int, u: int, v: int, w: int, m: u8) -> nat
    decreases mh - v,
{
    if v < 0 || v >= mh || !row_is(mask, mw, u, v, w, m) {
        0
    } else {
        1 + run_h(mask, mw, mh, u, v + 1, w, m)
    }
}

/// Whether linear mask index `i` falls inside the rectangle anchored at
/// `(u, v)` with extent `w` by `h`.
pub open spec fn in_rect(i: int, mw: int, u: int, v: int, w: int, h: int) -> bool {
    &&& mw > 0
    &&& u <= i % mw < u + w
    &&& v <= i / mw < v + h
}

/// The mask with the given rectangle of cells consumed (reset to empty).
pub open spec fn clear_rect(mask: Seq<u8>, mw: int, u: int, v: int, w: int, h: int) -> Seq<u8> {
    Seq::new(mask.len(), |i: int|
        if in_rect(i, mw, u, v, w, h) {
            EMPTY_VOXEL
        } else {
            mask[i]
        },
    )
}

/// Quads produced by the greedy sweep over `mask` from linear index `i` on:
/// the first exposed cell seeds a rectangle grown greedily right and then
/// down, the rectangle is emitted and consumed, and the sweep continues.
pub open spec fn greedy_quads(mask: Seq<u8>, mw: int, mh: int, i: int, dir: u8, layer: usize) -> Seq<
    Quad,
>
    decreases mw * mh - i,
{
    if i < 0 || i >= mw * mh || mw <= 0 {
        Seq::empty()
    } else if mask[i] == EMPTY_VOXEL {
        greedy_quads(mask, mw, mh, i + 1, dir, layer)
    } else {
        let u = i % mw;
        let v = i / mw;
        let m = mask[i];
        let w = run_w(mask, mw, u, v, m) as int;
        let h = run_h(mask, mw, mh, u, v, w, m) as int;
        seq![
            Quad {
                dir,
                layer,
                u: u as usize,
                v: v as usize,
                w: w as usize,
                h: h as usize,
                material: m,
            },
        ] + greedy_quads(clear_rect(mask, mw, u, v, w, h), mw, mh, i + 1, dir, layer)
    }
}

/// Quads of one whole layer of one direction.
pub open spec fn layer_quads(g: GridView, dir: int, layer: int) -> Seq<Quad> {
    greedy_quads(
        face_mask(g, dir, layer),
        mask_width(g, dir),
        mask_height(g, dir),
        0,
        dir as u8,
        layer as usize,
    )
}

/// Quads of direction `dir` from layer `layer` through the last interior
/// layer.
pub open spec fn dir_quads(g: GridView, dir: int, layer: int) -> Seq<Quad>
    decreases axis_dim(g, dir_axis(dir)) - layer,
{
    if layer >= axis_dim(g, dir_axis(dir)) - 1 {
        Seq::empty()
    } else {
        layer_quads(g, dir, layer) + dir_quads(g, dir, layer + 1)
    }
}

/// Quads of directions `dir..6`, each swept over all interior layers.
pub open spec fn mesh_dirs(g: GridView, dir: int) -> Seq<Quad>
    decreases 6 - dir,
{
    if dir < 0 || dir >= 6 {
        Seq::empty()
    } else {
        dir_quads(g, dir, 1) + mesh_dirs(g, dir + 1)
    }
}

/// The full greedy meshing of a padded grid: a pure function of the voxel
/// contents and shape, which makes the mesher deterministic by construction.
pub open spec fn mesh_spec(g: GridView) -> Seq<Quad> {
    mesh_dirs(g, 0)
}

/// Determinism of the meshing algorithm: equal grid contents and shape give
/// equal geometry, whatever worker runs the sweep and however often.
pub proof fn lemma_meshing_deterministic(a: GridView, b: GridView)
    requires
        a.voxels == b.voxels,
        a.sx == b.sx,
        a.sy == b.sy,
        a.sz == b.sz,
    ensures
        mesh_spec(a) == mesh_spec(b),
{
    assert(a == b);
}

/// A linear mask index is in bounds for in-range mask coordinates, and all
/// intermediate products stay small.
pub proof fn lemma_mask_index_bounds(mw: int, mh: int, u: int, v: int)
    by (nonlinear_arith)
    requires
        0 < mw <= 64,
        0 <= u < mw,
        0 <= v < mh,
        mh <= 64,
    ensures
        0 <= v * mw <= 64 * 64,
        0 <= v * mw + u < mw * mh,
        mw * mh <= 64 * 64,
{
}

/// Characterization of `run_w`: a maximal uniform row segment of length `w`.
proof fn lemma_run_w_char(mask: Seq<u8>, mw: int, u: int, v: int, m: u8, w: int)
    requires
        0 <= u,
        0 < w,
        u + w <= mw,
        forall|idx: int| v * mw + u <= idx < v * mw + u + w ==> mask[idx] == m,
        u + w == mw || mask[v * mw + (u + w)] != m,
    ensures
        run_w(mask, mw, u, v, m) == w,
    decreases w,
{
    assert(mask[v * mw + u] == m);
    if w == 1 {
        assert(run_w(mask, mw, u + 1, v, m) == 0);
    } else {
        lemma_run_w_char(mask, mw, u + 1, v, m, w - 1);
    }
}

/// Characterization of `run_h`: a maximal stack of uniform rows of height
/// `h`.
proof fn lemma_run_h_char(mask: Seq<u8>, mw: int, mh: int, u: int, v: int, w: int, m: u8, h: int)
    requires
        0 <= v,
        0 < h,
        v + h <= mh,
        forall|r: int| v <= r < v + h ==> #[trigger] row_is(mask, mw, u, r, w, m),
        v + h == mh || !row_is(mask, mw, u, v + h, w, m),
    ensures
        run_h(mask, mw, mh, u, v, w, m) == h,
    decreases h,
{
    assert(row_is(mask, mw, u, v, w, m));
    if h == 1 {
        assert(run_h(mask, mw, mh, u, v + 1, w, m) == 0);
    } else {
        lemma_run_h_char(mask, mw, mh, u, v + 1, w, m, h - 1);
    }
}

/// Whether columns `u..u + w` of row `v` currently hold material `m`.
fn row_matches(mask: &Vec<u8>, mw: usize, mh: usize, u: usize, v: usize, w: usize, m: u8) -> (r:
    bool)
    requires
        mask@.len() == mw * mh,
        0 < mw <= 64,
        mh <= 64,
        u + w <= mw,
        v < mh,
    ensures
        r == row_is(mask@, mw as int, u as int, v as int, w as int, m),
{
    let mut j: usize = 0;
    while j < w
        invariant
            j <= w,
            u + w <= mw,
            0 < mw <= 64,
            mh <= 64,
            v < mh,
            mask@.len() == mw * mh,
            forall|idx: int| v * mw + u <= idx < v * mw + u + j ==> mask@[idx] == m,
        decreases w - j,
    {
        proof {
            lemma_mask_index_bounds(mw as int, mh as int, u as int + j as int, v as int);
        }
        if mask[v * mw + (u + j)] != m {
            return false;
        }
        j = j + 1;
    }
    true
}

/// Sweeps one face mask, merging exposed faces into maximal rectangles, and
/// appends the resulting quads to `out`. Consumes the mask contents, leaving
/// the scratch vector sized for reuse.
pub fn greedy_mesh_mask(
    mask: &mut Vec<u8>,
    mw: usize,
    mh: usize,
    dir: u8,
    layer: usize,
    out: &mut Vec<Quad>,
)
    requires
        old(mask)@.len() == mw * mh,
        mw <= 64,
        mh <= 64,
    ensures
        final(out)@ == old(out)@ + greedy_quads(old(mask)@, mw as int, mh as int, 0, dir, layer),
        final(mask)@.len() == mw * mh,
{
    proof {
        assert(mw * mh <= 64 * 64) by (nonlinear_arith)
            requires
                0 <= mw <= 64,
                0 <= mh <= 64,
        ;
    }
    let n: usize = mw * mh;
    let mut i: usize = 0;
    let mut uc: usize = 0;
    let mut vc: usize = 0;
    while i < n
        invariant
            i <= n,
            n == mw * mh,
            mw <= 64,
            mh <= 64,
            mask@.len() == n,
            i == vc * mw + uc,
            mw > 0 ==> uc < mw,
            vc <= mh,
            vc * mw <= 64 * 64,
            out@ + greedy_quads(mask@, mw as int, mh as int, i as int, dir, layer) == old(out)@
                + greedy_quads(old(mask)@, mw as int, mh as int, 0, dir, layer),
        decreases n - i,
    {
        proof {
            assert(mw > 0 && mh > 0) by (nonlinear_arith)
                requires
                    0 <= i < mw * mh,
            ;
            assert(vc < mh) by (nonlinear_arith)
                requires
                    i == vc * mw + uc,
                    0 <= uc < mw,
                    i < mw * mh,
                    0 <= vc,
            ;
            lemma_mask_index_bounds(mw as int, mh as int, uc as int, vc as int);
            lemma_fundamental_div_mod_converse(i as int, mw as int, vc as int, uc as int);
        }
        let m = mask[i];
        if m == EMPTY_VOXEL {
            proof {
                assert(greedy_quads(mask@, mw as int, mh as int, i as int, dir, layer)
                    == greedy_quads(mask@, mw as int, mh as int, i as int + 1, dir, layer));
            }
        } else {
            let ghost pre = mask@;
            let ghost out_pre = out@;
            proof {
                assert(vc * mw + mw <= mw * mh) by (nonlinear_arith)
                    requires
                        0 <= vc,
                        (vc as int) < (mh as int),
                        0 <= mw,
                        0 <= mh,
                ;
            }
            // Grow the rectangle to the right while the row keeps the material.
            let mut w: usize = 1;
            while uc + w < mw && mask[vc * mw + (uc + w)] == m
                invariant
                    1 <= w,
                    uc + w <= mw,
                    mw <= 64,
                    mh <= 64,
                    uc < mw,
                    vc < mh,
                    vc * mw <= 64 * 64,
                    vc * mw + mw <= mw * mh,
                    mask@.len() == mw * mh,
                    mask@ == pre,
                    forall|idx: int|
                        vc * mw + uc <= idx < vc * mw + uc + w ==> mask@[idx] == m,
                decreases mw - (uc + w),
            {
                proof {
                    lemma_mask_index_bounds(mw as int, mh as int, uc as int + w as int, vc as int);
                }
                w = w + 1;
            }
            // Grow the rectangle downwards while whole rows keep the material.
            let mut h: usize = 1;
            while vc + h < mh && row_matches(mask, mw, mh, uc, vc + h, w, m)
                invariant
                    1 <= h,
                    vc + h <= mh,
                    mw <= 64,
                    mh <= 64,
                    uc < mw,
                    vc < mh,
                    uc + w <= mw,
                    mask@.len() == mw * mh,
                    mask@ == pre,
                    forall|r: int|
                        vc <= r < vc + h ==> #[trigger] row_is(
                            mask@,
                            mw as int,
                            uc as int,
                            r,
                            w as int,
                            m,
                        ),
                decreases mh - (vc + h),
            {
                h = h + 1;
            }
            proof {
                lemma_run_w_char(pre, mw as int, uc as int, vc as int, m, w as int);
                lemma_run_h_char(
                    pre,
                    mw as int,
                    mh as int,
                    uc as int,
                    vc as int,
                    w as int,
                    m,
                    h as int,
                );
            }
            let q = Quad { dir, layer, u: uc, v: vc, w, h, material: m };
            out.push(q);
            // Consume the rectangle so later sweep positions skip it.
            let mut j: usize = 0;
            while j < n
                invariant
                    j <= n,
                    n == mw * mh,
                    0 < mw <= 64,
                    mh <= 64,
                    uc < mw,
                    vc < mh,
                    uc + w <= mw,
                    vc + h <= mh,
                    mask@.len() == n,
                    pre.len() == n,
                    forall|idx: int|
                        0 <= idx < j ==> mask@[idx] == (if in_rect(
                            idx,
                            mw as int,
                            uc as int,
                            vc as int,
                            w as int,
                            h as int,
                        ) {
                            EMPTY_VOXEL
                        } else {
                            pre[idx]
                        }),
                    forall|idx: int| j <= idx < n ==> mask@[idx] == pre[idx],
                decreases n - j,
            {
                let cu = j % mw;
                let cv = j / mw;
                if uc <= cu && cu < uc + w && vc <= cv && cv < vc + h {
                    mask[j] = EMPTY_VOXEL;
                }
                j = j + 1;
            }
            proof {
                let mwi = mw as int;
                let mhi = mh as int;
                let ui = uc as int;
                let vi = vc as int;
                let wi = w as int;
                let hi = h as int;
                let cleared = clear_rect(pre, mwi, ui, vi, wi, hi);
                assert(mask@ =~= cleared);
                assert(pre[i as int] == m);
                assert(greedy_quads(pre, mwi, mhi, i as int, dir, layer) == seq![q]
                    + greedy_quads(cleared, mwi, mhi, i as int + 1, dir, layer));
                assert(out@ =~= out_pre + seq![q]);
                assert((out_pre + seq![q]) + greedy_quads(cleared, mwi, mhi, i as int + 1, dir, layer)
                    =~= out_pre + (seq![q] + greedy_quads(
                    cleared,
                    mwi,
                    mhi,
                    i as int + 1,
                    dir,
                    layer,
                )));
            }
        }
        i = i + 1;
        uc = uc + 1;
        if uc == mw {
            proof {
                assert((vc as int + 1) * (mw as int) == vc as int * mw as int + mw as int)
                    by (nonlinear_arith);
                assert((vc as int + 1) * (mw as int) <= 64 * 64) by (nonlinear_arith)
                    requires
                        0 <= vc,
                        vc as int + 1 <= mh as int,
                        0 <= mw <= 64,
                        mh <= 64,
                ;
            }
            uc = 0;
            vc = vc + 1;
        }
    }
    proof {
        assert(greedy_quads(mask@, mw as int, mh as int, i as int, dir, layer) =~= Seq::<
            Quad,
        >::empty());
        assert(out@ + Seq::<Quad>::empty() =~= out@);
    }
}

/// Fills `mask` with the face mask of direction `dir`, layer `layer` of the
/// padded grid.
fn build_face_mask(buffer: &ChunkBuffer, dir: u8, layer: usize, mask: &mut Vec<u8>)
    requires
        buffer.wf(),
        dir < 6,
        1 <= layer < axis_dim(buffer@, dir_axis(dir as int)) - 1,
    ensures
        final(mask)@ == face_mask(buffer@, dir as int, layer as int),
{
    let a: u8 = dir / 2;
    let positive: bool = dir % 2 == 1;
    let mw: usize;
    let mh: usize;
    if a == 0 {
        mw = buffer.shape.sy - 2;
        mh = buffer.shape.sz - 2;
    } else if a == 1 {
        mw = buffer.shape.sx - 2;
        mh = buffer.shape.sz - 2;
    } else {
        mw = buffer.shape.sx - 2;
        mh = buffer.shape.sy - 2;
    }
    proof {
        assert(mw == mask_width(buffer@, dir as int));
        assert(mh == mask_height(buffer@, dir as int));
        assert(mw * mh <= 64 * 64) by (nonlinear_arith)
            requires
                0 <= mw <= 64,
                0 <= mh <= 64,
        ;
    }
    mask.clear();
    let n: usize = mw * mh;
    let mut j: usize = 0;
    let mut cu: usize = 0;
    let mut cv: usize = 0;
    while j < n
        invariant
            j <= n,
            n == mw * mh,
            mw <= 64,
            mh <= 64,
            j == cv * mw + cu,
            mw > 0 ==> cu < mw,
            cv <= mh,
            cv * mw <= 64 * 64,
            mask@.len() == j,
            buffer.wf(),
            dir < 6,
            a == dir / 2,
            positive == (dir % 2 == 1),
            1 <= layer < axis_dim(buffer@, dir_axis(dir as int)) - 1,
            mw == mask_width(buffer@, dir as int),
            mh == mask_height(buffer@, dir as int),
            forall|idx: int|
                0 <= idx < j ==> mask@[idx] == face_visible_mat(
                    buffer@,
                    dir as int,
                    layer as int,
                    idx % (mw as int),
                    idx / (mw as int),
                ),
        decreases n - j,
    {
        proof {
            assert(mw > 0 && mh > 0) by (nonlinear_arith)
                requires
                    0 <= j < mw * mh,
            ;
            assert(cv < mh) by (nonlinear_arith)
                requires
                    j == cv * mw + cu,
                    0 <= cu < mw,
                    j < mw * mh,
                    0 <= cv,
            ;
            lemma_fundamental_div_mod_converse(j as int, mw as int, cv as int, cu as int);
        }
        let gu = cu + 1;
        let gv = cv + 1;
        let nlayer = if positive {
            layer + 1
        } else {
            layer - 1
        };
        let x: usize;
        let y: usize;
        let z: usize;
        let nx: usize;
        let ny: usize;
        let nz: usize;
        if a == 0 {
            x = layer;
            y = gu;
            z = gv;
            nx = nlayer;
            ny = gu;
            nz = gv;
        } else if a == 1 {
            x = gu;
            y = layer;
            z = gv;
            nx = gu;
            ny = nlayer;
            nz = gv;
        } else {
            x = gu;
            y = gv;
            z = layer;
            nx = gu;
            ny = gv;
            nz = nlayer;
        }
        let mc = buffer.voxel(x, y, z);
        let nm = buffer.voxel(nx, ny, nz);
        let val = if mc != EMPTY_VOXEL && nm != mc {
            mc
        } else {
            EMPTY_VOXEL
        };
        mask.push(val);
        proof {
            assert(val == face_visible_mat(buffer@, dir as int, layer as int, cu as int, cv as int));
        }
        j = j + 1;
        cu = cu + 1;
        if cu == mw {
            proof {
                assert((cv as int + 1) * (mw as int) == cv as int * mw as int + mw as int)
                    by (nonlinear_arith);
                assert((cv as int + 1) * (mw as int) <= 64 * 64) by (nonlinear_arith)
                    requires
                        0 <= cv,
                        cv as int + 1 <= mh as int,
                        0 <= mw <= 64,
                        mh <= 64,
                ;
            }
            cu = 0;
            cv = cv + 1;
        }
    }
    proof {
        assert(mask@ =~= face_mask(buffer@, dir as int, layer as int));
    }
}

/// Per-worker reusable scratch memory for the meshing algorithm: allocated on
/// first use and retained, so repeat meshing on the same worker does not
/// allocate afresh.
pub struct MeshBuffers {
    pub mask: Vec<u8>,
}

impl MeshBuffers {
    pub fn new() -> (r: Self)
        ensures
            r.mask@.len() == 0,
    {
        MeshBuffers { mask: Vec::new() }
    }
}

/// Explicitly owned, worker-indexed pool of meshing scratch buffers: each
/// worker acquires its own slot by worker identity, never through an ambient
/// global lookup, and sequential tasks on one worker reuse the same slot.
pub struct BufferPool {
    pub slots: Vec<MeshBuffers>,
}

impl BufferPool {
    /// A pool with one scratch slot per worker of a fixed-size worker pool.
    pub fn new(workers: usize) -> (r: Self)
        ensures
            r.slots@.len() == workers,
    {
        let mut slots: Vec<MeshBuffers> = Vec::new();
        let mut i: usize = 0;
        while i < workers
            invariant
                i <= workers,
                slots@.len() == i,
            decreases workers - i,
        {
            slots.push(MeshBuffers::new());
            i = i + 1;
        }
        BufferPool { slots }
    }

    pub fn workers(&self) -> (n: usize)
        ensures
            n == self.slots@.len(),
    {
        self.slots.len()
    }
}

/// The geometry content of a chunk's renderable mesh: a triangle-list buffer
/// represented by its merged quads, two triangles per quad.
pub struct ChunkMesh {
    pub quads: Vec<Quad>,
}

impl View for ChunkMesh {
    type V = Seq<Quad>;

    open spec fn view(&self) -> Seq<Quad> {
        self.quads@
    }
}

impl Clone for ChunkMesh {
    fn clone(&self) -> (r: Self)
        ensures
            r@ == self@,
    {
        let quads = self.quads.clone();
        proof {
            assert(quads@ =~= self.quads@);
        }
        ChunkMesh { quads }
    }
}

impl ChunkMesh {
    pub fn new() -> (r: Self)
        ensures
            r@.len() == 0,
    {
        ChunkMesh { quads: Vec::new() }
    }

    /// Number of triangles in the triangle list this mesh stands for.
    pub fn triangle_count(&self) -> (n: usize)
        requires
            self@.len() * 2 <= usize::MAX,
        ensures
            n == self@.len() * 2,
    {
        self.quads.len() * 2
    }
}

/// One vertex position of the output geometry, in scaled world units.
#[derive(Clone, Copy, PartialEq, Eq, Structural, Debug)]
pub struct Vertex {
    pub x: u32,
    pub y: u32,
    pub z: u32,
}

/// Grid-unit position of one corner of a quad: the face plane sits at the
/// far side of the voxel layer for positive directions, and corner
/// `(du, dv)` selects which end of the merged extent.
pub open spec fn corner_pos(q: Quad, du: int, dv: int, scale: int) -> (int, int, int) {
    let a = dir_axis(q.dir as int);
    let plane = if dir_positive(q.dir as int) {
        q.layer + 1
    } else {
        q.layer as int
    };
    let c = face_cell(a, plane, q.u + 1 + du, q.v + 1 + dv);
    (c.0 * scale, c.1 * scale, c.2 * scale)
}

/// Mask-plane offset of corner `c` of a `w` by `h` quad, in the order
/// origin, across, across-and-down, down.
pub open spec fn corner_offsets(c: int, w: int, h: int) -> (int, int) {
    if c == 0 {
        (0, 0)
    } else if c == 1 {
        (w, 0)
    } else if c == 2 {
        (w, h)
    } else {
        (0, h)
    }
}

/// The four corner positions of a quad, in a fixed order over the mask
/// plane, each scaled by the fixed per-voxel size (the unit cube when
/// `scale` is one).
pub fn quad_corners(q: &Quad, scale: u32) -> (r: Vec<Vertex>)
    requires
        q.layer < 66,
        q.u + q.w <= 64,
        q.v + q.h <= 64,
        scale * 132 <= u32::MAX,
    ensures
        r@.len() == 4,
        forall|c: int|
            0 <= c < 4 ==> {
                let duv = corner_offsets(c, q.w as int, q.h as int);
                let p = corner_pos(*q, duv.0, duv.1, scale as int);
                (#[trigger] r@[c]).x == p.0 && r@[c].y == p.1 && r@[c].z == p.2
            },
{
    let a: u8 = q.dir / 2;
    let positive: bool = q.dir % 2 == 1;
    let plane: usize = if positive {
        q.layer + 1
    } else {
        q.layer
    };
    let mut r: Vec<Vertex> = Vec::new();
    let mut c: usize = 0;
    while c < 4
        invariant
            c <= 4,
            r@.len() == c,
            a == q.dir / 2,
            positive == (q.dir % 2 == 1),
            plane == (if dir_positive(q.dir as int) {
                q.layer + 1
            } else {
                q.layer as int
            }),
            q.layer < 66,
            q.u + q.w <= 64,
            q.v + q.h <= 64,
            scale * 132 <= u32::MAX,
            forall|c2: int|
                0 <= c2 < c ==> {
                    let duv = corner_offsets(c2, q.w as int, q.h as int);
                    let p = corner_pos(*q, duv.0, duv.1, scale as int);
                    (#[trigger] r@[c2]).x == p.0 && r@[c2].y == p.1 && r@[c2].z == p.2
                },
        decreases 4 - c,
    {
        let du: usize = if c == 1 || c == 2 {
            q.w
        } else {
            0
        };
        let dv: usize = if c >= 2 {
            q.h
        } else {
            0
        };
        let gu: u32 = (q.u + 1 + du) as u32;
        let gv: u32 = (q.v + 1 + dv) as u32;
        let pl: u32 = plane as u32;
        let (x, y, z): (u32, u32, u32) = if a == 0 {
            (pl, gu, gv)
        } else if a == 1 {
            (gu, pl, gv)
        } else {
            (gu, gv, pl)
        };
        proof {
            assert((x as int) * (scale as int) <= u32::MAX && (y as int) * (scale as int)
                <= u32::MAX && (z as int) * (scale as int) <= u32::MAX) by (nonlinear_arith)
                requires
                    0 <= x <= 132,
                    0 <= y <= 132,
                    0 <= z <= 132,
                    0 <= scale,
                    (scale as int) * 132 <= u32::MAX,
            ;
        }
        r.push(Vertex { x: x * scale, y: y * scale, z: z * scale });
        c = c + 1;
    }
    r
}

/// Runs the greedy meshing algorithm over a padded voxel grid, producing the
/// full triangle-list geometry in `out`. The output is exactly
/// `mesh_spec` of the grid: a pure function of voxel contents and shape.
pub fn mesh_buffer(buffer: &ChunkBuffer, scratch: &mut MeshBuffers, out: &mut ChunkMesh)
    requires
        buffer.wf(),
    ensures
        final(out)@ == mesh_spec(buffer@),
{
    out.quads.clear();
    let mut dir: u8 = 0;
    while dir < 6
        invariant
            dir <= 6,
            buffer.wf(),
            out.quads@ + mesh_dirs(buffer@, dir as int) == mesh_spec(buffer@),
        decreases 6 - dir,
    {
        let a = dir / 2;
        let dim_a: usize = if a == 0 {
            buffer.shape.sx
        } else if a == 1 {
            buffer.shape.sy
        } else {
            buffer.shape.sz
        };
        proof {
            assert(dim_a == axis_dim(buffer@, dir_axis(dir as int)));
            assert(mesh_dirs(buffer@, dir as int) == dir_quads(buffer@, dir as int, 1) + mesh_dirs(
                buffer@,
                dir as int + 1,
            ));
            assert(out.quads@ + (dir_quads(buffer@, dir as int, 1) + mesh_dirs(
                buffer@,
                dir as int + 1,
            )) =~= (out.quads@ + dir_quads(buffer@, dir as int, 1)) + mesh_dirs(
                buffer@,
                dir as int + 1,
            ));
        }
        let mut layer: usize = 1;
        while layer < dim_a - 1
            invariant
                1 <= layer <= dim_a - 1,
                2 <= dim_a,
                buffer.wf(),
                dir < 6,
                a == dir / 2,
                dim_a == axis_dim(buffer@, dir_axis(dir as int)),
                (out.quads@ + dir_quads(buffer@, dir as int, layer as int)) + mesh_dirs(
                    buffer@,
                    dir as int + 1,
                ) == mesh_spec(buffer@),
            decreases dim_a - layer,
        {
            build_face_mask(buffer, dir, layer, &mut scratch.mask);
            let mw: usize;
            let mh: usize;
            if a == 0 {
                mw = buffer.shape.sy - 2;
                mh = buffer.shape.sz - 2;
            } else if a == 1 {
                mw = buffer.shape.sx - 2;
                mh = buffer.shape.sz - 2;
            } else {
                mw = buffer.shape.sx - 2;
                mh = buffer.shape.sy - 2;
            }
            let ghost mask_pre = scratch.mask@;
            let ghost out_pre = out.quads@;
            proof {
                assert(mw == mask_width(buffer@, dir as int));
                assert(mh == mask_height(buffer@, dir as int));
                assert(mask_pre.len() == mw * mh);
            }
            greedy_mesh_mask(&mut scratch.mask, mw, mh, dir, layer, &mut out.quads);
            proof {
                let g = greedy_quads(mask_pre, mw as int, mh as int, 0, dir, layer);
                assert(g == layer_quads(buffer@, dir as int, layer as int));
                assert(dir_quads(buffer@, dir as int, layer as int) == layer_quads(
                    buffer@,
                    dir as int,
                    layer as int,
                ) + dir_quads(buffer@, dir as int, layer as int + 1));
                assert((out_pre + g) + dir_quads(buffer@, dir as int, layer as int + 1) =~= out_pre
                    + (g + dir_quads(buffer@, dir as int, layer as int + 1)));
                assert(out.quads@ == out_pre + g);
            }
            layer = layer + 1;
        }
        proof {
            assert(dir_quads(buffer@, dir as int, layer as int) =~= Seq::<Quad>::empty());
            assert(out.quads@ + Seq::<Quad>::empty() =~= out.quads@);
            assert(out.quads@ + dir_quads(buffer@, dir as int, layer as int) =~= out.quads@);
        }
        dir = dir + 1;
    }
    proof {
        assert(mesh_dirs(buffer@, 6) =~= Seq::<Quad>::empty());
        assert(out.quads@ + Seq::<Quad>::empty() =~= out.quads@);
    }
}

} // verus!
