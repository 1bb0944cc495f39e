//! An asynchronous voxel chunk meshing pipeline and the GPU uniform
//! synchronization pipeline that feeds the terrain renderer.
//!
//! The library is organized leaf-first:
//! - [`chunk`]: chunk coordinates, padded voxel grids, the dirty set, and the
//!   externally-owned chunk storage and entity lookups.
//! - [`mesher`]: the greedy quad-merging surface extraction algorithm and the
//!   per-worker reusable scratch buffers it runs on.
//! - [`meshing`]: the per-frame scheduler and integrator that turn dirty
//!   chunks into visible geometry through an explicit task queue.
//! - [`terrain_uniforms`]: the extract/prepare/upload pipeline keeping the
//!   GPU-resident material table and render-distance setting in lockstep with
//!   CPU state.

pub mod chunk;
pub mod mesher;
pub mod meshing;
pub mod terrain_uniforms;
