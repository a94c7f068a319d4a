//! Management of variable-sized geometry batches inside fixed-capacity
//! device memory pools.
//!
//! Chunk meshes arrive as byte payloads, are staged in a per-frame linear
//! ring, placed into bump-allocation regions by score, compacted by a
//! bounded per-frame sweep when regions fragment, and described to the GPU
//! culling pass through a compact per-batch table.
//!
//! The crate models the device-visible buffers (geometry pools, the batch
//! description table, the per-chunk metadata table and the staging rings)
//! as byte vectors, and every mutation of them is driven by explicit copy
//! commands that the allocator also returns to its caller, so a renderer
//! can replay exactly the same copies on real device memory.

pub mod batch;
pub mod byteops;
pub mod chunk_mesh_manager;
pub mod commands;
pub mod ids;
pub mod manager;
pub mod meshes;
pub mod pool;
pub mod region;
pub mod staging;
pub mod sums;
pub mod tiles;
