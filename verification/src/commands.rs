//! Device-side copy commands.
//!
//! Every mutation of device memory the allocator wants is expressed as a
//! copy between two named buffers.  The allocator applies each command to
//! its own byte-vector model of those buffers and also returns the command,
//! so a renderer can replay the identical copies on real device buffers in
//! the same order.

use vstd::prelude::*;

verus! {

/// One device buffer the allocator copies between.
#[derive(Clone, Copy, Debug, PartialEq, Eq, Structural)]
pub enum BufferId {
    /// The frame's staging ring.
    Stencil,
    /// The geometry buffer of the pool with this index.
    Pool(u32),
    /// The batch description table read by the culling pass.
    BatchDescriptions,
    /// The per-chunk metadata table read by the culling pass.
    ChunkData,
}

/// Copy `size` bytes from `src` at `src_offset` to `dst` at `dst_offset`.
#[derive(Clone, Copy, Debug, PartialEq, Eq, Structural)]
pub struct CopyCommand {
    pub src: BufferId,
    pub dst: BufferId,
    pub src_offset: u64,
    pub dst_offset: u64,
    pub size: u64,
}

/// A frame's copies are submitted in fixed phases: placement copies into
/// the pools first, then compaction moves between pools, then description
/// re-uploads, then chunk metadata.  The culling pass runs after all of
/// them.
pub open spec fn spec_cmd_phase(c: CopyCommand) -> int {
    match c.dst {
        BufferId::Pool(_) => if c.src is Stencil {
            0
        } else {
            1
        },
        BufferId::BatchDescriptions => 2,
        BufferId::ChunkData => 3,
        BufferId::Stencil => 4,
    }
}

/// The commands keep their phase order: no copy of an earlier phase follows
/// one of a later phase.
pub open spec fn spec_cmds_phase_ordered(cmds: Seq<CopyCommand>) -> bool {
    forall|a: int, b: int|
        0 <= a < b < cmds.len() ==> spec_cmd_phase(#[trigger] cmds[a]) <= spec_cmd_phase(
            #[trigger] cmds[b],
        )
}

} // verus!
