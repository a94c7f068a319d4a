//! Per-chunk mesh bookkeeping over the geometry pool manager.
//!
//! Each submitted chunk mesh resolves to a batch identifier (fresh the
//! first time, reused on re-mesh), its quads are staged into the frame's
//! ring, and the staged uploads are handed to the pool manager's placement
//! and sweep passes.  A parallel per-chunk metadata table (position and
//! liveness flags) is kept for the culling pass, indexed by the same
//! identifiers.

use vstd::prelude::*;

use crate::batch::spec_desc_entry;
use crate::byteops::{spec_u32_le, u32_le, write_bytes_at};
use crate::commands::{spec_cmd_phase, spec_cmds_phase_ordered, BufferId, CopyCommand};
use crate::ids::IDManager;
use crate::manager::{BatchUpload, PrimativeManager};
use crate::meshes::{quads_to_bytes, ChunkMesh};
use crate::staging::StencilBuffer;

verus! {

/// What happened to a chunk since the last metadata upload.
#[derive(Clone, Copy, Debug, PartialEq, Eq, Structural)]
pub enum ChunkUpdate {
    Removed,
    Inserted,
}

/// One entry of the per-chunk metadata table: grid position and liveness
/// flags.
#[derive(Clone, Copy, Debug)]
pub struct ChunkGPUBufferData {
    pub pos: [i32; 3],
    pub flags: u32,
}

/// The sixteen bytes a chunk's metadata occupies on the device.
pub open spec fn spec_chunk_entry(c: ChunkGPUBufferData) -> Seq<u8> {
    spec_u32_le(c.pos[0] as u32) + spec_u32_le(c.pos[1] as u32) + spec_u32_le(c.pos[2] as u32)
        + spec_u32_le(c.flags)
}

/// Encode one chunk metadata entry.
fn chunk_entry_bytes(c: &ChunkGPUBufferData) -> (r: Vec<u8>)
    ensures
        r@ == spec_chunk_entry(*c),
        r@.len() == 16,
{
    let mut v: Vec<u8> = Vec::new();
    let a = u32_le(c.pos[0] as u32);
    let b = u32_le(c.pos[1] as u32);
    let d = u32_le(c.pos[2] as u32);
    let f = u32_le(c.flags);
    v.push(a[0]);
    v.push(a[1]);
    v.push(a[2]);
    v.push(a[3]);
    v.push(b[0]);
    v.push(b[1]);
    v.push(b[2]);
    v.push(b[3]);
    v.push(d[0]);
    v.push(d[1]);
    v.push(d[2]);
    v.push(d[3]);
    v.push(f[0]);
    v.push(f[1]);
    v.push(f[2]);
    v.push(f[3]);
    proof {
        assert(v@ =~= spec_chunk_entry(*c));
    }
    v
}

/// A known chunk position and the batch identifier it resolved to.
#[derive(Clone, Copy, Debug)]
pub struct ChunkEntry {
    pub pos: [i32; 3],
    pub id: u32,
}

/// Turns queued chunk meshes into staged geometry uploads, drives the pool
/// manager once per frame, and keeps the per-chunk metadata table in step.
pub struct ChunkMeshManager {
    /// Which batch identifier each known chunk position uses.
    pub chunk_ids: Vec<ChunkEntry>,
    /// Issues and reclaims batch identifiers.
    pub id_man: IDManager,
    /// Capacity of the identifier space and of both device tables.
    pub id_cap: u32,
    /// Model of the per-chunk metadata table: sixteen bytes per identifier.
    pub chunk_buffer: Vec<u8>,
    /// Placement, compaction and description bookkeeping for the opaque
    /// geometry.
    pub opaque_meshes: PrimativeManager,
    /// One staging ring per in-flight frame slot.
    pub stencil_buffers: Vec<StencilBuffer>,
    /// Meshes waiting to be staged.
    pub queued_meshes: Vec<ChunkMesh>,
    /// Chunk positions (with their identifiers) whose metadata entry needs
    /// re-upload.
    pub updated_chunks: Vec<([i32; 3], u32, ChunkUpdate)>,
}

/// Whether an upload for `id` is already pending.
fn uploads_contain(uploads: &Vec<BatchUpload>, id: u32) -> (r: bool)
    ensures
        r == exists|j: int| 0 <= j < uploads@.len() && (#[trigger] uploads@[j]).id == id,
{
    let n = uploads.len();
    let mut k: usize = 0;
    while k < n
        invariant
            n == uploads@.len(),
            k <= n,
            forall|j: int| 0 <= j < k ==> (#[trigger] uploads@[j]).id != id,
        decreases n - k,
    {
        if uploads[k].id == id {
            proof {
                assert(uploads@[k as int].id == id);
            }
            return true;
        }
        k = k + 1;
    }
    false
}

/// Whether a chunk position was already handled this frame.
fn pos_in(handled: &Vec<[i32; 3]>, pos: [i32; 3]) -> (r: bool)
    ensures
        r == exists|j: int| 0 <= j < handled@.len() && handled@[j] == pos,
{
    let n = handled.len();
    let mut k: usize = 0;
    while k < n
        invariant
            n == handled@.len(),
            k <= n,
            forall|j: int| 0 <= j < k ==> handled@[j] != pos,
        decreases n - k,
    {
        let e = handled[k];
        if e[0] == pos[0] && e[1] == pos[1] && e[2] == pos[2] {
            proof {
                assert(e =~= pos);
                assert(handled@[k as int] == pos);
            }
            return true;
        }
        proof {
            assert(handled@[k as int] != pos) by {
                if handled@[k as int] == pos {
                    assert(e[0] == pos[0] && e[1] == pos[1] && e[2] == pos[2]);
                }
            }
        }
        k = k + 1;
    }
    false
}

impl ChunkMeshManager {
    /// The newest queued mesh cannot be handled this frame at all: its
    /// payload exceeds the whole ring, or it needs a fresh identifier and
    /// the identifier space is exhausted.
    pub open spec fn spec_head_blocked(&self, ring_capacity: int) -> bool {
        let m = self.queued_meshes@.last();
        ||| 8 * m.quads@.len() > ring_capacity
        ||| (m.quads@.len() > 0 && self.id_man.free_ids@.len() == 0 && self.id_man.id_counter
            >= self.id_cap && (forall|k: int|
            0 <= k < self.chunk_ids@.len() ==> (#[trigger] self.chunk_ids@[k]).pos != m.pos))
    }

    pub open spec fn wf(&self) -> bool {
        &&& self.id_man.wf()
        &&& self.id_man.id_counter <= self.id_cap
        &&& self.id_cap < u32::MAX
        &&& forall|k: int|
            0 <= k < self.chunk_ids@.len() ==> (#[trigger] self.chunk_ids@[k]).id < self.id_cap
                && self.chunk_ids@[k].id < self.id_man.id_counter
        &&& self.opaque_meshes.wf()
        &&& self.opaque_meshes.max_id == self.id_cap
        &&& self.opaque_meshes.primative_size == 8
        &&& self.chunk_buffer@.len() == self.id_cap as int * 16
        &&& forall|k: int|
            0 <= k < self.updated_chunks@.len() ==> (#[trigger] self.updated_chunks@[k]).1
                < self.id_cap
        &&& forall|k: int|
            0 <= k < self.stencil_buffers@.len() ==> (#[trigger] self.stencil_buffers@[k]).wf()
                && self.stencil_buffers@[k].data@.len() <= u32::MAX
    }

    /// Highest batch identifier ever issued.
    pub fn get_max_chunk_id(&self) -> (r: u32)
        ensures
            r == self.id_man.id_counter,
    {
        self.id_man.id_counter
    }

    /// The per-chunk metadata table.
    pub fn get_chunk_buffer(&self) -> (r: &Vec<u8>)
        ensures
            r@ == self.chunk_buffer@,
    {
        &self.chunk_buffer
    }

    /// The geometry pool manager for the opaque meshes.
    pub fn get_opaque_meshes(&self) -> (r: &PrimativeManager)
        ensures
            *r == self.opaque_meshes,
    {
        &self.opaque_meshes
    }

    /// How many batches are live.
    pub fn total_batch_count(&self) -> (r: u32)
        requires
            self.wf(),
        ensures
            r == PrimativeManager::spec_live_count(self.opaque_meshes.batches@),
    {
        self.opaque_meshes.batch_count()
    }

    /// Queue freshly generated chunk meshes for the next flush.
    pub fn submit_meshes(&mut self, meshes: Vec<ChunkMesh>)
        requires
            old(self).wf(),
        ensures
            final(self).wf(),
            final(self).queued_meshes@ == old(self).queued_meshes@ + meshes@,
            final(self).chunk_ids@ == old(self).chunk_ids@,
            final(self).id_man == old(self).id_man,
            final(self).id_cap == old(self).id_cap,
            final(self).opaque_meshes == old(self).opaque_meshes,
            final(self).chunk_buffer@ == old(self).chunk_buffer@,
            final(self).updated_chunks@ == old(self).updated_chunks@,
            final(self).stencil_buffers@ == old(self).stencil_buffers@,
    {
        let mut meshes = meshes;
        self.queued_meshes.append(&mut meshes);
    }

    /// Forget a chunk position's entry (used when its mesh becomes empty).
    fn remove_chunk_entry(&mut self, pos: [i32; 3])
        requires
            old(self).wf(),
            exists|k: int|
                0 <= k < old(self).chunk_ids@.len() && (#[trigger] old(self).chunk_ids@[k]).pos
                    == pos,
        ensures
            final(self).wf(),
            final(self).chunk_ids@.len() == old(self).chunk_ids@.len() - 1,
            *final(self) == (ChunkMeshManager { chunk_ids: final(self).chunk_ids, ..*old(self) }),
            forall|k: int|
                0 <= k < final(self).chunk_ids@.len() ==> old(self).chunk_ids@.contains(
                    #[trigger] final(self).chunk_ids@[k],
                ),
    {
        let n = self.chunk_ids.len();
        let mut k: usize = 0;
        while k < n
            invariant
                self == old(self),
                self.wf(),
                n == self.chunk_ids@.len(),
                k <= n,
                exists|j: int|
                    k <= j < self.chunk_ids@.len() && (#[trigger] self.chunk_ids@[j]).pos == pos,
            decreases n - k,
        {
            let e = self.chunk_ids[k];
            if e.pos[0] == pos[0] && e.pos[1] == pos[1] && e.pos[2] == pos[2] {
                let ghost before = self.chunk_ids@;
                self.chunk_ids.swap_remove(k);
                proof {
                    assert forall|m: int|
                        0 <= m < self.chunk_ids@.len() implies before.contains(
                        #[trigger] self.chunk_ids@[m],
                    ) && self.chunk_ids@[m].id < self.id_cap && self.chunk_ids@[m].id
                        < self.id_man.id_counter by {
                        if m == k {
                            assert(self.chunk_ids@[m] == before[before.len() - 1]);
                        } else {
                            assert(self.chunk_ids@[m] == before[m]);
                        }
                    }
                }
                return ;
            }
            proof {
                let j = choose|j: int|
                    k <= j < self.chunk_ids@.len() && (#[trigger] self.chunk_ids@[j]).pos == pos;
                assert(j != k) by {
                    if j == k {
                        assert(e.pos[0] == pos[0] && e.pos[1] == pos[1] && e.pos[2] == pos[2]);
                    }
                }
            }
            k = k + 1;
        }
        proof {
            assert(false);
        }
    }

    /// The identifier a chunk position resolved to earlier, if any.
    fn lookup_chunk(&self, pos: [i32; 3]) -> (r: Option<u32>)
        ensures
            r is Some ==> exists|k: int|
                0 <= k < self.chunk_ids@.len() && (#[trigger] self.chunk_ids@[k]).id
                    == r->Some_0 && self.chunk_ids@[k].pos == pos,
            r is None ==> forall|k: int|
                0 <= k < self.chunk_ids@.len() ==> (#[trigger] self.chunk_ids@[k]).pos != pos,
    {
        let n = self.chunk_ids.len();
        let mut k: usize = 0;
        while k < n
            invariant
                n == self.chunk_ids@.len(),
                k <= n,
                forall|j: int| 0 <= j < k ==> (#[trigger] self.chunk_ids@[j]).pos != pos,
            decreases n - k,
        {
            let e = self.chunk_ids[k];
            if e.pos[0] == pos[0] && e.pos[1] == pos[1] && e.pos[2] == pos[2] {
                proof {
                    assert(e.pos =~= pos);
                    assert(self.chunk_ids@[k as int].id == e.id);
                }
                return Some(e.id);
            }
            proof {
                assert(self.chunk_ids@[k as int].pos != pos) by {
                    if self.chunk_ids@[k as int].pos == pos {
                        assert(e.pos[0] == pos[0] && e.pos[1] == pos[1] && e.pos[2] == pos[2]);
                    }
                }
            }
            k = k + 1;
        }
        None
    }

    /// A manager with the default sizes: eight-byte primitives, regions of
    /// 128000 primitives, an identifier space of 100000 batches, and two
    /// ten-megabyte staging rings (one per in-flight frame slot).
    pub fn new() -> (r: ChunkMeshManager)
        ensures
            r.wf(),
            r.id_man.id_counter == 0,
            r.queued_meshes@.len() == 0,
            r.chunk_ids@.len() == 0,
            r.updated_chunks@.len() == 0,
            r.stencil_buffers@.len() == 2,
            forall|k: int|
                0 <= k < 2 ==> (#[trigger] r.stencil_buffers@[k]).data@.len() == 10_000_000
                    && r.stencil_buffers@[k].top == 0,
            r.opaque_meshes.pools@.len() == 0,
            r.id_cap == 100_000,
            r.opaque_meshes.max_id == 100_000,
            r.opaque_meshes.primative_size == 8,
            r.opaque_meshes.reigon_size == 128_000,
            r.chunk_buffer@.len() == 1_600_000,
    {
        let cap: u32 = 100_000;
        let mut stencils: Vec<StencilBuffer> = Vec::new();
        stencils.push(StencilBuffer::new(10_000_000));
        stencils.push(StencilBuffer::new(10_000_000));
        ChunkMeshManager {
            chunk_ids: Vec::new(),
            id_man: IDManager::new(),
            id_cap: cap,
            chunk_buffer: vec![0u8; 1_600_000],
            opaque_meshes: PrimativeManager::new(8, 128_000, cap),
            stencil_buffers: stencils,
            queued_meshes: Vec::new(),
            updated_chunks: Vec::new(),
        }
    }

    /// One frame's consolidation pass: reset the slot's staging ring, stage
    /// up to 100 queued meshes (assigning identifiers as needed; a mesh
    /// that no longer fits the ring is requeued for next frame), run the
    /// placement pass, then the sweep and description sync, then upload the
    /// pending chunk metadata entries.  Returns the frame's device copy
    /// commands in submission order.
    #[verifier::rlimit(50)]
    pub fn flush_stencil(&mut self, frame_index: usize) -> (cmds: Vec<CopyCommand>)
        requires
            old(self).wf(),
            frame_index < old(self).stencil_buffers@.len(),
            old(self).opaque_meshes.pools@.len() + 103 <= u32::MAX,
        ensures
            final(self).wf(),
            final(self).stencil_buffers@.len() == old(self).stencil_buffers@.len(),
            final(self).queued_meshes@.len() <= old(self).queued_meshes@.len(),
            final(self).queued_meshes@ == old(self).queued_meshes@.take(
                final(self).queued_meshes@.len() as int,
            ),
            final(self).id_cap == old(self).id_cap,
            old(self).id_man.id_counter <= final(self).id_man.id_counter,
            old(self).queued_meshes@.len() - 100 <= final(self).queued_meshes@.len(),
            forall|k: int|
                0 <= k < old(self).stencil_buffers@.len() && k != frame_index ==> final(self)
                    .stencil_buffers@[k] == old(self).stencil_buffers@[k],
            final(self).stencil_buffers@[frame_index as int].data@.len() == old(
                self,
            ).stencil_buffers@[frame_index as int].data@.len(),
            old(self).queued_meshes@.len() > 0 ==> final(self).queued_meshes@.len() < old(
                self,
            ).queued_meshes@.len() || old(self).spec_head_blocked(
                old(self).stencil_buffers@[frame_index as int].data@.len() as int,
            ),
            final(self).opaque_meshes.updated_batches@.len() == 0 ==> forall|id: int|
                0 <= id < final(self).opaque_meshes.max_id ==> final(self)
                    .opaque_meshes.batch_description_buffer@.subrange(id * 8, id * 8 + 8)
                    == spec_desc_entry(#[trigger] final(self).opaque_meshes.batches@[id]),
            spec_cmds_phase_ordered(cmds@),
    {
        let ghost olds = *old(self);
        let ghost slot_cap = olds.stencil_buffers@[frame_index as int].data@.len() as int;
        let mut stencil = self.stencil_buffers.remove(frame_index);
        stencil.reset();
        let mut uploads: Vec<BatchUpload> = Vec::new();
        let mut handled: Vec<[i32; 3]> = Vec::new();
        let mut remaining: u32 = 100;
        while remaining > 0 && self.queued_meshes.len() > 0
            invariant
                self.wf(),
                stencil.wf(),
                stencil.data@.len() <= u32::MAX,
                stencil.data@.len() == slot_cap,
                self.id_cap == olds.id_cap,
                olds.id_man.id_counter <= self.id_man.id_counter,
                self.opaque_meshes.pools@.len() == olds.opaque_meshes.pools@.len(),
                frame_index < olds.stencil_buffers@.len(),
                self.stencil_buffers@ == olds.stencil_buffers@.remove(frame_index as int),
                self.queued_meshes@.len() <= olds.queued_meshes@.len(),
                self.queued_meshes@ == olds.queued_meshes@.take(self.queued_meshes@.len() as int),
                self.queued_meshes@.len() + 100 >= olds.queued_meshes@.len() + remaining,
                olds.queued_meshes@.len() > 0 && self.queued_meshes@.len()
                    == olds.queued_meshes@.len() ==> ((remaining == 100 && self.id_man
                    == olds.id_man && self.chunk_ids@ == olds.chunk_ids@ && self.queued_meshes@
                    == olds.queued_meshes@ && stencil.top == 0) || olds.spec_head_blocked(
                    slot_cap,
                )),
                uploads@.len() + remaining <= 100,
                forall|a: int, b: int|
                    0 <= a < b < uploads@.len() ==> uploads@[a].id != uploads@[b].id,
                forall|j: int|
                    0 <= j < uploads@.len() ==> (#[trigger] uploads@[j]).id < self.id_cap
                        && uploads@[j].byte_offset + uploads@[j].primative_count * 8
                        <= stencil.data@.len(),
            ensures
                olds.queued_meshes@.len() > 0 && self.queued_meshes@.len()
                    == olds.queued_meshes@.len() ==> olds.spec_head_blocked(slot_cap),
            decreases remaining,
        {
            let ghost pre_self = *self;
            let ghost pre_top = stencil.top;
            let ghost pre_remaining = remaining;
            let mesh = match self.queued_meshes.pop() {
                Some(m) => m,
                None => {
                    break ;
                },
            };
            proof {
                assert(self.queued_meshes@ =~= olds.queued_meshes@.take(
                    self.queued_meshes@.len() as int,
                ));
            }
            remaining = remaining - 1;
            if pos_in(&handled, mesh.pos) {
                // A newer mesh for this chunk was already handled this
                // frame; the older one is stale and dropped.
                continue ;
            }
            handled.push(mesh.pos);
            if mesh.quads.len() == 0 {
                // Zero primitives never occupy storage: a mesh that became
                // empty releases the chunk's batch and its identifier, and
                // its metadata entry is flagged removed.
                if let Some(id) = self.lookup_chunk(mesh.pos) {
                    proof {
                        let w = choose|w: int|
                            0 <= w < self.chunk_ids@.len() && (#[trigger] self.chunk_ids@[w]).id
                                == id && self.chunk_ids@[w].pos == mesh.pos;
                    }
                    let mut gone: Vec<u32> = Vec::new();
                    gone.push(id);
                    self.opaque_meshes.remove_batches(gone.as_slice());
                    self.remove_chunk_entry(mesh.pos);
                    self.id_man.free_id(id);
                    self.updated_chunks.push((mesh.pos, id, ChunkUpdate::Removed));
                }
                continue ;
            }
            let id = match self.lookup_chunk(mesh.pos) {
                Some(id) => id,
                None => {
                    if self.id_man.free_ids.len() == 0 && self.id_man.id_counter >= self.id_cap {
                        // The identifier space is exhausted; put the mesh
                        // back and stop for this frame.
                        self.queued_meshes.push(mesh);
                        proof {
                            assert(self.queued_meshes@ =~= olds.queued_meshes@.take(
                                self.queued_meshes@.len() as int,
                            ));
                            if olds.queued_meshes@.len() > 0 && self.queued_meshes@.len()
                                == olds.queued_meshes@.len() && !olds.spec_head_blocked(
                                slot_cap,
                            ) {
                                assert(pre_self.queued_meshes@.len() == olds.queued_meshes@.len());
                                assert(pre_remaining == 100 && pre_self.id_man == olds.id_man
                                    && pre_self.chunk_ids@ == olds.chunk_ids@
                                    && pre_self.queued_meshes@ == olds.queued_meshes@);
                                assert(mesh == olds.queued_meshes@.last());
                                assert(mesh.quads@.len() > 0);
                                assert(olds.id_man.free_ids@.len() == 0
                                    && olds.id_man.id_counter >= olds.id_cap);
                                assert(forall|k: int|
                                    0 <= k < olds.chunk_ids@.len() ==> (
                                    #[trigger] olds.chunk_ids@[k]).pos != mesh.pos);
                                assert(false);
                            }
                        }
                        break ;
                    }
                    let ghost pre_ids = self.chunk_ids@;
                    let id = self.id_man.new_id();
                    self.chunk_ids.push(ChunkEntry { pos: mesh.pos, id });
                    self.updated_chunks.push((mesh.pos, id, ChunkUpdate::Inserted));
                    proof {
                        assert(id < self.id_cap);
                        assert forall|k: int|
                            0 <= k < self.chunk_ids@.len() implies (
                        #[trigger] self.chunk_ids@[k]).id < self.id_cap by {
                            if k < pre_ids.len() {
                                assert(self.chunk_ids@[k] == pre_ids[k]);
                            } else {
                                assert(self.chunk_ids@[k].id == id);
                            }
                        }
                    }
                    id
                },
            };
            let payload = quads_to_bytes(&mesh.quads);
            match stencil.upload(payload.as_slice()) {
                Some(off) => {
                    if !uploads_contain(&uploads, id) {
                        let count = mesh.quads.len() as u32;
                        proof {
                            assert(8 * mesh.quads@.len() <= stencil.data@.len());
                        }
                        uploads.push(
                            BatchUpload { byte_offset: off as u32, primative_count: count, id },
                        );
                    }
                    // else: a newer mesh for the same chunk was already
                    // staged this frame; the older one is dropped.
                },
                None => {
                    // The ring is full this frame: requeue and retry next
                    // frame.
                    self.queued_meshes.push(mesh);
                    proof {
                        assert(self.queued_meshes@ =~= olds.queued_meshes@.take(
                            self.queued_meshes@.len() as int,
                        ));
                        if olds.queued_meshes@.len() > 0 && self.queued_meshes@.len()
                            == olds.queued_meshes@.len() && !olds.spec_head_blocked(slot_cap) {
                            assert(pre_self.queued_meshes@.len() == olds.queued_meshes@.len());
                            // The invariant's only other case: nothing was
                            // processed yet, so this was the newest mesh and
                            // it failed against an empty ring.
                            assert(pre_remaining == 100 && pre_top == 0
                                && pre_self.queued_meshes@ == olds.queued_meshes@);
                            assert(mesh == olds.queued_meshes@.last());
                            assert(8 * mesh.quads@.len() > slot_cap);
                            assert(false);
                        }
                    }
                    break ;
                },
            }
        }
        let placement = self.opaque_meshes.insert_batches(&stencil, uploads);
        let mut cmds = placement.0;
        let ghost place_seq = cmds@;
        let mut sweep_cmds = self.opaque_meshes.sweep_and_flush(&mut stencil);
        let ghost sf_seq = sweep_cmds@;
        cmds.append(&mut sweep_cmds);
        proof {
            assert forall|a: int, b: int|
                0 <= a < b < cmds@.len() implies spec_cmd_phase(#[trigger] cmds@[a])
                <= spec_cmd_phase(#[trigger] cmds@[b]) by {
                if a < place_seq.len() {
                    assert(cmds@[a] == place_seq[a]);
                } else {
                    assert(cmds@[a] == sf_seq[a - place_seq.len()]);
                }
                if b < place_seq.len() {
                    assert(cmds@[b] == place_seq[b]);
                } else {
                    assert(cmds@[b] == sf_seq[b - place_seq.len()]);
                }
            }
            assert forall|k: int| 0 <= k < cmds@.len() implies spec_cmd_phase(
                #[trigger] cmds@[k],
            ) <= 3 by {
                if k < place_seq.len() {
                    assert(cmds@[k] == place_seq[k]);
                } else {
                    assert(cmds@[k] == sf_seq[k - place_seq.len()]);
                }
            }
        }
        // Upload the pending chunk metadata entries, whole or not at all:
        // without room they wait for the next frame.  They go out in the
        // order they were recorded, so for a reused identifier the newest
        // entry wins.
        let pending = self.updated_chunks.len();
        if pending as u64 <= u64::MAX / 16 && stencil.remaining() >= 16 * (pending as u64) {
            let mut k: usize = 0;
            while k < pending
                invariant
                    self.wf(),
                    stencil.wf(),
                    stencil.data@.len() <= u32::MAX,
                    stencil.data@.len() == slot_cap,
                    self.queued_meshes@.len() + 100 >= olds.queued_meshes@.len(),
                    olds.queued_meshes@.len() > 0 && self.queued_meshes@.len()
                        == olds.queued_meshes@.len() ==> olds.spec_head_blocked(slot_cap),
                    spec_cmds_phase_ordered(cmds@),
                    forall|k: int|
                        0 <= k < cmds@.len() ==> spec_cmd_phase(#[trigger] cmds@[k]) <= 3,
                    self.id_cap == olds.id_cap,
                    olds.id_man.id_counter <= self.id_man.id_counter,
                    frame_index < olds.stencil_buffers@.len(),
                    self.stencil_buffers@ == olds.stencil_buffers@.remove(frame_index as int),
                    self.queued_meshes@.len() <= olds.queued_meshes@.len(),
                    self.queued_meshes@ == olds.queued_meshes@.take(
                        self.queued_meshes@.len() as int,
                    ),
                    k <= pending,
                    pending == self.updated_chunks@.len(),
                    stencil.spec_capacity() - stencil.top >= 16 * (pending - k),
                decreases pending - k,
            {
                let entry_k = self.updated_chunks[k];
                let pos = entry_k.0;
                let chunk_id = entry_k.1;
                let update = entry_k.2;
                k = k + 1;
                let flags: u32 = match update {
                    ChunkUpdate::Removed => 0x0,
                    ChunkUpdate::Inserted => 0x1,
                };
                let gpu_chunk = ChunkGPUBufferData { pos, flags };
                let entry = chunk_entry_bytes(&gpu_chunk);
                let off = match stencil.upload(entry.as_slice()) {
                    Some(o) => o,
                    None => {
                        proof {
                            assert(false);
                        }
                        break ;
                    },
                };
                let cblen = self.chunk_buffer.len();
                proof {
                    assert(chunk_id < self.id_cap);
                    assert((chunk_id as int + 1) * 16 <= self.id_cap as int * 16)
                        by (nonlinear_arith)
                        requires
                            chunk_id as int + 1 <= self.id_cap as int,
                    ;
                    assert(cblen == self.id_cap as int * 16);
                    assert((chunk_id as int) * 16 + 16 <= cblen);
                }
                write_bytes_at(&mut self.chunk_buffer, (chunk_id as usize) * 16, entry.as_slice());
                let ghost cmds_before = cmds@;
                cmds.push(
                    CopyCommand {
                        src: BufferId::Stencil,
                        dst: BufferId::ChunkData,
                        src_offset: off,
                        dst_offset: (chunk_id as u64) * 16,
                        size: 16,
                    },
                );
                proof {
                    assert(spec_cmd_phase(cmds@.last()) == 3);
                    assert forall|a: int, b: int|
                        0 <= a < b < cmds@.len() implies spec_cmd_phase(#[trigger] cmds@[a])
                        <= spec_cmd_phase(#[trigger] cmds@[b]) by {
                        if b < cmds@.len() - 1 {
                            assert(cmds@[a] == cmds_before[a] && cmds@[b] == cmds_before[b]);
                        } else {
                            assert(cmds@[a] == cmds_before[a]);
                        }
                    }
                }
            }
            self.updated_chunks.clear();
        }
        let ghost removed = self.stencil_buffers@;
        let ghost st = stencil;
        self.stencil_buffers.insert(frame_index, stencil);
        proof {
            let fi = frame_index as int;
            removed.insert_ensures(fi, st);
            assert(self.stencil_buffers@[fi] == st);
            assert forall|k: int|
                0 <= k < self.stencil_buffers@.len() implies (
            #[trigger] self.stencil_buffers@[k]).wf() && self.stencil_buffers@[k].data@.len()
                <= u32::MAX by {
                if k < fi {
                    assert(self.stencil_buffers@[k] == removed[k]);
                    assert(removed[k] == olds.stencil_buffers@[k]);
                } else if k > fi {
                    assert(self.stencil_buffers@[k] == removed[k - 1]);
                    assert(removed[k - 1] == olds.stencil_buffers@[k]);
                } else {
                    assert(self.stencil_buffers@[k] == st);
                    assert(st.wf() && st.data@.len() <= u32::MAX);
                }
            }
        }
        cmds
    }
}

} // verus!
