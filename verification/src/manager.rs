//! The geometry pool manager: placement of batches into regions, removal,
//! fragmentation-driven compaction, and synchronization of the batch
//! description table consumed by the GPU culling pass.

use vstd::prelude::*;
use vstd::multiset::Multiset;

use crate::batch::{spec_desc_entry, PrimativeBatch};
use crate::byteops::copy_bytes_at;
use crate::commands::{BufferId, CopyCommand};
use crate::staging::StencilBuffer;
use crate::pool::{spec_pool_fresh, PrimativePool};
use crate::region::{
    lemma_frag_ge_trans,
    lemma_score_ge_trans,
    lemma_score_parts,
    spec_frag_ge,
    spec_score_ge,
    unique_seq,
    PrimativeReigon,
};
use crate::sums::{
    count_of,
    ids_count_sum,
    lemma_sum_member_le,
    lemma_sum_nonneg,
    lemma_sum_recs_update_absent,
    lemma_sum_swap_remove,
};

verus! {

broadcast use vstd::seq_lib::group_to_multiset_ensures;

/// Regions per pool; the first pool uses it and later pools copy the
/// previous pool's count.
pub const DEFAULT_REIGON_COUNT: u32 = 4;

/// How region candidates are ranked when they are collected.
#[derive(Clone, Copy, Debug)]
pub enum Ranking {
    /// Best placement score first.
    Placement,
    /// Most wasteful region first (compaction sources).
    SweepSource,
    /// Least wasteful region first (compaction destinations).
    SweepDest,
}

/// Index of `id` in a sequence known to hold it.
fn find_id(ids: &Vec<u32>, id: u32) -> (r: usize)
    requires
        ids@.contains(id),
    ensures
        r < ids@.len(),
        ids@[r as int] == id,
{
    let n = ids.len();
    let mut k: usize = 0;
    while k < n
        invariant
            n == ids@.len(),
            k <= n,
            ids@.contains(id),
            forall|j: int| 0 <= j < k ==> ids@[j] != id,
        decreases n - k,
    {
        if ids[k] == id {
            return k;
        }
        k = k + 1;
    }
    proof {
        let w = choose|w: int| 0 <= w < ids@.len() && ids@[w] == id;
        assert(false);
    }
    0
}

/// Carry the placement-loop facts across a step that leaves the records and
/// every pool buffer as they were (marking a region written, or a failed
/// allocation).
proof fn lemma_insert_frame_step(
    olds: PrimativeManager,
    prev: PrimativeManager,
    news: PrimativeManager,
    sdata: Seq<u8>,
    uploads: Seq<BatchUpload>,
    start: int,
    i: int,
)
    requires
        prev.wf(),
        news.wf(),
        PrimativeManager::same_config(&prev, &news),
        news.batches@ == prev.batches@,
        prev.pools@.len() <= news.pools@.len(),
        forall|p: int|
            0 <= p < prev.pools@.len() ==> #[trigger] news.pools@[p].primative_buffer@
                == prev.pools@[p].primative_buffer@,
        0 <= start <= i <= uploads.len(),
        olds.batches@.len() == prev.batches@.len(),
        forall|j: int| start <= j < i ==> prev.upload_done(sdata, #[trigger] uploads[j]),
        forall|x: int|
            0 <= x < olds.batches@.len() && (#[trigger] olds.batches@[x]) is Some ==> prev.batches@[
                x] == olds.batches@[x] && prev.spec_batch_span_bytes(olds.batches@[x]->Some_0)
                == olds.spec_batch_span_bytes(olds.batches@[x]->Some_0),
    ensures
        forall|j: int| start <= j < i ==> news.upload_done(sdata, #[trigger] uploads[j]),
        forall|x: int|
            0 <= x < olds.batches@.len() && (#[trigger] olds.batches@[x]) is Some ==> news.batches@[
                x] == olds.batches@[x] && news.spec_batch_span_bytes(olds.batches@[x]->Some_0)
                == olds.spec_batch_span_bytes(olds.batches@[x]->Some_0),
{
    assert forall|b: PrimativeBatch|
        prev.batch_valid(b) implies news.spec_batch_span_bytes(b) == prev.spec_batch_span_bytes(
        b,
    ) by {
        assert(news.pools@[b.pool_id as int].primative_buffer@ == prev.pools@[
            b.pool_id as int].primative_buffer@);
    }
    assert forall|j: int| start <= j < i implies news.upload_done(sdata, #[trigger] uploads[j]) by {
        let u = uploads[j];
        if u.primative_count > 0 {
            let b = prev.batches@[u.id as int]->Some_0;
            assert(prev.batch_valid(b));
        }
    }
    assert forall|x: int|
        0 <= x < olds.batches@.len() && (#[trigger] olds.batches@[x]) is Some implies news.batches@[
        x] == olds.batches@[x] && news.spec_batch_span_bytes(olds.batches@[x]->Some_0)
        == olds.spec_batch_span_bytes(olds.batches@[x]->Some_0) by {
        let w = olds.batches@[x]->Some_0;
        assert(prev.batches@[x] == olds.batches@[x]);
        assert(prev.batch_valid(w));
    }
}

/// Carry the placement-loop facts across a successful placement of
/// `uploads[i]`.
proof fn lemma_insert_placed_step(
    olds: PrimativeManager,
    prev: PrimativeManager,
    news: PrimativeManager,
    sdata: Seq<u8>,
    uploads: Seq<BatchUpload>,
    start: int,
    i: int,
)
    requires
        prev.wf(),
        news.wf(),
        PrimativeManager::same_config(&prev, &news),
        0 <= start <= i < uploads.len(),
        olds.batches@.len() == prev.batches@.len(),
        prev.batches@.len() == news.batches@.len(),
        forall|j: int|
            0 <= j < uploads.len() ==> (#[trigger] uploads[j]).id < prev.batches@.len(),
        uploads[i].primative_count > 0,
        forall|a: int, b: int| 0 <= a < b < uploads.len() ==> uploads[a].id != uploads[b].id,
        // what place_one established
        news.placed_upload_ok(sdata, uploads[i]),
        forall|x: int|
            0 <= x < prev.batches@.len() && x != uploads[i].id ==> news.batches@[x]
                == prev.batches@[x],
        forall|x: int|
            0 <= x < prev.batches@.len() && x != uploads[i].id && (#[trigger] prev.batches@[x])
                is Some ==> news.spec_batch_span_bytes(prev.batches@[x]->Some_0)
                == prev.spec_batch_span_bytes(prev.batches@[x]->Some_0),
        // the loop facts before the step
        forall|j: int| start <= j < i ==> prev.upload_done(sdata, #[trigger] uploads[j]),
        forall|j: int|
            i <= j < uploads.len() ==> prev.batches@[(#[trigger] uploads[j]).id as int] is None,
        forall|x: int|
            0 <= x < olds.batches@.len() && (#[trigger] olds.batches@[x]) is Some ==> prev.batches@[
                x] == olds.batches@[x] && prev.spec_batch_span_bytes(olds.batches@[x]->Some_0)
                == olds.spec_batch_span_bytes(olds.batches@[x]->Some_0),
        forall|x: int|
            0 <= x < olds.batches@.len() && (#[trigger] olds.batches@[x]) is None ==> prev.batches@[
                x] is None || (exists|j: int| start <= j < i && (#[trigger] uploads[j]).id == x),
    ensures
        forall|j: int| start <= j < i + 1 ==> news.upload_done(sdata, #[trigger] uploads[j]),
        forall|j: int|
            i + 1 <= j < uploads.len() ==> news.batches@[(#[trigger] uploads[j]).id as int] is None,
        forall|x: int|
            0 <= x < olds.batches@.len() && (#[trigger] olds.batches@[x]) is Some ==> news.batches@[
                x] == olds.batches@[x] && news.spec_batch_span_bytes(olds.batches@[x]->Some_0)
                == olds.spec_batch_span_bytes(olds.batches@[x]->Some_0),
        forall|x: int|
            0 <= x < olds.batches@.len() && (#[trigger] olds.batches@[x]) is None ==> news.batches@[
                x] is None || (exists|j: int|
                start <= j < i + 1 && (#[trigger] uploads[j]).id == x),
{
    let u = uploads[i];
    assert forall|j: int| start <= j < i + 1 implies news.upload_done(
        sdata,
        #[trigger] uploads[j],
    ) by {
        if j < i {
            let w = uploads[j];
            assert(w.id != u.id);
            if w.primative_count > 0 {
                let b = prev.batches@[w.id as int]->Some_0;
                assert(prev.batch_valid(b));
                assert(news.batches@[w.id as int] == prev.batches@[w.id as int]);
            }
        }
    }
    assert forall|j: int|
        i + 1 <= j < uploads.len() implies news.batches@[(#[trigger] uploads[j]).id
        as int] is None by {
        assert(uploads[j].id != u.id);
    }
    assert forall|x: int|
        0 <= x < olds.batches@.len() && (#[trigger] olds.batches@[x]) is Some implies news.batches@[
        x] == olds.batches@[x] && news.spec_batch_span_bytes(olds.batches@[x]->Some_0)
        == olds.spec_batch_span_bytes(olds.batches@[x]->Some_0) by {
        let w = olds.batches@[x]->Some_0;
        assert(prev.batches@[x] == olds.batches@[x]);
        assert(x != u.id) by {
            assert(prev.batches@[u.id as int] is None);
        }
        assert(prev.batch_valid(w));
    }
    assert forall|x: int|
        0 <= x < olds.batches@.len() && (#[trigger] olds.batches@[x]) is None implies news.batches@[
        x] is None || (exists|j: int| start <= j < i + 1 && (#[trigger] uploads[j]).id == x) by {
        if x == u.id {
            assert(start <= i < i + 1 && uploads[i].id == x);
        } else {
            if !(news.batches@[x] is None) {
                assert(prev.batches@[x] == news.batches@[x]);
                let j = choose|j: int| start <= j < i && (#[trigger] uploads[j]).id == x;
                assert(start <= j < i + 1 && uploads[j].id == x);
            }
        }
    }
}

/// The capacity invariant: every region of a well-formed manager keeps
/// `usage <= top <= capacity`, and the high-water mark never passes the
/// region's capacity.
pub proof fn lemma_capacity_invariant(m: &PrimativeManager)
    requires
        m.wf(),
    ensures
        forall|p: int, r: int|
            0 <= p < m.pools@.len() && 0 <= r < m.pools@[p].reigons@.len() ==> (
            #[trigger] m.pools@[p].reigons@[r]).usage <= m.pools@[p].reigons@[r].top
                <= m.pools@[p].reigons@[r].cap,
{
    assert forall|p: int, r: int|
        0 <= p < m.pools@.len() && 0 <= r < m.pools@[p].reigons@.len() implies (
    #[trigger] m.pools@[p].reigons@[r]).usage <= m.pools@[p].reigons@[r].top <= m.pools@[
        p].reigons@[r].cap by {
        assert(m.pools@[p].wf());
        assert(m.pools@[p].reigons@[r].wf());
    }
}

/// All-or-nothing placement: a batch is never split across regions, so no
/// live record is larger than one region; a batch whose primitive count
/// exceeds the region size can never be placed.
pub proof fn lemma_all_or_nothing(m: &PrimativeManager)
    requires
        m.wf(),
    ensures
        forall|id: int|
            0 <= id < m.batches@.len() && (#[trigger] m.batches@[id]) is Some ==> m.batches@[
                id]->Some_0.count <= m.reigon_size,
{
    assert forall|id: int|
        0 <= id < m.batches@.len() && (#[trigger] m.batches@[id]) is Some implies m.batches@[
        id]->Some_0.count <= m.reigon_size by {
        let b = m.batches@[id]->Some_0;
        assert(m.batch_valid(b));
        let reg = m.pools@[b.pool_id as int].reigons@[m.spec_reigon_of(b)];
        assert(b.count <= reg.top);
        assert(reg.wf());
        assert(reg.cap == m.reigon_size);
    }
}

/// Descriptor consistency: once no identifier is pending re-upload, every
/// live batch's description entry equals its packed record and every
/// released identifier's entry is zeroed.
pub proof fn lemma_descriptor_consistency(m: &PrimativeManager)
    requires
        m.wf(),
        m.updated_batches@.len() == 0,
    ensures
        forall|id: int|
            0 <= id < m.max_id ==> m.batch_description_buffer@.subrange(id * 8, id * 8 + 8)
                == spec_desc_entry(#[trigger] m.batches@[id]),
{
    assert forall|id: int| 0 <= id < m.max_id implies m.batch_description_buffer@.subrange(
        id * 8,
        id * 8 + 8,
    ) == spec_desc_entry(#[trigger] m.batches@[id]) by {
        assert(!m.updated_batches@.contains(id as u32));
    }
}

/// Under the bounds the placement path guarantees, placement-command
/// sequences built over two states with the same records for the window's
/// identifiers are the same sequence.
proof fn lemma_placement_cmds_congruence(
    m1: &PrimativeManager,
    m2: &PrimativeManager,
    uploads: Seq<BatchUpload>,
    a: int,
    b: int,
)
    requires
        m2.primative_size == m1.primative_size,
        forall|j: int|
            a <= j < b ==> m2.batches@[(#[trigger] uploads[j]).id as int] == m1.batches@[(uploads[
                j]).id as int],
    ensures
        m2.spec_placement_cmds(uploads, a, b) == m1.spec_placement_cmds(uploads, a, b),
    decreases b - a,
{
    if b > a {
        lemma_placement_cmds_congruence(m1, m2, uploads, a, b - 1);
    }
}

/// Placement-command sequences concatenate over adjacent windows.
proof fn lemma_placement_cmds_concat(
    m: &PrimativeManager,
    uploads: Seq<BatchUpload>,
    a: int,
    b: int,
    c: int,
)
    requires
        a <= b <= c,
    ensures
        m.spec_placement_cmds(uploads, a, c) == m.spec_placement_cmds(uploads, a, b)
            + m.spec_placement_cmds(uploads, b, c),
    decreases c - b,
{
    if c == b {
        assert(m.spec_placement_cmds(uploads, a, b) + m.spec_placement_cmds(uploads, b, c)
            =~= m.spec_placement_cmds(uploads, a, b));
    } else {
        lemma_placement_cmds_concat(m, uploads, a, b, c - 1);
        assert(m.spec_placement_cmds(uploads, a, b) + m.spec_placement_cmds(uploads, b, c)
            =~= (m.spec_placement_cmds(uploads, a, b) + m.spec_placement_cmds(uploads, b, c - 1))
            + (if uploads[c - 1].primative_count > 0 {
                seq![m.spec_upload_cmd(uploads[c - 1])]
            } else {
                Seq::empty()
            }));
    }
}

/// Every placement command copies from the staging ring into a pool.
proof fn lemma_placement_cmds_phase(m: &PrimativeManager, uploads: Seq<BatchUpload>, a: int, b: int)
    ensures
        forall|k: int|
            0 <= k < m.spec_placement_cmds(uploads, a, b).len() ==> (#[trigger] m
                .spec_placement_cmds(uploads, a, b)[k]).src is Stencil && m.spec_placement_cmds(
                uploads,
                a,
                b,
            )[k].dst is Pool,
    decreases b - a,
{
    if b > a {
        lemma_placement_cmds_phase(m, uploads, a, b - 1);
    }
}

/// One pending upload: `primative_count` primitives already staged at
/// `byte_offset` of the frame's staging ring, to be placed for batch `id`.
#[derive(Clone, Copy, Debug, PartialEq, Eq, Structural)]
pub struct BatchUpload {
    pub byte_offset: u32,
    pub primative_count: u32,
    pub id: u32,
}

/// Orchestrates placement, removal and compaction of geometry batches
/// across pools, and keeps the batch description table in sync.
pub struct PrimativeManager {
    /// Bytes of one primitive element.
    pub primative_size: u32,
    /// The pools; append-only.
    pub pools: Vec<PrimativePool>,
    /// Model of the device-resident description table: eight bytes per
    /// possible batch identifier.
    pub batch_description_buffer: Vec<u8>,
    /// The placement record of every live batch, indexed by identifier.
    pub batches: Vec<Option<PrimativeBatch>>,
    /// Capacity of the description table, in entries.
    pub max_id: u32,
    /// Primitive slots per region.
    pub reigon_size: u32,
    /// Identifiers whose description entries still need re-upload.
    pub updated_batches: Vec<u32>,
}

impl PrimativeManager {
    /// Index of the region a record's offset falls in.
    pub open spec fn spec_reigon_of(&self, b: PrimativeBatch) -> int {
        b.offset as int / self.reigon_size as int
    }

    /// The record points into the allocated part of an existing region.
    /// Zero primitives never occupy storage, so a live record's count is
    /// positive.
    pub open spec fn batch_valid(&self, b: PrimativeBatch) -> bool {
        &&& 0 < b.count
        &&& b.pool_id < self.pools@.len()
        &&& 0 <= self.spec_reigon_of(b) < self.pools@[b.pool_id as int].reigons@.len()
        &&& {
            let reg = self.pools@[b.pool_id as int].reigons@[self.spec_reigon_of(b)];
            &&& reg.primative_offset <= b.offset
            &&& b.offset + b.count <= reg.primative_offset + reg.top
        }
    }

    pub open spec fn config_wf(&self) -> bool {
        &&& 0 < self.primative_size
        &&& 0 < self.reigon_size
        &&& self.primative_size * self.reigon_size * DEFAULT_REIGON_COUNT <= u32::MAX
    }

    pub open spec fn pools_wf(&self) -> bool {
        &&& self.pools@.len() <= u32::MAX
        &&& forall|p: int|
            0 <= p < self.pools@.len() ==> {
                &&& (#[trigger] self.pools@[p]).wf()
                &&& self.pools@[p].pool_id == p
                &&& self.pools@[p].primative_size == self.primative_size
                &&& self.pools@[p].reigon_size == self.reigon_size
                &&& self.pools@[p].reigons@.len() == DEFAULT_REIGON_COUNT
            }
    }

    /// Every record names itself, points into a region, and is resident
    /// there.
    pub open spec fn records_wf(&self) -> bool {
        &&& self.batches@.len() == self.max_id
        &&& forall|id: int|
            0 <= id < self.batches@.len() && (#[trigger] self.batches@[id]) is Some ==> {
                let b = self.batches@[id]->Some_0;
                &&& b.id == id
                &&& self.batch_valid(b)
                &&& self.pools@[b.pool_id as int].reigons@[self.spec_reigon_of(
                    b,
                )].batch_ids@.contains(b.id)
            }
    }

    /// Every resident identifier has a record naming exactly that region.
    pub open spec fn resident_wf(&self) -> bool {
        forall|p: int, r: int, k: int|
            0 <= p < self.pools@.len() && 0 <= r < self.pools@[p].reigons@.len() && 0 <= k
                < self.pools@[p].reigons@[r].batch_ids@.len() ==> {
                let id = #[trigger] self.pools@[p].reigons@[r].batch_ids@[k];
                &&& id < self.max_id
                &&& self.batches@[id as int] is Some
                &&& self.batches@[id as int]->Some_0.pool_id == p
                &&& self.spec_reigon_of(self.batches@[id as int]->Some_0) == r
            }
    }

    /// A region's live usage is the sum of its residents' counts.
    pub open spec fn usage_wf(&self) -> bool {
        forall|p: int, r: int|
            0 <= p < self.pools@.len() && 0 <= r < self.pools@[p].reigons@.len() ==> (
            #[trigger] self.pools@[p].reigons@[r]).usage == ids_count_sum(
                self.pools@[p].reigons@[r].batch_ids@,
                self.batches@,
            )
    }

    pub open spec fn dirty_wf(&self) -> bool {
        &&& unique_seq(self.updated_batches@)
        &&& forall|i: int|
            0 <= i < self.updated_batches@.len() ==> #[trigger] self.updated_batches@[i]
                < self.max_id
    }

    /// Every identifier not marked dirty has a description entry equal to
    /// its record's encoding (zeroes for a released identifier).
    pub open spec fn desc_wf(&self) -> bool {
        &&& self.batch_description_buffer@.len() == self.max_id as int * 8
        &&& forall|id: int|
            0 <= id < self.max_id && !self.updated_batches@.contains(id as u32)
                ==> self.batch_description_buffer@.subrange(id * 8, id * 8 + 8) == spec_desc_entry(
                #[trigger] self.batches@[id],
            )
    }

    pub open spec fn wf(&self) -> bool {
        &&& self.config_wf()
        &&& self.pools_wf()
        &&& self.records_wf()
        &&& self.resident_wf()
        &&& self.usage_wf()
        &&& self.dirty_wf()
        &&& self.desc_wf()
    }

    /// Number of live records.
    pub open spec fn spec_live_count(recs: Seq<Option<PrimativeBatch>>) -> int
        decreases recs.len(),
    {
        if recs.len() == 0 {
            0
        } else {
            Self::spec_live_count(recs.drop_last()) + if recs.last() is Some {
                1int
            } else {
                0int
            }
        }
    }

    /// An empty manager for batches of `primative_size` bytes, regions of
    /// `reigon_size` primitives, and at most `max_id` batch identifiers.
    pub fn new(primative_size: u32, reigon_size: u32, max_id: u32) -> (r: PrimativeManager)
        requires
            0 < primative_size,
            0 < reigon_size,
            primative_size * reigon_size * DEFAULT_REIGON_COUNT <= u32::MAX,
            max_id * 8 <= usize::MAX,
        ensures
            r.wf(),
            r.primative_size == primative_size,
            r.reigon_size == reigon_size,
            r.max_id == max_id,
            r.pools@.len() == 0,
            forall|id: int| 0 <= id < max_id ==> #[trigger] r.batches@[id] is None,
            r.updated_batches@ == Seq::<u32>::empty(),
            forall|i: int|
                0 <= i < r.batch_description_buffer@.len()
                    ==> #[trigger] r.batch_description_buffer@[i] == 0u8,
    {
        let mut batches: Vec<Option<PrimativeBatch>> = Vec::new();
        let mut i: u32 = 0;
        while i < max_id
            invariant
                i <= max_id,
                batches@.len() == i,
                forall|j: int| 0 <= j < i ==> #[trigger] batches@[j] is None,
            decreases max_id - i,
        {
            batches.push(None);
            i = i + 1;
        }
        let r = PrimativeManager {
            primative_size,
            pools: Vec::new(),
            batch_description_buffer: vec![0u8; (max_id as usize) * 8],
            batches,
            max_id,
            reigon_size,
            updated_batches: Vec::new(),
        };
        proof {
            assert forall|id: int|
                0 <= id < max_id && !r.updated_batches@.contains(id as u32) implies r
                .batch_description_buffer@.subrange(id * 8, id * 8 + 8) == spec_desc_entry(
                r.batches@[id],
            ) by {
                assert(r.batches@[id] is None);
                assert(r.batch_description_buffer@.subrange(id * 8, id * 8 + 8)
                    =~= spec_desc_entry(r.batches@[id]));
            }
        }
        r
    }

    /// The description table consumed by the culling pass.
    pub fn get_batch_descriptions(&self) -> (r: &Vec<u8>)
        ensures
            r@ == self.batch_description_buffer@,
    {
        &self.batch_description_buffer
    }

    /// How many batches are live.
    pub fn batch_count(&self) -> (r: u32)
        requires
            self.wf(),
        ensures
            r == Self::spec_live_count(self.batches@),
    {
        let mut total: u32 = 0;
        let mut i: usize = 0;
        let n = self.batches.len();
        while i < n
            invariant
                n == self.batches@.len(),
                i <= n,
                n <= u32::MAX,
                total <= i,
                total == Self::spec_live_count(self.batches@.take(i as int)),
            decreases n - i,
        {
            proof {
                assert(self.batches@.take(i + 1).drop_last() =~= self.batches@.take(i as int));
                assert(self.batches@.take(i + 1).last() == self.batches@[i as int]);
            }
            if self.batches[i].is_some() {
                total = total + 1;
            }
            i = i + 1;
        }
        proof {
            assert(self.batches@.take(n as int) =~= self.batches@);
        }
        total
    }

    /// The pools backing all placed geometry.
    pub fn get_pools(&self) -> (r: &Vec<PrimativePool>)
        ensures
            r@ == self.pools@,
    {
        &self.pools
    }

    /// A (pool, region) pair naming an existing region.
    pub open spec fn pair_valid(&self, pr: (u32, u32)) -> bool {
        &&& pr.0 < self.pools@.len()
        &&& pr.1 < self.pools@[pr.0 as int].reigons@.len()
    }

    /// The region a candidate pair names.
    pub open spec fn pair_reg(&self, pr: (u32, u32)) -> PrimativeReigon {
        self.pools@[pr.0 as int].reigons@[pr.1 as int]
    }

    /// Candidate order under the given ranking.
    pub open spec fn rank_ge(&self, mode: Ranking, a: (u32, u32), b: (u32, u32)) -> bool {
        match mode {
            Ranking::Placement => spec_score_ge(self.pair_reg(a), self.pair_reg(b)),
            Ranking::SweepSource => spec_frag_ge(self.pair_reg(a), self.pair_reg(b)),
            Ranking::SweepDest => spec_frag_ge(self.pair_reg(b), self.pair_reg(a)),
        }
    }

    /// Candidates listed best first.
    pub open spec fn pairs_sorted(&self, mode: Ranking, s: Seq<(u32, u32)>) -> bool {
        forall|i: int, j: int| 0 <= i < j < s.len() ==> self.rank_ge(mode, s[i], s[j])
    }

    proof fn lemma_rank_ge_total(&self, mode: Ranking, a: (u32, u32), b: (u32, u32))
        requires
            self.wf(),
            self.pair_valid(a),
            self.pair_valid(b),
        ensures
            self.rank_ge(mode, a, b) || self.rank_ge(mode, b, a),
    {
        lemma_score_parts(self.pair_reg(a));
        lemma_score_parts(self.pair_reg(b));
    }

    proof fn lemma_rank_ge_trans(&self, mode: Ranking, a: (u32, u32), b: (u32, u32), c: (
        u32,
        u32,
    ))
        requires
            self.wf(),
            self.pair_valid(a),
            self.pair_valid(b),
            self.pair_valid(c),
            self.rank_ge(mode, a, b),
            self.rank_ge(mode, b, c),
        ensures
            self.rank_ge(mode, a, c),
    {
        match mode {
            Ranking::Placement => lemma_score_ge_trans(
                self.pair_reg(a),
                self.pair_reg(b),
                self.pair_reg(c),
            ),
            Ranking::SweepSource => lemma_frag_ge_trans(
                self.pair_reg(a),
                self.pair_reg(b),
                self.pair_reg(c),
            ),
            Ranking::SweepDest => lemma_frag_ge_trans(
                self.pair_reg(c),
                self.pair_reg(b),
                self.pair_reg(a),
            ),
        }
    }

    /// Compare two candidates under the given ranking.
    fn rank_ge_exec(&self, mode: Ranking, a: (u32, u32), b: (u32, u32)) -> (r: bool)
        requires
            self.wf(),
            self.pair_valid(a),
            self.pair_valid(b),
        ensures
            r == self.rank_ge(mode, a, b),
    {
        let ra = &self.pools[a.0 as usize].reigons[a.1 as usize];
        let rb = &self.pools[b.0 as usize].reigons[b.1 as usize];
        match mode {
            Ranking::Placement => ra.score_ge(rb),
            Ranking::SweepSource => ra.frag_ge(rb),
            Ranking::SweepDest => rb.frag_ge(ra),
        }
    }

    /// Index of a best-ranked candidate.
    fn find_best(&self, mode: Ranking, v: &Vec<(u32, u32)>) -> (r: usize)
        requires
            self.wf(),
            v@.len() > 0,
            forall|k: int| 0 <= k < v@.len() ==> self.pair_valid(#[trigger] v@[k]),
        ensures
            r < v@.len(),
            forall|k: int| 0 <= k < v@.len() ==> self.rank_ge(mode, v@[r as int], #[trigger] v@[k]),
    {
        let mut best: usize = 0;
        let mut k: usize = 1;
        let n = v.len();
        while k < n
            invariant
                self.wf(),
                n == v@.len(),
                best < k <= n,
                forall|j: int| 0 <= j < v@.len() ==> self.pair_valid(#[trigger] v@[j]),
                forall|j: int| 0 <= j < k ==> self.rank_ge(mode, v@[best as int], #[trigger] v@[j]),
            decreases n - k,
        {
            if !self.rank_ge_exec(mode, v[best], v[k]) {
                proof {
                    self.lemma_rank_ge_total(mode, v@[best as int], v@[k as int]);
                    assert forall|j: int| 0 <= j < k + 1 implies self.rank_ge(
                        mode,
                        v@[k as int],
                        #[trigger] v@[j],
                    ) by {
                        if j < k {
                            self.lemma_rank_ge_trans(mode, v@[k as int], v@[best as int], v@[j]);
                        } else {
                            self.lemma_rank_ge_total(mode, v@[k as int], v@[k as int]);
                        }
                    }
                }
                best = k;
            }
            k = k + 1;
        }
        best
    }

    /// Sort candidates best first (selection sort; ties keep collection
    /// order stable enough to be deterministic).
    fn sort_pairs(&self, mode: Ranking, v: Vec<(u32, u32)>) -> (r: Vec<(u32, u32)>)
        requires
            self.wf(),
            forall|k: int| 0 <= k < v@.len() ==> self.pair_valid(#[trigger] v@[k]),
        ensures
            r@.len() == v@.len(),
            r@.to_multiset() == v@.to_multiset(),
            forall|x: (u32, u32)| r@.contains(x) <==> v@.contains(x),
            self.pairs_sorted(mode, r@),
            forall|k: int| 0 <= k < r@.len() ==> self.pair_valid(#[trigger] r@[k]),
    {
        let ghost orig = v@;
        let mut remaining = v;
        let mut out: Vec<(u32, u32)> = Vec::new();
        while remaining.len() > 0
            invariant
                self.wf(),
                out@.len() + remaining@.len() == orig.len(),
                out@.to_multiset().add(remaining@.to_multiset()) == orig.to_multiset(),
                forall|k: int| 0 <= k < remaining@.len() ==> self.pair_valid(
                    #[trigger] remaining@[k],
                ),
                forall|k: int| 0 <= k < out@.len() ==> self.pair_valid(#[trigger] out@[k]),
                self.pairs_sorted(mode, out@),
                forall|a: int, b: int|
                    0 <= a < out@.len() && 0 <= b < remaining@.len() ==> self.rank_ge(
                        mode,
                        out@[a],
                        remaining@[b],
                    ),
            decreases remaining@.len(),
        {
            let bi = self.find_best(mode, &remaining);
            let ghost rem_before = remaining@;
            let item = remaining.remove(bi);
            let ghost out_before = out@;
            out.push(item);
            proof {
                assert(out@.to_multiset() =~= out_before.to_multiset().insert(item));
                assert(remaining@.to_multiset() =~= rem_before.to_multiset().remove(item));
                assert(rem_before.contains(item));
                assert(rem_before.to_multiset().count(item) > 0);
                assert(out@.to_multiset().add(remaining@.to_multiset()) =~= out_before
                    .to_multiset().add(rem_before.to_multiset()));
                assert forall|a: int, b: int|
                    0 <= a < out@.len() && 0 <= b < remaining@.len() implies self.rank_ge(
                    mode,
                    out@[a],
                    remaining@[b],
                ) by {
                    let prev = if b < bi {
                        b
                    } else {
                        b + 1
                    };
                    assert(remaining@[b] == rem_before[prev]);
                    if a < out_before.len() {
                        assert(out@[a] == out_before[a]);
                    } else {
                        assert(out@[a] == rem_before[bi as int]);
                    }
                }
                assert forall|i: int, j: int| 0 <= i < j < out@.len() implies self.rank_ge(
                    mode,
                    out@[i],
                    out@[j],
                ) by {
                    if j < out_before.len() {
                        assert(out@[i] == out_before[i] && out@[j] == out_before[j]);
                    } else {
                        assert(out@[j] == rem_before[bi as int]);
                        assert(rem_before.contains(rem_before[bi as int]));
                    }
                }
            }
        }
        proof {
            assert forall|e: (u32, u32)| remaining@.to_multiset().count(e) == 0 by {
                assert(!remaining@.contains(e));
            }
            assert(remaining@.to_multiset() =~= Multiset::<(u32, u32)>::empty());
            assert(out@.to_multiset() =~= orig.to_multiset());
            assert forall|x: (u32, u32)| out@.contains(x) <==> orig.contains(x) by {
                assert(out@.to_multiset().count(x) == orig.to_multiset().count(x));
            }
        }
        out
    }

    /// All regions worth placing into (score strictly above one half), best
    /// score first.
    fn collect_eligible(&self) -> (r: Vec<(u32, u32)>)
        requires
            self.wf(),
        ensures
            forall|k: int|
                0 <= k < r@.len() ==> self.pair_valid(#[trigger] r@[k]) && self.pair_reg(
                    r@[k],
                ).spec_score_exceeds_half(),
            forall|pr: (u32, u32)|
                self.pair_valid(pr) && self.pair_reg(pr).spec_score_exceeds_half()
                    ==> r@.contains(pr),
            self.pairs_sorted(Ranking::Placement, r@),
    {
        let mut cand: Vec<(u32, u32)> = Vec::new();
        let np = self.pools.len();
        let mut p: usize = 0;
        while p < np
            invariant
                self.wf(),
                np == self.pools@.len(),
                p <= np,
                forall|k: int|
                    0 <= k < cand@.len() ==> self.pair_valid(#[trigger] cand@[k]) && self.pair_reg(
                        cand@[k],
                    ).spec_score_exceeds_half(),
                forall|pr: (u32, u32)|
                    self.pair_valid(pr) && pr.0 < p && self.pair_reg(pr).spec_score_exceeds_half()
                        ==> cand@.contains(pr),
            decreases np - p,
        {
            let nr = self.pools[p].reigons.len();
            let mut q: usize = 0;
            while q < nr
                invariant
                    self.wf(),
                    np == self.pools@.len(),
                    p < np,
                    nr == self.pools@[p as int].reigons@.len(),
                    q <= nr,
                    forall|k: int|
                        0 <= k < cand@.len() ==> self.pair_valid(#[trigger] cand@[k])
                            && self.pair_reg(cand@[k]).spec_score_exceeds_half(),
                    forall|pr: (u32, u32)|
                        self.pair_valid(pr) && (pr.0 < p || (pr.0 == p && pr.1 < q))
                            && self.pair_reg(pr).spec_score_exceeds_half() ==> cand@.contains(pr),
                decreases nr - q,
            {
                let ghost before = cand@;
                if self.pools[p].reigons[q].score_exceeds_half() {
                    cand.push((p as u32, q as u32));
                }
                proof {
                    assert forall|pr: (u32, u32)|
                        self.pair_valid(pr) && (pr.0 < p || (pr.0 == p && pr.1 < q + 1))
                            && self.pair_reg(pr).spec_score_exceeds_half() implies cand@.contains(
                        pr,
                    ) by {
                        if pr.0 == p && pr.1 == q {
                            assert(cand@.last() == pr);
                        } else {
                            assert(before.contains(pr));
                            let w = choose|w: int| 0 <= w < before.len() && before[w] == pr;
                            assert(cand@[w] == pr);
                        }
                    }
                }
                q = q + 1;
            }
            p = p + 1;
        }
        let sorted = self.sort_pairs(Ranking::Placement, cand);
        proof {
            assert forall|k: int| 0 <= k < sorted@.len() implies self.pair_valid(
                #[trigger] sorted@[k],
            ) && self.pair_reg(sorted@[k]).spec_score_exceeds_half() by {
                assert(sorted@.contains(sorted@[k]));
                assert(cand@.contains(sorted@[k]));
                let w = choose|w: int| 0 <= w < cand@.len() && cand@[w] == sorted@[k];
            }
        }
        sorted
    }

    /// A compaction source: wasteful enough, and not written this frame.
    pub open spec fn spec_is_sweep_source(reg: PrimativeReigon) -> bool {
        reg.spec_is_fragmented() && !reg.is_written
    }

    /// Whether any region qualifies as a compaction source.
    pub open spec fn spec_has_sweep_source(&self) -> bool {
        exists|pr: (u32, u32)|
            self.pair_valid(pr) && Self::spec_is_sweep_source(#[trigger] self.pair_reg(pr))
    }

    /// Whether any region qualifies as a compaction destination.
    pub open spec fn spec_has_sweep_dest(&self) -> bool {
        exists|pr: (u32, u32)|
            self.pair_valid(pr) && (#[trigger] self.pair_reg(pr)).spec_is_clean()
    }

    /// All compaction sources, most wasteful first.
    fn collect_sweep_sources(&self) -> (r: Vec<(u32, u32)>)
        requires
            self.wf(),
        ensures
            forall|k: int|
                0 <= k < r@.len() ==> self.pair_valid(#[trigger] r@[k]) && Self::spec_is_sweep_source(
                    self.pair_reg(r@[k]),
                ),
            forall|pr: (u32, u32)|
                self.pair_valid(pr) && Self::spec_is_sweep_source(self.pair_reg(pr))
                    ==> r@.contains(pr),
            self.pairs_sorted(Ranking::SweepSource, r@),
    {
        let mut cand: Vec<(u32, u32)> = Vec::new();
        let np = self.pools.len();
        let mut p: usize = 0;
        while p < np
            invariant
                self.wf(),
                np == self.pools@.len(),
                p <= np,
                forall|k: int|
                    0 <= k < cand@.len() ==> self.pair_valid(#[trigger] cand@[k])
                        && Self::spec_is_sweep_source(self.pair_reg(cand@[k])),
                forall|pr: (u32, u32)|
                    self.pair_valid(pr) && pr.0 < p && Self::spec_is_sweep_source(
                        self.pair_reg(pr),
                    ) ==> cand@.contains(pr),
            decreases np - p,
        {
            let nr = self.pools[p].reigons.len();
            let mut q: usize = 0;
            while q < nr
                invariant
                    self.wf(),
                    np == self.pools@.len(),
                    p < np,
                    nr == self.pools@[p as int].reigons@.len(),
                    q <= nr,
                    forall|k: int|
                        0 <= k < cand@.len() ==> self.pair_valid(#[trigger] cand@[k])
                            && Self::spec_is_sweep_source(self.pair_reg(cand@[k])),
                    forall|pr: (u32, u32)|
                        self.pair_valid(pr) && (pr.0 < p || (pr.0 == p && pr.1 < q))
                            && Self::spec_is_sweep_source(self.pair_reg(pr)) ==> cand@.contains(
                            pr,
                        ),
                decreases nr - q,
            {
                let ghost before = cand@;
                if self.pools[p].reigons[q].is_fragmented() && !self.pools[p].reigons[q].is_written
                {
                    cand.push((p as u32, q as u32));
                }
                proof {
                    assert forall|pr: (u32, u32)|
                        self.pair_valid(pr) && (pr.0 < p || (pr.0 == p && pr.1 < q + 1))
                            && Self::spec_is_sweep_source(self.pair_reg(pr)) implies cand@.contains(
                        pr,
                    ) by {
                        if pr.0 == p && pr.1 == q {
                            assert(cand@.last() == pr);
                        } else {
                            assert(before.contains(pr));
                            let w = choose|w: int| 0 <= w < before.len() && before[w] == pr;
                            assert(cand@[w] == pr);
                        }
                    }
                }
                q = q + 1;
            }
            p = p + 1;
        }
        let sorted = self.sort_pairs(Ranking::SweepSource, cand);
        proof {
            assert forall|k: int| 0 <= k < sorted@.len() implies self.pair_valid(
                #[trigger] sorted@[k],
            ) && Self::spec_is_sweep_source(self.pair_reg(sorted@[k])) by {
                assert(sorted@.contains(sorted@[k]));
                assert(cand@.contains(sorted@[k]));
                let w = choose|w: int| 0 <= w < cand@.len() && cand@[w] == sorted@[k];
            }
        }
        sorted
    }

    /// All compaction destinations, cleanest first.
    fn collect_sweep_dsts(&self) -> (r: Vec<(u32, u32)>)
        requires
            self.wf(),
        ensures
            forall|k: int|
                0 <= k < r@.len() ==> self.pair_valid(#[trigger] r@[k]) && self.pair_reg(
                    r@[k],
                ).spec_is_clean(),
            forall|pr: (u32, u32)|
                self.pair_valid(pr) && self.pair_reg(pr).spec_is_clean() ==> r@.contains(pr),
            self.pairs_sorted(Ranking::SweepDest, r@),
    {
        let mut cand: Vec<(u32, u32)> = Vec::new();
        let np = self.pools.len();
        let mut p: usize = 0;
        while p < np
            invariant
                self.wf(),
                np == self.pools@.len(),
                p <= np,
                forall|k: int|
                    0 <= k < cand@.len() ==> self.pair_valid(#[trigger] cand@[k]) && self.pair_reg(
                        cand@[k],
                    ).spec_is_clean(),
                forall|pr: (u32, u32)|
                    self.pair_valid(pr) && pr.0 < p && self.pair_reg(pr).spec_is_clean()
                        ==> cand@.contains(pr),
            decreases np - p,
        {
            let nr = self.pools[p].reigons.len();
            let mut q: usize = 0;
            while q < nr
                invariant
                    self.wf(),
                    np == self.pools@.len(),
                    p < np,
                    nr == self.pools@[p as int].reigons@.len(),
                    q <= nr,
                    forall|k: int|
                        0 <= k < cand@.len() ==> self.pair_valid(#[trigger] cand@[k])
                            && self.pair_reg(cand@[k]).spec_is_clean(),
                    forall|pr: (u32, u32)|
                        self.pair_valid(pr) && (pr.0 < p || (pr.0 == p && pr.1 < q))
                            && self.pair_reg(pr).spec_is_clean() ==> cand@.contains(pr),
                decreases nr - q,
            {
                let ghost before = cand@;
                if self.pools[p].reigons[q].is_clean() {
                    cand.push((p as u32, q as u32));
                }
                proof {
                    assert forall|pr: (u32, u32)|
                        self.pair_valid(pr) && (pr.0 < p || (pr.0 == p && pr.1 < q + 1))
                            && self.pair_reg(pr).spec_is_clean() implies cand@.contains(pr) by {
                        if pr.0 == p && pr.1 == q {
                            assert(cand@.last() == pr);
                        } else {
                            assert(before.contains(pr));
                            let w = choose|w: int| 0 <= w < before.len() && before[w] == pr;
                            assert(cand@[w] == pr);
                        }
                    }
                }
                q = q + 1;
            }
            p = p + 1;
        }
        let sorted = self.sort_pairs(Ranking::SweepDest, cand);
        proof {
            assert forall|k: int| 0 <= k < sorted@.len() implies self.pair_valid(
                #[trigger] sorted@[k],
            ) && self.pair_reg(sorted@[k]).spec_is_clean() by {
                assert(sorted@.contains(sorted@[k]));
                assert(cand@.contains(sorted@[k]));
                let w = choose|w: int| 0 <= w < cand@.len() && cand@[w] == sorted@[k];
            }
        }
        sorted
    }

    /// The configuration fields never change after construction.
    pub open spec fn same_config(a: &PrimativeManager, b: &PrimativeManager) -> bool {
        &&& b.max_id == a.max_id
        &&& b.primative_size == a.primative_size
        &&& b.reigon_size == a.reigon_size
    }

    /// Two pools hold the same state (compared by contents).
    pub open spec fn pool_eq(a: PrimativePool, b: PrimativePool) -> bool {
        &&& b.primative_size == a.primative_size
        &&& b.pool_id == a.pool_id
        &&& b.reigon_size == a.reigon_size
        &&& b.primative_buffer@ == a.primative_buffer@
        &&& b.reigons@ == a.reigons@
    }

    /// Two managers hold the same state (compared by contents).
    pub open spec fn state_eq(a: &PrimativeManager, b: &PrimativeManager) -> bool {
        &&& Self::same_config(a, b)
        &&& b.batches@ == a.batches@
        &&& b.updated_batches@ == a.updated_batches@
        &&& b.batch_description_buffer@ == a.batch_description_buffer@
        &&& b.pools@.len() == a.pools@.len()
        &&& forall|p: int|
            0 <= p < a.pools@.len() ==> Self::pool_eq(#[trigger] a.pools@[p], b.pools@[p])
    }

    /// The two regions agree on everything but the written-this-frame flag.
    pub open spec fn region_eq_mod_written(a: PrimativeReigon, b: PrimativeReigon) -> bool {
        &&& b.primative_offset == a.primative_offset
        &&& b.cap == a.cap
        &&& b.top == a.top
        &&& b.usage == a.usage
        &&& b.batch_ids@ == a.batch_ids@
    }

    /// `b` removed from `a`: one occurrence of `id` gone, `cnt` primitives
    /// released, everything else (including the high-water mark) kept.
    pub open spec fn region_removed(a: PrimativeReigon, b: PrimativeReigon, id: u32, cnt: u32)
        -> bool {
        &&& b.primative_offset == a.primative_offset
        &&& b.cap == a.cap
        &&& b.top == a.top
        &&& b.is_written == a.is_written
        &&& b.usage == a.usage - cnt
        &&& b.batch_ids@.len() == a.batch_ids@.len() - 1
        &&& !b.batch_ids@.contains(id)
        &&& forall|x: u32| x != id ==> (b.batch_ids@.contains(x) <==> a.batch_ids@.contains(x))
    }

    /// Append one fresh pool, copying the previous pool's region count.
    pub fn new_pool(&mut self)
        requires
            old(self).wf(),
            old(self).pools@.len() < u32::MAX,
        ensures
            final(self).wf(),
            Self::same_config(old(self), final(self)),
            final(self).pools@.len() == old(self).pools@.len() + 1,
            forall|p: int|
                0 <= p < old(self).pools@.len() ==> final(self).pools@[p] == old(self).pools@[p],
            spec_pool_fresh(final(self).pools@.last()),
            final(self).pools@.last().reigons@.len() == DEFAULT_REIGON_COUNT,
            final(self).batches@ == old(self).batches@,
            final(self).updated_batches@ == old(self).updated_batches@,
            final(self).batch_description_buffer@ == old(self).batch_description_buffer@,
    {
        let reigon_count: u32 = if self.pools.len() > 0 {
            let n = self.pools.len();
            self.pools[n - 1].reigons.len() as u32
        } else {
            DEFAULT_REIGON_COUNT
        };
        assert(reigon_count == DEFAULT_REIGON_COUNT);
        let pid = self.pools.len() as u32;
        let pool = PrimativePool::new(self.primative_size, pid, self.reigon_size, reigon_count);
        self.pools.push(pool);
        proof {
            let news = self;
            let olds = old(self);
            assert forall|id: int|
                0 <= id < news.batches@.len() && (#[trigger] news.batches@[id]) is Some implies {
                let b = news.batches@[id]->Some_0;
                &&& b.id == id
                &&& news.batch_valid(b)
                &&& news.pools@[b.pool_id as int].reigons@[news.spec_reigon_of(
                    b,
                )].batch_ids@.contains(b.id)
            } by {
                let b = news.batches@[id]->Some_0;
                assert(olds.batch_valid(b));
                assert(news.pools@[b.pool_id as int] == olds.pools@[b.pool_id as int]);
            }
            assert forall|p: int, r: int, k: int|
                0 <= p < news.pools@.len() && 0 <= r < news.pools@[p].reigons@.len() && 0 <= k
                    < news.pools@[p].reigons@[r].batch_ids@.len() implies {
                let id = #[trigger] news.pools@[p].reigons@[r].batch_ids@[k];
                &&& id < news.max_id
                &&& news.batches@[id as int] is Some
                &&& news.batches@[id as int]->Some_0.pool_id == p
                &&& news.spec_reigon_of(news.batches@[id as int]->Some_0) == r
            } by {
                if p < olds.pools@.len() {
                    assert(news.pools@[p] == olds.pools@[p]);
                    assert(olds.pools@[p].reigons@[r].batch_ids@[k] == news.pools@[
                        p].reigons@[r].batch_ids@[k]);
                } else {
                    assert(news.pools@[p].reigons@[r].batch_ids@.len() == 0);
                }
            }
            assert forall|p: int, r: int|
                0 <= p < news.pools@.len() && 0 <= r < news.pools@[p].reigons@.len() implies (
            #[trigger] news.pools@[p].reigons@[r]).usage == ids_count_sum(
                news.pools@[p].reigons@[r].batch_ids@,
                news.batches@,
            ) by {
                if p < olds.pools@.len() {
                    assert(news.pools@[p] == olds.pools@[p]);
                    assert(olds.pools@[p].reigons@[r].usage == ids_count_sum(
                        olds.pools@[p].reigons@[r].batch_ids@,
                        olds.batches@,
                    ));
                } else {
                    assert(news.pools@[p].reigons@[r].batch_ids@ =~= Seq::<u32>::empty());
                }
            }
        }
    }

    /// Drop `id`'s record and release its span in the region holding it.
    ///
    /// The identifier must already be marked dirty, so the description table
    /// invariant survives the record disappearing.
    fn remove_batch_from_reigon(&mut self, id: u32)
        requires
            old(self).wf(),
            id < old(self).max_id,
            old(self).updated_batches@.contains(id),
        ensures
            final(self).wf(),
            Self::same_config(old(self), final(self)),
            final(self).updated_batches@ == old(self).updated_batches@,
            final(self).batch_description_buffer@ == old(self).batch_description_buffer@,
            final(self).batches@ == old(self).batches@.update(id as int, None),
            final(self).pools@.len() == old(self).pools@.len(),
            old(self).batches@[id as int] is None ==> final(self).pools@ == old(self).pools@,
            old(self).batches@[id as int] is Some ==> {
                let b = old(self).batches@[id as int]->Some_0;
                let tp = b.pool_id as int;
                let tr = old(self).spec_reigon_of(b);
                &&& forall|q: int|
                    0 <= q < old(self).pools@.len() && q != tp ==> final(self).pools@[q]
                        == old(self).pools@[q]
                &&& final(self).pools@[tp].primative_buffer@
                    == old(self).pools@[tp].primative_buffer@
                &&& final(self).pools@[tp].primative_size == old(self).pools@[tp].primative_size
                &&& final(self).pools@[tp].pool_id == old(self).pools@[tp].pool_id
                &&& final(self).pools@[tp].reigon_size == old(self).pools@[tp].reigon_size
                &&& final(self).pools@[tp].reigons@.len() == old(self).pools@[tp].reigons@.len()
                &&& forall|s: int|
                    0 <= s < old(self).pools@[tp].reigons@.len() && s != tr ==> final(self).pools@[
                        tp].reigons@[s] == old(self).pools@[tp].reigons@[s]
                &&& Self::region_removed(
                    old(self).pools@[tp].reigons@[tr],
                    final(self).pools@[tp].reigons@[tr],
                    id,
                    b.count,
                )
            },
    {
        let rec = self.batches[id as usize];
        if let Some(b) = rec {
            let ghost olds = *old(self);
            let rix_u = b.offset / self.reigon_size;
            proof {
                assert(olds.batch_valid(b));
            }
            let pid = b.pool_id as usize;
            let rix = rix_u as usize;
            proof {
                assert(rix == olds.spec_reigon_of(b));
                // The record is counted inside the region's usage, so the
                // subtraction below cannot underflow.
                assert(count_of(olds.batches@, id) == b.count);
                assert(olds.pools@[pid as int].reigons@[rix as int].batch_ids@.contains(id));
                lemma_sum_member_le(
                    olds.pools@[pid as int].reigons@[rix as int].batch_ids@,
                    olds.batches@,
                    id,
                );
            }
            let k = find_id(&self.pools[pid].reigons[rix].batch_ids, id);
            let reg = &mut self.pools[pid].reigons[rix];
            let ghost old_ids = reg.batch_ids@;
            reg.batch_ids.swap_remove(k);
            reg.usage = reg.usage - b.count;
            self.batches[id as usize] = None;
            proof {
                let news = self;
                lemma_sum_swap_remove(old_ids, olds.batches@, k as int);
                let new_ids = news.pools@[pid as int].reigons@[rix as int].batch_ids@;
                assert(new_ids == old_ids.update(k as int, old_ids.last()).drop_last());
                // The region no longer holds `id`, and holds everything else
                // it held.
                assert forall|x: u32| new_ids.contains(x) implies old_ids.contains(x) && (x != id
                    || old_ids[k as int] != id || exists|w: int|
                    0 <= w < old_ids.len() && w != k && old_ids[w] == x) by {
                    let w = choose|w: int| 0 <= w < new_ids.len() && new_ids[w] == x;
                    if w == k {
                        assert(old_ids.last() == x);
                        assert(old_ids[old_ids.len() - 1] == x);
                    } else {
                        assert(old_ids[w] == x);
                    }
                }
                assert(!new_ids.contains(id)) by {
                    if new_ids.contains(id) {
                        let w = choose|w: int| 0 <= w < new_ids.len() && new_ids[w] == id;
                        if w == k {
                            assert(old_ids[old_ids.len() - 1] == id);
                            assert(old_ids[k as int] == id);
                        } else {
                            assert(old_ids[w] == id);
                            assert(old_ids[k as int] == id);
                        }
                    }
                }
                assert forall|x: u32| x != id && old_ids.contains(x) implies new_ids.contains(
                    x,
                ) by {
                    let w = choose|w: int| 0 <= w < old_ids.len() && old_ids[w] == x;
                    assert(old_ids[k as int] == id);
                    if w == old_ids.len() - 1 {
                        assert(new_ids[k as int] == x);
                    } else {
                        assert(new_ids[w] == x);
                    }
                }
                assert(unique_seq(new_ids)) by {
                    assert forall|v: int, w: int| 0 <= v < w < new_ids.len() implies new_ids[v]
                        != new_ids[w] by {
                        if v == k {
                            assert(new_ids[v] == old_ids[old_ids.len() - 1]);
                            assert(new_ids[w] == old_ids[w]);
                        } else if w == k {
                            assert(new_ids[w] == old_ids[old_ids.len() - 1]);
                            assert(new_ids[v] == old_ids[v]);
                        } else {
                            assert(new_ids[v] == old_ids[v] && new_ids[w] == old_ids[w]);
                        }
                    }
                }
                // Records other than `id` are untouched, and no other region
                // holds `id`, so every sum survives the record update.
                assert forall|p: int, r: int|
                    0 <= p < news.pools@.len() && 0 <= r
                        < news.pools@[p].reigons@.len() implies (
                #[trigger] news.pools@[p].reigons@[r]).usage == ids_count_sum(
                    news.pools@[p].reigons@[r].batch_ids@,
                    news.batches@,
                ) by {
                    if p == pid as int && r == rix as int {
                        lemma_sum_recs_update_absent(new_ids, olds.batches@, id, None);
                    } else {
                        assert(olds.pools@[p].reigons@[r] == news.pools@[p].reigons@[r]);
                        assert(!olds.pools@[p].reigons@[r].batch_ids@.contains(id)) by {
                            if olds.pools@[p].reigons@[r].batch_ids@.contains(id) {
                                let w = choose|w: int|
                                    0 <= w < olds.pools@[p].reigons@[r].batch_ids@.len()
                                        && olds.pools@[p].reigons@[r].batch_ids@[w] == id;
                                assert(olds.batches@[id as int]->Some_0.pool_id == p);
                            }
                        }
                        lemma_sum_recs_update_absent(
                            olds.pools@[p].reigons@[r].batch_ids@,
                            olds.batches@,
                            id,
                            None,
                        );
                    }
                }
                assert forall|rid: int|
                    0 <= rid < news.batches@.len() && (#[trigger] news.batches@[rid])
                        is Some implies {
                    let rb = news.batches@[rid]->Some_0;
                    &&& rb.id == rid
                    &&& news.batch_valid(rb)
                    &&& news.pools@[rb.pool_id as int].reigons@[news.spec_reigon_of(
                        rb,
                    )].batch_ids@.contains(rb.id)
                } by {
                    let rb = news.batches@[rid]->Some_0;
                    assert(olds.batches@[rid] is Some && olds.batches@[rid]->Some_0 == rb);
                    assert(olds.batch_valid(rb));
                    if rb.pool_id as int == pid as int && olds.spec_reigon_of(rb) == rix as int {
                        assert(rb.id != id);
                    }
                }
            }
        } else {
            proof {
                assert(old(self).batches@.update(id as int, None) =~= old(self).batches@);
            }
        }
    }

    /// Remove the given batches: their records disappear, their regions'
    /// usage drops, and their description entries are marked for zeroing.
    pub fn remove_batches(&mut self, ids: &[u32])
        requires
            old(self).wf(),
            forall|i: int| 0 <= i < ids@.len() ==> ids@[i] < old(self).max_id,
        ensures
            final(self).wf(),
            Self::same_config(old(self), final(self)),
            final(self).pools@.len() == old(self).pools@.len(),
            final(self).batches@.len() == old(self).batches@.len(),
            forall|i: int|
                0 <= i < ids@.len() ==> final(self).batches@[ids@[i] as int] is None
                    && final(self).updated_batches@.contains(#[trigger] ids@[i]),
            forall|x: int|
                0 <= x < old(self).batches@.len() && !ids@.contains(x as u32)
                    ==> final(self).batches@[x] == old(self).batches@[x],
            final(self).batch_description_buffer@ == old(self).batch_description_buffer@,
            forall|p: int|
                0 <= p < old(self).pools@.len() ==> #[trigger] final(self).pools@[
                    p].primative_buffer@ == old(self).pools@[p].primative_buffer@ && final(self)
                    .pools@[p].reigons@.len() == old(self).pools@[p].reigons@.len(),
            forall|p: int, r: int|
                0 <= p < old(self).pools@.len() && 0 <= r < old(self).pools@[p].reigons@.len()
                    ==> {
                    let a = old(self).pools@[p].reigons@[r];
                    let b = #[trigger] final(self).pools@[p].reigons@[r];
                    &&& b.top == a.top
                    &&& b.cap == a.cap
                    &&& b.primative_offset == a.primative_offset
                    &&& b.is_written == a.is_written
                    &&& b.usage <= a.usage
                    &&& (forall|x: u32|
                        b.batch_ids@.contains(x) <==> (a.batch_ids@.contains(x) && !ids@.contains(
                            x,
                        )))
                },
    {
        let n = ids.len();
        let mut i: usize = 0;
        while i < n
            invariant
                self.wf(),
                n == ids@.len(),
                i <= n,
                old(self).wf(),
                Self::same_config(old(self), self),
                self.pools@.len() == old(self).pools@.len(),
                self.batches@.len() == old(self).batches@.len(),
                forall|j: int| 0 <= j < n ==> ids@[j] < self.max_id,
                forall|j: int|
                    0 <= j < i ==> self.batches@[ids@[j] as int] is None
                        && self.updated_batches@.contains(#[trigger] ids@[j]),
                forall|x: int|
                    0 <= x < old(self).batches@.len() && !ids@.contains(x as u32)
                        ==> self.batches@[x] == old(self).batches@[x],
                self.batch_description_buffer@ == old(self).batch_description_buffer@,
                forall|p: int|
                    0 <= p < old(self).pools@.len() ==> #[trigger] self.pools@[
                        p].primative_buffer@ == old(self).pools@[p].primative_buffer@
                        && self.pools@[p].reigons@.len() == old(self).pools@[p].reigons@.len(),
                forall|p: int, r: int|
                    0 <= p < old(self).pools@.len() && 0 <= r < old(self).pools@[p].reigons@.len()
                        ==> {
                        let a = old(self).pools@[p].reigons@[r];
                        let b = #[trigger] self.pools@[p].reigons@[r];
                        &&& b.top == a.top
                        &&& b.cap == a.cap
                        &&& b.primative_offset == a.primative_offset
                        &&& b.is_written == a.is_written
                        &&& b.usage <= a.usage
                        &&& (forall|x: u32|
                            b.batch_ids@.contains(x) <==> (a.batch_ids@.contains(x)
                                && !ids@.take(i as int).contains(x)))
                    },
            decreases n - i,
    {
            let id = ids[i];
            let ghost prev = *self;
            self.update_batch_gpu(id);
            let ghost prev2 = *self;
            self.remove_batch_from_reigon(id);
            proof {
                assert(ids@.contains(ids@[i as int]));
                if prev2.batches@[id as int] is None {
                    prev2.lemma_unrecorded_not_resident(id);
                }
                assert forall|p: int, r: int|
                    0 <= p < old(self).pools@.len() && 0 <= r < old(self).pools@[
                        p].reigons@.len() implies {
                    let a = old(self).pools@[p].reigons@[r];
                    let b = #[trigger] self.pools@[p].reigons@[r];
                    &&& b.top == a.top
                    &&& b.cap == a.cap
                    &&& b.primative_offset == a.primative_offset
                    &&& b.is_written == a.is_written
                    &&& b.usage <= a.usage
                    &&& (forall|x: u32|
                        b.batch_ids@.contains(x) <==> (a.batch_ids@.contains(x) && !ids@.take(
                            i + 1,
                        ).contains(x)))
                } by {
                    let a = old(self).pools@[p].reigons@[r];
                    let b = self.pools@[p].reigons@[r];
                    let c = prev2.pools@[p].reigons@[r];
                    assert forall|x: u32| b.batch_ids@.contains(x) <==> (a.batch_ids@.contains(x)
                        && !ids@.take(i + 1).contains(x)) by {
                        assert(ids@.take(i + 1).contains(x) <==> (ids@.take(i as int).contains(x)
                            || x == id)) by {
                            if ids@.take(i + 1).contains(x) {
                                let w = choose|w: int|
                                    0 <= w < i + 1 && #[trigger] ids@.take(i + 1)[w] == x;
                                if w < i {
                                    assert(ids@.take(i as int)[w] == x);
                                }
                            }
                            if ids@.take(i as int).contains(x) {
                                let w = choose|w: int|
                                    0 <= w < i && #[trigger] ids@.take(i as int)[w] == x;
                                assert(ids@.take(i + 1)[w] == x);
                            }
                            if x == id {
                                assert(ids@.take(i + 1)[i as int] == x);
                            }
                        }
                        if prev2.batches@[id as int] is Some {
                            let ob = prev2.batches@[id as int]->Some_0;
                            let tp = ob.pool_id as int;
                            let tr = prev2.spec_reigon_of(ob);
                            if p == tp && r == tr {
                                assert(Self::region_removed(c, b, id, ob.count));
                            } else {
                                assert(b == c);
                                assert(!c.batch_ids@.contains(id)) by {
                                    if c.batch_ids@.contains(id) {
                                        let w = choose|w: int|
                                            0 <= w < c.batch_ids@.len() && c.batch_ids@[w] == id;
                                        assert(prev2.batches@[id as int]->Some_0.pool_id == p);
                                    }
                                }
                            }
                        } else {
                            assert(b == c);
                            assert(!c.batch_ids@.contains(id));
                        }
                    }
                }
            }
            i = i + 1;
        }
    }

    /// Bytes a record's span occupies in its pool buffer.
    pub open spec fn spec_batch_span_bytes(&self, b: PrimativeBatch) -> Seq<u8> {
        self.pools@[b.pool_id as int].primative_buffer@.subrange(
            b.offset as int * self.primative_size as int,
            (b.offset + b.count) * self.primative_size as int,
        )
    }

    /// The payload an upload staged in the ring.
    pub open spec fn spec_upload_bytes(&self, stencil_data: Seq<u8>, u: BatchUpload) -> Seq<u8> {
        stencil_data.subrange(
            u.byte_offset as int,
            u.byte_offset + u.primative_count * self.primative_size as int,
        )
    }

    /// The placement copy of one placed upload: its staged bytes, from the
    /// ring, into its record's span of its record's pool.
    pub open spec fn spec_upload_cmd(&self, u: BatchUpload) -> CopyCommand {
        let b = self.batches@[u.id as int]->Some_0;
        CopyCommand {
            src: BufferId::Stencil,
            dst: BufferId::Pool(b.pool_id),
            src_offset: u.byte_offset as u64,
            dst_offset: ((b.offset as int * self.primative_size as int) as u64),
            size: ((u.primative_count as int * self.primative_size as int) as u64),
        }
    }

    /// The placement copies of uploads `[a, b)`: one per upload with a
    /// non-empty payload, in upload order.
    pub open spec fn spec_placement_cmds(&self, uploads: Seq<BatchUpload>, a: int, b: int) -> Seq<
        CopyCommand,
    >
        decreases b - a,
    {
        if b <= a {
            Seq::empty()
        } else {
            self.spec_placement_cmds(uploads, a, b - 1) + (if uploads[b - 1].primative_count > 0 {
                seq![self.spec_upload_cmd(uploads[b - 1])]
            } else {
                Seq::empty()
            })
        }
    }

    /// The upload is placed: its record is live with the staged count and
    /// the pool holds exactly the staged bytes (the round trip).
    pub open spec fn placed_upload_ok(&self, stencil_data: Seq<u8>, u: BatchUpload) -> bool {
        &&& u.id < self.batches@.len()
        &&& self.batches@[u.id as int] is Some
        &&& {
            let b = self.batches@[u.id as int]->Some_0;
            &&& b.count == u.primative_count
            &&& self.spec_batch_span_bytes(b) == self.spec_upload_bytes(stencil_data, u)
        }
    }

    /// Set a region's written-this-frame flag: placement sets it so the
    /// sweep will not compact the region, and the end of the frame clears
    /// it.
    fn set_written(&mut self, pid: usize, rid: usize, val: bool)
        requires
            old(self).wf(),
            pid < old(self).pools@.len(),
            rid < old(self).pools@[pid as int].reigons@.len(),
        ensures
            final(self).wf(),
            Self::same_config(old(self), final(self)),
            final(self).batches@ == old(self).batches@,
            final(self).updated_batches@ == old(self).updated_batches@,
            final(self).batch_description_buffer@ == old(self).batch_description_buffer@,
            final(self).pools@.len() == old(self).pools@.len(),
            forall|q: int|
                0 <= q < old(self).pools@.len() && q != pid ==> final(self).pools@[q] == old(
                    self,
                ).pools@[q],
            final(self).pools@[pid as int].primative_buffer@ == old(
                self,
            ).pools@[pid as int].primative_buffer@,
            final(self).pools@[pid as int].reigons@.len() == old(
                self,
            ).pools@[pid as int].reigons@.len(),
            forall|s: int|
                0 <= s < old(self).pools@[pid as int].reigons@.len() && s != rid ==> final(self)
                    .pools@[pid as int].reigons@[s] == old(self).pools@[pid as int].reigons@[s],
            final(self).pools@[pid as int].reigons@[rid as int] == (PrimativeReigon {
                is_written: val,
                ..old(self).pools@[pid as int].reigons@[rid as int]
            }),
    {
        let reg = &mut self.pools[pid].reigons[rid];
        reg.is_written = val;
        proof {
            let olds = old(self);
            let news = self;
            assert(news.pools@[pid as int].reigons@[rid as int] == (PrimativeReigon {
                is_written: val,
                ..olds.pools@[pid as int].reigons@[rid as int]
            }));
            assert forall|p: int, r: int|
                0 <= p < news.pools@.len() && 0 <= r < news.pools@[p].reigons@.len() implies (
            #[trigger] news.pools@[p].reigons@[r]).usage == ids_count_sum(
                news.pools@[p].reigons@[r].batch_ids@,
                news.batches@,
            ) by {
                assert(olds.pools@[p].reigons@[r].usage == ids_count_sum(
                    olds.pools@[p].reigons@[r].batch_ids@,
                    olds.batches@,
                ));
                if p == pid as int && r == rid as int {
                    assert(news.pools@[p].reigons@[r].batch_ids@ == olds.pools@[
                        p].reigons@[r].batch_ids@);
                }
            }
            assert forall|id: int|
                0 <= id < news.batches@.len() && (#[trigger] news.batches@[id]) is Some implies {
                let b = news.batches@[id]->Some_0;
                &&& b.id == id
                &&& news.batch_valid(b)
                &&& news.pools@[b.pool_id as int].reigons@[news.spec_reigon_of(
                    b,
                )].batch_ids@.contains(b.id)
            } by {
                let b = news.batches@[id]->Some_0;
                assert(olds.batch_valid(b));
                assert(olds.pools@[b.pool_id as int].reigons@[olds.spec_reigon_of(
                    b,
                )].batch_ids@.contains(b.id));
                assert(news.pools@[b.pool_id as int].reigons@[news.spec_reigon_of(
                    b,
                )].batch_ids@ == olds.pools@[b.pool_id as int].reigons@[olds.spec_reigon_of(
                    b,
                )].batch_ids@);
            }
            assert forall|p: int, r: int, k: int|
                0 <= p < news.pools@.len() && 0 <= r < news.pools@[p].reigons@.len() && 0 <= k
                    < news.pools@[p].reigons@[r].batch_ids@.len() implies {
                let id = #[trigger] news.pools@[p].reigons@[r].batch_ids@[k];
                &&& id < news.max_id
                &&& news.batches@[id as int] is Some
                &&& news.batches@[id as int]->Some_0.pool_id == p
                &&& news.spec_reigon_of(news.batches@[id as int]->Some_0) == r
            } by {
                assert(news.pools@[p].reigons@[r].batch_ids@ == olds.pools@[
                    p].reigons@[r].batch_ids@);
                assert(olds.pools@[p].reigons@[r].batch_ids@[k] == news.pools@[
                    p].reigons@[r].batch_ids@[k]);
            }
        }
    }

    /// No region holds an identifier whose record is gone.
    proof fn lemma_unrecorded_not_resident(&self, id: u32)
        requires
            self.wf(),
            id < self.max_id,
            self.batches@[id as int] is None,
        ensures
            forall|p: int, r: int|
                0 <= p < self.pools@.len() && 0 <= r < self.pools@[p].reigons@.len()
                    ==> !(#[trigger] self.pools@[p].reigons@[r].batch_ids@).contains(id),
    {
        assert forall|p: int, r: int|
            0 <= p < self.pools@.len() && 0 <= r < self.pools@[p].reigons@.len() implies !(
        #[trigger] self.pools@[p].reigons@[r].batch_ids@).contains(id) by {
            if self.pools@[p].reigons@[r].batch_ids@.contains(id) {
                let k = choose|k: int|
                    0 <= k < self.pools@[p].reigons@[r].batch_ids@.len() && self.pools@[
                        p].reigons@[r].batch_ids@[k] == id;
                assert(self.batches@[id as int] is Some);
            }
        }
    }

    /// Try to place one upload into the given region: all-or-nothing bump
    /// allocation, record creation, and the staging-to-pool byte copy.
    /// Returns the allocated pool-relative primitive offset.
    fn place_one(&mut self, stencil: &StencilBuffer, u: BatchUpload, pid: usize, rid: usize) -> (r:
        Option<u32>)
        requires
            old(self).wf(),
            stencil.wf(),
            pid < old(self).pools@.len(),
            rid < old(self).pools@[pid as int].reigons@.len(),
            u.id < old(self).max_id,
            0 < u.primative_count,
            old(self).batches@[u.id as int] is None,
            old(self).updated_batches@.contains(u.id),
            u.byte_offset + u.primative_count * old(self).primative_size <= stencil.data@.len(),
        ensures
            final(self).wf(),
            Self::same_config(old(self), final(self)),
            final(self).pools@.len() == old(self).pools@.len(),
            final(self).updated_batches@ == old(self).updated_batches@,
            final(self).batch_description_buffer@ == old(self).batch_description_buffer@,
            forall|p: int|
                0 <= p < old(self).pools@.len() ==> #[trigger] final(self).pools@[p].reigons@.len()
                    == old(self).pools@[p].reigons@.len(),
            (r is Some) == (old(self).pools@[pid as int].reigons@[rid as int].top
                + u.primative_count <= old(self).pools@[pid as int].reigons@[rid as int].cap),
            r is None ==> Self::state_eq(old(self), final(self)),
            r is Some ==> {
                &&& final(self).batches@ == old(self).batches@.update(
                    u.id as int,
                    Some(
                        (PrimativeBatch {
                            count: u.primative_count,
                            offset: r->Some_0,
                            id: u.id,
                            pool_id: pid as u32,
                        }),
                    ),
                )
                &&& final(self).placed_upload_ok(stencil.data@, u)
                &&& forall|q: int|
                    0 <= q < old(self).pools@.len() && q != pid ==> final(self).pools@[q] == old(
                        self,
                    ).pools@[q]
                &&& forall|s: int|
                    0 <= s < old(self).pools@[pid as int].reigons@.len() && s != rid ==> final(self)
                        .pools@[pid as int].reigons@[s] == old(self).pools@[pid as int].reigons@[s]
                &&& final(self).pools@[pid as int].reigons@[rid as int].is_written == old(
                    self,
                ).pools@[pid as int].reigons@[rid as int].is_written
                &&& final(self).spec_reigon_of(final(self).batches@[u.id as int]->Some_0) == rid
                &&& (forall|x: int|
                    0 <= x < old(self).batches@.len() && x != u.id && (#[trigger] old(
                        self,
                    ).batches@[x]) is Some ==> final(self).spec_batch_span_bytes(
                        old(self).batches@[x]->Some_0,
                    ) == old(self).spec_batch_span_bytes(old(self).batches@[x]->Some_0))
            },
    {
        let ghost olds = *old(self);
        let count = u.primative_count;
        let ps = self.primative_size;
        let ghost rs = olds.reigon_size as int;
        let ghost nregs = olds.pools@[pid as int].reigons@.len() as int;
        proof {
            olds.lemma_unrecorded_not_resident(u.id);
        }
        let reg = &mut self.pools[pid].reigons[rid];
        let ghost old_reg = *reg;
        let alloc = reg.allocate(count);
        if alloc.is_none() {
            proof {
                assert(self.pools@[pid as int].reigons@ =~= olds.pools@[pid as int].reigons@);
                assert(Self::pool_eq(olds.pools@[pid as int], self.pools@[pid as int]));
            }
            return None;
        }
        let off = match alloc {
            Some(o) => o,
            None => 0,
        };
        reg.batch_ids.push(u.id);
        let b = PrimativeBatch { count, offset: off, id: u.id, pool_id: pid as u32 };
        self.batches[u.id as usize] = Some(b);
        let dst_off = crate::region::mul_u32(off, ps);
        let size = crate::region::mul_u32(count, ps);
        proof {
            // The allocated span sits inside region `rid`, whose bytes sit
            // inside the pool buffer.
            assert(old_reg.primative_offset == rid as int * rs);
            assert(off == rid as int * rs + old_reg.top);
            assert(off + count <= (rid as int + 1) * rs) by (nonlinear_arith)
                requires
                    off == rid as int * rs + old_reg.top && old_reg.top + count <= rs,
            ;
            assert((off + count) * ps <= ps as int * rs * nregs) by (nonlinear_arith)
                requires
                    off + count <= (rid as int + 1) * rs && rid as int + 1 <= nregs && 0 <= ps && 0
                        <= rs && 0 <= off + count,
            ;
            assert((off + count) * ps == off as int * ps + count as int * ps) by (nonlinear_arith);
            assert(olds.pools@[pid as int].primative_buffer@.len() == ps as int * rs * nregs);
            assert(self.pools@[pid as int].primative_buffer@ == olds.pools@[
                pid as int].primative_buffer@);
        }
        let blen = self.pools[pid].primative_buffer.len();
        let slen = stencil.data.len();
        copy_bytes_at(
            &mut self.pools[pid].primative_buffer,
            dst_off as usize,
            stencil.data.as_slice(),
            u.byte_offset as usize,
            size as usize,
        );
        proof {
            let news = self;
            let new_ids = news.pools@[pid as int].reigons@[rid as int].batch_ids@;
            let old_buf = olds.pools@[pid as int].primative_buffer@;
            let new_buf = news.pools@[pid as int].primative_buffer@;
            let written = stencil.data@.subrange(
                u.byte_offset as int,
                u.byte_offset + size as int,
            );
            assert(new_buf == crate::byteops::seq_write(old_buf, dst_off as int, written));
            assert(new_ids == old_reg.batch_ids@.push(u.id));
            assert(news.batches@ == olds.batches@.update(u.id as int, Some(b)));
            // The new record names its region.
            assert(news.spec_reigon_of(b) == rid) by {
                vstd::arithmetic::div_mod::lemma_fundamental_div_mod_converse(
                    off as int,
                    rs,
                    rid as int,
                    off - rid as int * rs,
                );
            }
            assert(news.batch_valid(b));
            // Region sums: the new resident adds exactly its count; no other
            // region holds this identifier.
            assert forall|p: int, q: int|
                0 <= p < news.pools@.len() && 0 <= q < news.pools@[p].reigons@.len() implies (
            #[trigger] news.pools@[p].reigons@[q]).usage == ids_count_sum(
                news.pools@[p].reigons@[q].batch_ids@,
                news.batches@,
            ) by {
                if p == pid as int && q == rid as int {
                    lemma_sum_recs_update_absent(
                        old_reg.batch_ids@,
                        olds.batches@,
                        u.id,
                        Some(b),
                    );
                    assert(new_ids.drop_last() =~= old_reg.batch_ids@);
                    assert(count_of(news.batches@, u.id) == count);
                } else {
                    assert(news.pools@[p].reigons@[q] == olds.pools@[p].reigons@[q]);
                    lemma_sum_recs_update_absent(
                        olds.pools@[p].reigons@[q].batch_ids@,
                        olds.batches@,
                        u.id,
                        Some(b),
                    );
                }
            }
            // Residency in both directions.
            assert forall|id: int|
                0 <= id < news.batches@.len() && (#[trigger] news.batches@[id]) is Some implies {
                let w = news.batches@[id]->Some_0;
                &&& w.id == id
                &&& news.batch_valid(w)
                &&& news.pools@[w.pool_id as int].reigons@[news.spec_reigon_of(
                    w,
                )].batch_ids@.contains(w.id)
            } by {
                let w = news.batches@[id]->Some_0;
                if id == u.id {
                    assert(new_ids.last() == u.id);
                    assert(new_ids.contains(u.id));
                } else {
                    assert(olds.batches@[id] is Some && olds.batches@[id]->Some_0 == w);
                    assert(olds.batch_valid(w));
                    if w.pool_id as int == pid as int && olds.spec_reigon_of(w) == rid as int {
                        let k = choose|k: int|
                            0 <= k < old_reg.batch_ids@.len() && old_reg.batch_ids@[k] == w.id;
                        assert(new_ids[k] == w.id);
                        assert(new_ids.contains(w.id));
                    }
                }
            }
            assert forall|p: int, q: int, k: int|
                0 <= p < news.pools@.len() && 0 <= q < news.pools@[p].reigons@.len() && 0 <= k
                    < news.pools@[p].reigons@[q].batch_ids@.len() implies {
                let id = #[trigger] news.pools@[p].reigons@[q].batch_ids@[k];
                &&& id < news.max_id
                &&& news.batches@[id as int] is Some
                &&& news.batches@[id as int]->Some_0.pool_id == p
                &&& news.spec_reigon_of(news.batches@[id as int]->Some_0) == q
            } by {
                if p == pid as int && q == rid as int && k == new_ids.len() - 1 {
                    assert(new_ids[k] == u.id);
                } else {
                    let id = news.pools@[p].reigons@[q].batch_ids@[k];
                    assert(olds.pools@[p].reigons@[q].batch_ids@[k] == id);
                    assert(id != u.id);
                }
            }
            // The round trip: the span reads back the staged payload.
            crate::byteops::lemma_seq_write_inside(old_buf, dst_off as int, written);
            assert(news.spec_batch_span_bytes(b) == news.spec_upload_bytes(stencil.data@, u));
            // Every other live record's bytes survive: its span is disjoint
            // from the span just written.
            assert forall|x: int|
                0 <= x < olds.batches@.len() && x != u.id && (#[trigger] olds.batches@[x])
                    is Some implies news.spec_batch_span_bytes(olds.batches@[x]->Some_0) == olds
                .spec_batch_span_bytes(olds.batches@[x]->Some_0) by {
                let w = olds.batches@[x]->Some_0;
                assert(olds.batch_valid(w));
                if w.pool_id as int != pid as int {
                    assert(news.pools@[w.pool_id as int] == olds.pools@[w.pool_id as int]);
                } else {
                    let wr = olds.spec_reigon_of(w);
                    let wreg = olds.pools@[pid as int].reigons@[wr];
                    assert(wreg.primative_offset == wr * rs);
                    assert(w.offset + w.count <= (wr + 1) * rs) by (nonlinear_arith)
                        requires
                            w.offset + w.count <= wr * rs + wreg.top && wreg.top <= rs,
                    ;
                    if wr == rid as int {
                        // An older resident of the same region lies wholly
                        // below the new allocation.
                        assert(w.offset + w.count <= off);
                        assert((w.offset + w.count) * ps <= off as int * ps) by (nonlinear_arith)
                            requires
                                w.offset + w.count <= off && 0 <= ps,
                        ;
                    } else if wr < rid as int {
                        assert((w.offset + w.count) * ps <= off as int * ps) by (nonlinear_arith)
                            requires
                                w.offset + w.count <= (wr + 1) * rs && wr + 1 <= rid as int && off
                                    >= rid as int * rs && 0 <= ps && 0 <= rs,
                        ;
                    } else {
                        assert(off + count <= (rid as int + 1) * rs);
                        assert((off + count) * ps <= w.offset as int * ps) by (nonlinear_arith)
                            requires
                                off + count <= (rid as int + 1) * rs && rid as int + 1 <= wr && w
                                    .offset >= wr * rs && 0 <= ps && 0 <= rs,
                        ;
                    }
                    assert(0 <= w.offset as int * ps) by (nonlinear_arith)
                        requires
                            0 <= w.offset && 0 <= ps,
                    ;
                    assert((w.offset + w.count) * ps == w.offset as int * ps + w.count as int
                        * ps) by (nonlinear_arith);
                    assert((w.offset + w.count) * ps <= old_buf.len()) by (nonlinear_arith)
                        requires
                            w.offset + w.count <= (wr + 1) * rs && wr + 1 <= nregs && 0 <= ps && 0
                                <= rs && old_buf.len() == ps as int * rs * nregs && 0 <= w.offset
                                + w.count,
                    ;
                    crate::byteops::lemma_seq_write_outside(
                        old_buf,
                        dst_off as int,
                        written,
                        w.offset as int * ps,
                        (w.offset + w.count) * ps,
                    );
                }
            }
        }
        Some(off)
    }

    /// A placed upload's receiving region carries the written-this-frame
    /// mark, so the sweep will not compact it this frame.
    pub open spec fn placed_written(&self, u: BatchUpload) -> bool {
        (u.primative_count > 0 && u.id < self.batches@.len() && self.batches@[u.id as int]
            is Some) ==> {
            let b = self.batches@[u.id as int]->Some_0;
            self.pools@[b.pool_id as int].reigons@[self.spec_reigon_of(b)].is_written
        }
    }

    /// What insertion owes one upload: a non-empty payload that was reached
    /// is placed (record plus bytes); an empty payload never occupies
    /// storage.
    pub open spec fn upload_done(&self, stencil_data: Seq<u8>, u: BatchUpload) -> bool {
        if u.primative_count > 0 {
            self.placed_upload_ok(stencil_data, u)
        } else {
            u.id < self.batches@.len() && self.batches@[u.id as int] is None
        }
    }

    /// Walk the eligible regions, best first, placing the pending uploads
    /// `uploads[start..]` in order; a region that stops fitting the current
    /// upload advances to the next region.  Returns how far the pending
    /// prefix got; every placement's copy command is appended to `cmds`.
    fn insert_into_reigons(
        &mut self,
        stencil: &StencilBuffer,
        uploads: &Vec<BatchUpload>,
        reigons: &Vec<(u32, u32)>,
        start: usize,
        cmds: &mut Vec<CopyCommand>,
    ) -> (end: usize)
        requires
            old(self).wf(),
            stencil.wf(),
            forall|k: int| 0 <= k < reigons@.len() ==> old(self).pair_valid(#[trigger] reigons@[k]),
            start <= uploads@.len(),
            forall|a: int, b: int|
                0 <= a < b < uploads@.len() ==> uploads@[a].id != uploads@[b].id,
            forall|j: int|
                0 <= j < uploads@.len() ==> (#[trigger] uploads@[j]).id < old(self).max_id
                    && uploads@[j].byte_offset + uploads@[j].primative_count * old(
                    self,
                ).primative_size <= stencil.data@.len(),
            forall|j: int|
                start <= j < uploads@.len() ==> old(self).batches@[(#[trigger] uploads@[j]).id
                    as int] is None,
            forall|j: int|
                0 <= j < uploads@.len() ==> old(self).updated_batches@.contains(
                    (#[trigger] uploads@[j]).id,
                ),
        ensures
            final(self).wf(),
            Self::same_config(old(self), final(self)),
            final(self).pools@.len() == old(self).pools@.len(),
            forall|p: int|
                0 <= p < old(self).pools@.len() ==> #[trigger] final(self).pools@[p].reigons@.len()
                    == old(self).pools@[p].reigons@.len(),
            final(self).updated_batches@ == old(self).updated_batches@,
            final(self).batch_description_buffer@ == old(self).batch_description_buffer@,
            start <= end <= uploads@.len(),
            forall|j: int|
                start <= j < end ==> final(self).upload_done(stencil.data@, #[trigger] uploads@[j])
                    && final(self).placed_written(uploads@[j]),
            forall|p: int, r: int|
                0 <= p < old(self).pools@.len() && 0 <= r < old(self).pools@[p].reigons@.len()
                    && old(self).pools@[p].reigons@[r].is_written ==> (#[trigger] final(self)
                    .pools@[p].reigons@[r]).is_written,
            forall|j: int|
                end <= j < uploads@.len() ==> final(self).batches@[(#[trigger] uploads@[j]).id
                    as int] is None,
            forall|x: int|
                0 <= x < old(self).batches@.len() && (#[trigger] old(self).batches@[x]) is Some
                    ==> final(self).batches@[x] == old(self).batches@[x] && final(self)
                    .spec_batch_span_bytes(old(self).batches@[x]->Some_0) == old(self)
                    .spec_batch_span_bytes(old(self).batches@[x]->Some_0),
            forall|x: int|
                0 <= x < old(self).batches@.len() && (#[trigger] old(self).batches@[x]) is None
                    ==> final(self).batches@[x] is None || (exists|j: int|
                    start <= j < end && (#[trigger] uploads@[j]).id == x),
            end < uploads@.len() && reigons@.len() > 0 ==> uploads@[end as int].primative_count
                > 0,
            final(cmds)@ == old(cmds)@ + final(self).spec_placement_cmds(
                uploads@,
                start as int,
                end as int,
            ),
            end == start ==> forall|p: int, rr: int|
                0 <= p < old(self).pools@.len() && 0 <= rr < old(self).pools@[p].reigons@.len()
                    ==> Self::region_eq_mod_written(
                    old(self).pools@[p].reigons@[rr],
                    #[trigger] final(self).pools@[p].reigons@[rr],
                ),
            end == start && start < uploads@.len() ==> forall|k: int|
                0 <= k < reigons@.len() ==> final(self).pair_reg(#[trigger] reigons@[k]).top
                    + uploads@[start as int].primative_count > final(self).pair_reg(
                    reigons@[k],
                ).cap,
    {
        let ghost olds = *old(self);
        let nu = uploads.len();
        let ne = reigons.len();
        let mut i: usize = start;
        let mut e: usize = 0;
        while e < ne && i < nu
            invariant
                self.wf(),
                stencil.wf(),
                Self::same_config(&olds, self),
                self.pools@.len() == olds.pools@.len(),
                forall|p: int|
                    0 <= p < olds.pools@.len() ==> #[trigger] self.pools@[p].reigons@.len()
                        == olds.pools@[p].reigons@.len(),
                self.updated_batches@ == olds.updated_batches@,
                self.batch_description_buffer@ == olds.batch_description_buffer@,
                nu == uploads@.len(),
                ne == reigons@.len(),
                self.batches@.len() == olds.batches@.len(),
                e <= ne,
                start <= i <= nu,
                forall|k: int| 0 <= k < reigons@.len() ==> olds.pair_valid(#[trigger] reigons@[k]),
                forall|a: int, b: int|
                    0 <= a < b < uploads@.len() ==> uploads@[a].id != uploads@[b].id,
                forall|j: int|
                    0 <= j < uploads@.len() ==> (#[trigger] uploads@[j]).id < olds.max_id
                        && uploads@[j].byte_offset + uploads@[j].primative_count
                        * olds.primative_size <= stencil.data@.len(),
                forall|j: int|
                    0 <= j < uploads@.len() ==> olds.updated_batches@.contains(
                        (#[trigger] uploads@[j]).id,
                    ),
                forall|j: int|
                    start <= j < i ==> self.upload_done(stencil.data@, #[trigger] uploads@[j])
                        && self.placed_written(uploads@[j]),
                forall|p: int, r: int|
                    0 <= p < olds.pools@.len() && 0 <= r < olds.pools@[p].reigons@.len()
                        && olds.pools@[p].reigons@[r].is_written ==> (#[trigger] self.pools@[
                        p].reigons@[r]).is_written,
                forall|j: int|
                    i <= j < uploads@.len() ==> self.batches@[(#[trigger] uploads@[j]).id
                        as int] is None,
                forall|x: int|
                    0 <= x < olds.batches@.len() && (#[trigger] olds.batches@[x]) is Some ==> self
                        .batches@[x] == olds.batches@[x] && self.spec_batch_span_bytes(
                        olds.batches@[x]->Some_0,
                    ) == olds.spec_batch_span_bytes(olds.batches@[x]->Some_0),
                forall|x: int|
                    0 <= x < olds.batches@.len() && (#[trigger] olds.batches@[x]) is None ==> self
                        .batches@[x] is None || (exists|j: int|
                        start <= j < i && (#[trigger] uploads@[j]).id == x),
                0 < e && i < nu ==> uploads@[i as int].primative_count > 0,
                cmds@ == old(cmds)@ + self.spec_placement_cmds(uploads@, start as int, i as int),
                i == start ==> forall|p: int, rr: int|
                    0 <= p < olds.pools@.len() && 0 <= rr < olds.pools@[p].reigons@.len()
                        ==> Self::region_eq_mod_written(
                        olds.pools@[p].reigons@[rr],
                        #[trigger] self.pools@[p].reigons@[rr],
                    ),
                i == start && start < nu ==> forall|k: int|
                    0 <= k < e ==> self.pair_reg(#[trigger] reigons@[k]).top + uploads@[
                        start as int].primative_count > self.pair_reg(reigons@[k]).cap,
            decreases ne - e,
        {
            let pr = reigons[e];
            let pid = pr.0 as usize;
            let rid = pr.1 as usize;
            let ghost prev = *self;
            self.set_written(pid, rid, true);
            proof {
                lemma_insert_frame_step(olds, prev, *self, stencil.data@, uploads@, start as int, i as int);
                lemma_placement_cmds_congruence(&prev, &*self, uploads@, start as int, i as int);
            }
            let mut full = false;
            while i < nu && !full
                invariant
                    self.wf(),
                    stencil.wf(),
                    Self::same_config(&olds, self),
                    self.pools@.len() == olds.pools@.len(),
                    forall|p: int|
                        0 <= p < olds.pools@.len() ==> #[trigger] self.pools@[p].reigons@.len()
                            == olds.pools@[p].reigons@.len(),
                    self.updated_batches@ == olds.updated_batches@,
                    self.batch_description_buffer@ == olds.batch_description_buffer@,
                    nu == uploads@.len(),
                    self.batches@.len() == olds.batches@.len(),
                    pid < olds.pools@.len(),
                    rid < olds.pools@[pid as int].reigons@.len(),
                    start <= i <= nu,
                    forall|a: int, b: int|
                        0 <= a < b < uploads@.len() ==> uploads@[a].id != uploads@[b].id,
                    forall|j: int|
                        0 <= j < uploads@.len() ==> (#[trigger] uploads@[j]).id < olds.max_id
                            && uploads@[j].byte_offset + uploads@[j].primative_count
                            * olds.primative_size <= stencil.data@.len(),
                    forall|j: int|
                        0 <= j < uploads@.len() ==> olds.updated_batches@.contains(
                            (#[trigger] uploads@[j]).id,
                        ),
                    forall|j: int|
                        start <= j < i ==> self.upload_done(stencil.data@, #[trigger] uploads@[j])
                            && self.placed_written(uploads@[j]),
                    self.pools@[pid as int].reigons@[rid as int].is_written,
                    forall|p: int, r: int|
                        0 <= p < olds.pools@.len() && 0 <= r < olds.pools@[p].reigons@.len()
                            && olds.pools@[p].reigons@[r].is_written ==> (#[trigger] self.pools@[
                            p].reigons@[r]).is_written,
                    forall|j: int|
                        i <= j < uploads@.len() ==> self.batches@[(#[trigger] uploads@[j]).id
                            as int] is None,
                    forall|x: int|
                        0 <= x < olds.batches@.len() && (#[trigger] olds.batches@[x]) is Some
                            ==> self.batches@[x] == olds.batches@[x] && self.spec_batch_span_bytes(
                            olds.batches@[x]->Some_0,
                        ) == olds.spec_batch_span_bytes(olds.batches@[x]->Some_0),
                    forall|x: int|
                        0 <= x < olds.batches@.len() && (#[trigger] olds.batches@[x]) is None
                            ==> self.batches@[x] is None || (exists|j: int|
                            start <= j < i && (#[trigger] uploads@[j]).id == x),
                    full ==> i < nu && uploads@[i as int].primative_count > 0,
                    cmds@ == old(cmds)@ + self.spec_placement_cmds(
                        uploads@,
                        start as int,
                        i as int,
                    ),
                    i == start ==> forall|p: int, rr: int|
                        0 <= p < olds.pools@.len() && 0 <= rr < olds.pools@[p].reigons@.len()
                            ==> Self::region_eq_mod_written(
                            olds.pools@[p].reigons@[rr],
                            #[trigger] self.pools@[p].reigons@[rr],
                        ),
                    i == start && start < nu ==> forall|k: int|
                        0 <= k < e ==> self.pair_reg(#[trigger] reigons@[k]).top + uploads@[
                            start as int].primative_count > self.pair_reg(reigons@[k]).cap,
                    i == start && full ==> self.pair_reg((pid as u32, rid as u32)).top + uploads@[
                        start as int].primative_count > self.pair_reg((pid as u32, rid as u32)).cap,
                    pid == reigons@[e as int].0 && rid == reigons@[e as int].1,
                    e < ne,
                    ne == reigons@.len(),
                    forall|k: int|
                        0 <= k < reigons@.len() ==> olds.pair_valid(#[trigger] reigons@[k]),
                decreases nu - i, (if full {
                    0int
                } else {
                    1int
                }),
            {
                let u = uploads[i];
                if u.primative_count == 0 {
                    proof {
                        assert(self.upload_done(stencil.data@, uploads@[i as int]));
                        assert(self.spec_placement_cmds(uploads@, start as int, i + 1) =~= self
                            .spec_placement_cmds(uploads@, start as int, i as int));
                    }
                    i = i + 1;
                } else {
                    let ghost prev = *self;
                    let res = self.place_one(stencil, u, pid, rid);
                    match res {
                        None => {
                            proof {
                                lemma_insert_frame_step(olds, prev, *self, stencil.data@, uploads@, start as int, i as int);
                                lemma_placement_cmds_congruence(
                                    &prev,
                                    &*self,
                                    uploads@,
                                    start as int,
                                    i as int,
                                );
                                assert(prev.pools@.len() == olds.pools@.len());
                                assert forall|k: int|
                                    0 <= k < reigons@.len() implies self.pair_reg(
                                    #[trigger] reigons@[k],
                                ) == prev.pair_reg(reigons@[k]) by {
                                    let pidk = reigons@[k].0 as int;
                                    let ridk = reigons@[k].1 as int;
                                    assert(olds.pair_valid(reigons@[k]));
                                    assert(0 <= pidk < prev.pools@.len());
                                    assert(Self::pool_eq(prev.pools@[pidk], self.pools@[pidk]));
                                    assert(self.pools@[pidk].reigons@ == prev.pools@[
                                        pidk].reigons@);
                                }
                                assert(self.pair_reg((pid as u32, rid as u32)) == prev.pair_reg(
                                    (pid as u32, rid as u32),
                                )) by {
                                    assert((pid as u32, rid as u32) == reigons@[e as int]);
                                }
                            }
                            full = true;
                        },
                        Some(off) => {
                            let dst_off = crate::region::mul_u32(off, self.primative_size);
                            let size = crate::region::mul_u32(
                                u.primative_count,
                                self.primative_size,
                            );
                            cmds.push(
                                CopyCommand {
                                    src: BufferId::Stencil,
                                    dst: BufferId::Pool(pid as u32),
                                    src_offset: u.byte_offset as u64,
                                    dst_offset: dst_off,
                                    size,
                                },
                            );
                            proof {
                                lemma_insert_placed_step(
                                    olds,
                                    prev,
                                    *self,
                                    stencil.data@,
                                    uploads@,
                                    start as int,
                                    i as int,
                                );
                                assert forall|j: int|
                                    start <= j < i implies self.batches@[(
                                #[trigger] uploads@[j]).id as int] == prev.batches@[uploads@[
                                    j].id as int] by {
                                    assert(uploads@[j].id != u.id);
                                }
                                lemma_placement_cmds_congruence(
                                    &prev,
                                    &*self,
                                    uploads@,
                                    start as int,
                                    i as int,
                                );
                                assert(cmds@.last() == self.spec_upload_cmd(uploads@[i as int]));
                                assert(cmds@ =~= old(cmds)@ + self.spec_placement_cmds(
                                    uploads@,
                                    start as int,
                                    i + 1,
                                ));
                            }
                            i = i + 1;
                        },
                    }
                }
            }
            e = e + 1;
        }
        i
    }

    /// Whether `x` is the identifier of one of the uploads.
    pub open spec fn spec_is_upload_id(uploads: Seq<BatchUpload>, x: int) -> bool {
        exists|j: int| 0 <= j < uploads.len() && (#[trigger] uploads[j]).id == x
    }

    /// Place an ordered batch of pending uploads, already staged in the
    /// ring.  An identifier being re-inserted first loses its old placement.
    /// The uploads are then walked in order over the regions scoring above
    /// one half, best first; when no region qualifies a fresh pool is grown.
    /// An upload that fits no qualifying region ends the pass: it and
    /// everything after it wait for a later pass.
    ///
    /// Allocation is all-or-nothing and never spans two regions, so a batch
    /// with more primitives than one region holds can never be placed, on
    /// this pass or any later one.  Callers must size regions to the
    /// largest batch they will ever submit.
    ///
    /// Each identifier appears at most once in the batch; a submitter that
    /// sees the same chunk twice in one frame keeps only the newest mesh.
    ///
    /// Returns the device copy commands of this pass and how many uploads of
    /// the ordered batch were placed.
    pub fn insert_batches(&mut self, stencil_buffer: &StencilBuffer, uploads: Vec<BatchUpload>) -> (r: (Vec<CopyCommand>, usize))
        requires
            old(self).wf(),
            stencil_buffer.wf(),
            forall|a: int, b: int|
                0 <= a < b < uploads@.len() ==> uploads@[a].id != uploads@[b].id,
            forall|j: int|
                0 <= j < uploads@.len() ==> (#[trigger] uploads@[j]).id < old(self).max_id
                    && uploads@[j].byte_offset + uploads@[j].primative_count * old(
                    self,
                ).primative_size <= stencil_buffer.data@.len(),
            old(self).pools@.len() + uploads@.len() + 2 <= u32::MAX,
        ensures
            final(self).wf(),
            Self::same_config(old(self), final(self)),
            final(self).batch_description_buffer@ == old(self).batch_description_buffer@,
            old(self).pools@.len() <= final(self).pools@.len(),
            final(self).pools@.len() <= old(self).pools@.len() + uploads@.len() + 2,
            r.1 <= uploads@.len(),
            forall|j: int|
                0 <= j < r.1 ==> final(self).upload_done(stencil_buffer.data@, #[trigger] uploads@[j])
                    && final(self).placed_written(uploads@[j]),
            forall|j: int|
                r.1 <= j < uploads@.len() ==> final(self).batches@[(#[trigger] uploads@[j]).id
                    as int] is None,
            forall|j: int|
                0 <= j < uploads@.len() ==> final(self).updated_batches@.contains(
                    (#[trigger] uploads@[j]).id,
                ),
            r.1 < uploads@.len() ==> uploads@[r.1 as int].primative_count > 0,
            forall|j: int|
                0 <= j < uploads@.len() && (#[trigger] uploads@[j]).primative_count > old(
                    self,
                ).reigon_size ==> final(self).batches@[uploads@[j].id as int] is None,
            forall|x: int|
                0 <= x < old(self).batches@.len() && !Self::spec_is_upload_id(uploads@, x)
                    ==> final(self).batches@[x] == old(self).batches@[x],
            forall|x: int|
                0 <= x < old(self).batches@.len() && !Self::spec_is_upload_id(uploads@, x) && (
                #[trigger] old(self).batches@[x]) is Some ==> final(self).spec_batch_span_bytes(
                    old(self).batches@[x]->Some_0,
                ) == old(self).spec_batch_span_bytes(old(self).batches@[x]->Some_0),
            r.0@ == final(self).spec_placement_cmds(uploads@, 0, r.1 as int),
            forall|k: int|
                0 <= k < r.0@.len() ==> (#[trigger] r.0@[k]).src is Stencil && r.0@[k].dst is Pool,
            r.1 < uploads@.len() ==> forall|pr: (u32, u32)|
                final(self).pair_valid(pr) && (#[trigger] final(self).pair_reg(
                    pr,
                )).spec_score_exceeds_half() ==> final(self).pair_reg(pr).top + uploads@[
                    r.1 as int].primative_count > final(self).pair_reg(pr).cap,
    {
        let ghost olds = *old(self);
        let mut cmds: Vec<CopyCommand> = Vec::new();
        let nu = uploads.len();
        // An identifier being re-inserted is removed first: placement is
        // remove-then-insert.
        let mut k: usize = 0;
        while k < nu
            invariant
                self.wf(),
                Self::same_config(&olds, self),
                nu == uploads@.len(),
                k <= nu,
                self.batches@.len() == olds.batches@.len(),
                self.pools@.len() == olds.pools@.len(),
                self.batch_description_buffer@ == olds.batch_description_buffer@,
                forall|p: int|
                    0 <= p < olds.pools@.len() ==> #[trigger] self.pools@[p].primative_buffer@
                        == olds.pools@[p].primative_buffer@ && self.pools@[p].reigons@.len()
                        == olds.pools@[p].reigons@.len(),
                forall|a: int, b: int|
                    0 <= a < b < uploads@.len() ==> uploads@[a].id != uploads@[b].id,
                forall|j: int|
                    0 <= j < uploads@.len() ==> (#[trigger] uploads@[j]).id < olds.max_id
                        && uploads@[j].byte_offset + uploads@[j].primative_count
                        * olds.primative_size <= stencil_buffer.data@.len(),
                forall|j: int|
                    0 <= j < k ==> self.batches@[(#[trigger] uploads@[j]).id as int] is None
                        && self.updated_batches@.contains(uploads@[j].id),
                forall|x: int|
                    0 <= x < olds.batches@.len() && !Self::spec_is_upload_id(uploads@, x)
                        ==> self.batches@[x] == olds.batches@[x],
            decreases nu - k,
        {
            let id = uploads[k].id;
            self.update_batch_gpu(id);
            self.remove_batch_from_reigon(id);
            proof {
                assert(uploads@[k as int].id == id);
                assert(Self::spec_is_upload_id(uploads@, id as int));
                assert forall|j: int|
                    0 <= j < k + 1 implies self.batches@[(#[trigger] uploads@[j]).id
                    as int] is None && self.updated_batches@.contains(uploads@[j].id) by {
                    if j < k {
                        assert(uploads@[j].id != id);
                    }
                }
            }
            k = k + 1;
        }
        let ghost mid = *self;
        proof {
            assert(cmds@ =~= mid.spec_placement_cmds(uploads@, 0, 0));
        }
        // Walk the pending uploads over the eligible regions, growing a pool
        // whenever none qualifies; stop at the first upload that fits
        // nowhere eligible.
        let mut i: usize = 0;
        let mut stuck = false;
        while i < nu && !stuck
            invariant
                self.wf(),
                stencil_buffer.wf(),
                Self::same_config(&olds, self),
                nu == uploads@.len(),
                i <= nu,
                self.batches@.len() == olds.batches@.len(),
                olds.pools@.len() <= self.pools@.len(),
                self.pools@.len() <= olds.pools@.len() + i + 1 + (if stuck {
                    1int
                } else {
                    0int
                }),
                olds.pools@.len() + nu + 2 <= u32::MAX,
                self.batch_description_buffer@ == olds.batch_description_buffer@,
                forall|a: int, b: int|
                    0 <= a < b < uploads@.len() ==> uploads@[a].id != uploads@[b].id,
                forall|j: int|
                    0 <= j < uploads@.len() ==> (#[trigger] uploads@[j]).id < olds.max_id
                        && uploads@[j].byte_offset + uploads@[j].primative_count
                        * olds.primative_size <= stencil_buffer.data@.len(),
                forall|j: int|
                    0 <= j < uploads@.len() ==> self.updated_batches@.contains(
                        (#[trigger] uploads@[j]).id,
                    ),
                forall|j: int|
                    0 <= j < i ==> self.upload_done(stencil_buffer.data@, #[trigger] uploads@[j])
                        && self.placed_written(uploads@[j]),
                forall|j: int|
                    i <= j < uploads@.len() ==> self.batches@[(#[trigger] uploads@[j]).id
                        as int] is None,
                mid.wf(),
                Self::same_config(&olds, &mid),
                mid.batches@.len() == olds.batches@.len(),
                mid.pools@.len() == olds.pools@.len(),
                forall|p: int|
                    0 <= p < olds.pools@.len() ==> #[trigger] mid.pools@[p].primative_buffer@
                        == olds.pools@[p].primative_buffer@,
                forall|x: int|
                    0 <= x < olds.batches@.len() && !Self::spec_is_upload_id(uploads@, x)
                        ==> mid.batches@[x] == olds.batches@[x],
                forall|x: int|
                    0 <= x < mid.batches@.len() && (#[trigger] mid.batches@[x]) is Some ==> self
                        .batches@[x] == mid.batches@[x] && self.spec_batch_span_bytes(
                        mid.batches@[x]->Some_0,
                    ) == mid.spec_batch_span_bytes(mid.batches@[x]->Some_0),
                forall|x: int|
                    0 <= x < mid.batches@.len() && (#[trigger] mid.batches@[x]) is None ==> self
                        .batches@[x] is None || (exists|j: int|
                        0 <= j < i && (#[trigger] uploads@[j]).id == x),
                stuck ==> i < nu && uploads@[i as int].primative_count > 0,
                cmds@ == self.spec_placement_cmds(uploads@, 0, i as int),
                stuck ==> forall|pr: (u32, u32)|
                    self.pair_valid(pr) && (#[trigger] self.pair_reg(
                        pr,
                    )).spec_score_exceeds_half() ==> self.pair_reg(pr).top + uploads@[
                        i as int].primative_count > self.pair_reg(pr).cap,
            decreases nu - i, (if stuck {
                0int
            } else {
                1int
            }),
        {
            let ghost prev = *self;
            let mut eligible = self.collect_eligible();
            if eligible.len() == 0 {
                self.new_pool();
                eligible = self.collect_eligible();
                proof {
                    let np = self.pools@.len() - 1;
                    assert(spec_pool_fresh(self.pools@[np]));
                    assert(self.pools@[np].reigons@[0].top == 0);
                    assert(self.pair_valid(((np) as u32, 0u32)));
                    assert(self.pair_reg(((np) as u32, 0u32)).spec_score_exceeds_half());
                    assert(eligible@.contains(((np) as u32, 0u32)));
                    assert(eligible@.len() > 0);
                    lemma_insert_frame_step(
                        mid,
                        prev,
                        *self,
                        stencil_buffer.data@,
                        uploads@,
                        0,
                        i as int,
                    );
                    lemma_placement_cmds_congruence(&prev, &*self, uploads@, 0, i as int);
                }
            }
            let ghost prev2 = *self;
            let before = i;
            i = self.insert_into_reigons(stencil_buffer, &uploads, &eligible, before, &mut cmds);
            proof {
                assert forall|j: int|
                    0 <= j < before implies self.batches@[(#[trigger] uploads@[j]).id as int]
                    == prev2.batches@[uploads@[j].id as int] by {
                    let u = uploads@[j];
                    if u.primative_count > 0 {
                        assert(prev2.batches@[u.id as int] is Some);
                    } else {
                        assert(prev2.batches@[u.id as int] is None);
                        if !(self.batches@[u.id as int] is None) {
                            let w = choose|w: int|
                                before <= w < i && (#[trigger] uploads@[w]).id == u.id;
                        }
                    }
                }
                lemma_placement_cmds_congruence(&prev2, &*self, uploads@, 0, before as int);
                lemma_placement_cmds_concat(&*self, uploads@, 0, before as int, i as int);
            }
            proof {
                assert forall|j: int|
                    0 <= j < i implies self.upload_done(stencil_buffer.data@, #[trigger] uploads@[j])
                        && self.placed_written(uploads@[j]) by {
                    if j < before {
                        let u = uploads@[j];
                        if u.primative_count > 0 {
                            let b = prev2.batches@[u.id as int]->Some_0;
                            assert(prev2.batch_valid(b));
                            assert(self.batches@[u.id as int] == prev2.batches@[u.id as int]);
                            assert(prev2.pools@[b.pool_id as int].reigons@[prev2.spec_reigon_of(
                                b,
                            )].is_written);
                        }
                    }
                }
                assert forall|x: int|
                    0 <= x < mid.batches@.len() && (#[trigger] mid.batches@[x]) is Some implies self
                    .batches@[x] == mid.batches@[x] && self.spec_batch_span_bytes(
                    mid.batches@[x]->Some_0,
                ) == mid.spec_batch_span_bytes(mid.batches@[x]->Some_0) by {
                    assert(prev2.batches@[x] == mid.batches@[x]);
                }
                assert forall|x: int|
                    0 <= x < mid.batches@.len() && (#[trigger] mid.batches@[x]) is None implies self
                    .batches@[x] is None || (exists|j: int|
                    0 <= j < i && (#[trigger] uploads@[j]).id == x) by {
                    if prev2.batches@[x] is None {
                        if !(self.batches@[x] is None) {
                            let j = choose|j: int|
                                before <= j < i && (#[trigger] uploads@[j]).id == x;
                            assert(0 <= j < i && uploads@[j].id == x);
                        }
                    } else {
                        let j = choose|j: int| 0 <= j < before && (#[trigger] uploads@[j]).id == x;
                        assert(0 <= j < i && uploads@[j].id == x);
                    }
                }
            }
            if i == before {
                proof {
                    // Nothing was placed: every region whose score still
                    // exceeds one half was in the eligible walk and refused
                    // the pending upload.
                    assert forall|pr: (u32, u32)|
                        self.pair_valid(pr) && (#[trigger] self.pair_reg(
                            pr,
                        )).spec_score_exceeds_half() implies self.pair_reg(pr).top + uploads@[
                        i as int].primative_count > self.pair_reg(pr).cap by {
                        assert(Self::region_eq_mod_written(
                            prev2.pools@[pr.0 as int].reigons@[pr.1 as int],
                            self.pools@[pr.0 as int].reigons@[pr.1 as int],
                        ));
                        assert(prev2.pair_valid(pr));
                        assert(prev2.pair_reg(pr).spec_score_exceeds_half());
                        assert(eligible@.contains(pr));
                        let w = choose|w: int| 0 <= w < eligible@.len() && eligible@[w] == pr;
                    }
                }
                stuck = true;
            }
        }
        proof {
            assert forall|x: int|
                0 <= x < olds.batches@.len() && !Self::spec_is_upload_id(uploads@, x) implies self
                .batches@[x] == olds.batches@[x] by {
                assert(mid.batches@[x] == olds.batches@[x]);
                if mid.batches@[x] is None {
                    if !(self.batches@[x] is None) {
                        let j = choose|j: int| 0 <= j < i && (#[trigger] uploads@[j]).id == x;
                        assert(Self::spec_is_upload_id(uploads@, x));
                    }
                }
            }
            assert forall|x: int|
                0 <= x < olds.batches@.len() && !Self::spec_is_upload_id(uploads@, x) && (
            #[trigger] olds.batches@[x]) is Some implies self.spec_batch_span_bytes(
                olds.batches@[x]->Some_0,
            ) == olds.spec_batch_span_bytes(olds.batches@[x]->Some_0) by {
                let w = olds.batches@[x]->Some_0;
                assert(mid.batches@[x] == olds.batches@[x]);
                assert(olds.batch_valid(w));
                assert(mid.pools@[w.pool_id as int].primative_buffer@ == olds.pools@[
                    w.pool_id as int].primative_buffer@);
                assert(self.spec_batch_span_bytes(w) == mid.spec_batch_span_bytes(w));
            }
        }
        proof {
            assert forall|j: int|
                0 <= j < uploads@.len() && (#[trigger] uploads@[j]).primative_count
                    > olds.reigon_size implies self.batches@[uploads@[j].id as int] is None by {
                if j < i {
                    let u = uploads@[j];
                    let b = self.batches@[u.id as int]->Some_0;
                    assert(self.batch_valid(b));
                    let reg = self.pools@[b.pool_id as int].reigons@[self.spec_reigon_of(b)];
                    assert(b.count <= reg.top);
                    assert(reg.top <= reg.cap);
                    assert(reg.cap == self.reigon_size);
                }
            }
        }
        proof {
            lemma_placement_cmds_phase(&*self, uploads@, 0, i as int);
        }
        (cmds, i)
    }

    /// Return an emptied region's high-water mark to zero, making its whole
    /// capacity allocatable again.
    fn reset_region(&mut self, pid: usize, rid: usize)
        requires
            old(self).wf(),
            pid < old(self).pools@.len(),
            rid < old(self).pools@[pid as int].reigons@.len(),
            old(self).pools@[pid as int].reigons@[rid as int].batch_ids@.len() == 0,
        ensures
            final(self).wf(),
            Self::same_config(old(self), final(self)),
            final(self).batches@ == old(self).batches@,
            final(self).updated_batches@ == old(self).updated_batches@,
            final(self).batch_description_buffer@ == old(self).batch_description_buffer@,
            final(self).pools@.len() == old(self).pools@.len(),
            forall|q: int|
                0 <= q < old(self).pools@.len() && q != pid ==> final(self).pools@[q] == old(
                    self,
                ).pools@[q],
            final(self).pools@[pid as int].primative_buffer@ == old(
                self,
            ).pools@[pid as int].primative_buffer@,
            final(self).pools@[pid as int].reigons@.len() == old(
                self,
            ).pools@[pid as int].reigons@.len(),
            forall|s: int|
                0 <= s < old(self).pools@[pid as int].reigons@.len() && s != rid ==> final(self)
                    .pools@[pid as int].reigons@[s] == old(self).pools@[pid as int].reigons@[s],
            final(self).pools@[pid as int].reigons@[rid as int] == (PrimativeReigon {
                top: 0,
                usage: 0,
                ..old(self).pools@[pid as int].reigons@[rid as int]
            }),
    {
        proof {
            lemma_sum_nonneg(
                old(self).pools@[pid as int].reigons@[rid as int].batch_ids@,
                old(self).batches@,
            );
        }
        let reg = &mut self.pools[pid].reigons[rid];
        reg.top = 0;
        reg.usage = 0;
        proof {
            let olds = old(self);
            let news = self;
            assert(olds.pools@[pid as int].reigons@[rid as int].usage == ids_count_sum(
                olds.pools@[pid as int].reigons@[rid as int].batch_ids@,
                olds.batches@,
            ));
            assert forall|id: int|
                0 <= id < news.batches@.len() && (#[trigger] news.batches@[id]) is Some implies {
                let b = news.batches@[id]->Some_0;
                &&& b.id == id
                &&& news.batch_valid(b)
                &&& news.pools@[b.pool_id as int].reigons@[news.spec_reigon_of(
                    b,
                )].batch_ids@.contains(b.id)
            } by {
                let b = news.batches@[id]->Some_0;
                assert(olds.batch_valid(b));
                if b.pool_id as int == pid as int && olds.spec_reigon_of(b) == rid as int {
                    assert(olds.pools@[pid as int].reigons@[rid as int].batch_ids@.contains(b.id));
                    assert(false);
                }
            }
            assert forall|p: int, r: int, k: int|
                0 <= p < news.pools@.len() && 0 <= r < news.pools@[p].reigons@.len() && 0 <= k
                    < news.pools@[p].reigons@[r].batch_ids@.len() implies {
                let id = #[trigger] news.pools@[p].reigons@[r].batch_ids@[k];
                &&& id < news.max_id
                &&& news.batches@[id as int] is Some
                &&& news.batches@[id as int]->Some_0.pool_id == p
                &&& news.spec_reigon_of(news.batches@[id as int]->Some_0) == r
            } by {
                assert(news.pools@[p].reigons@[r].batch_ids@ == olds.pools@[
                    p].reigons@[r].batch_ids@);
                assert(olds.pools@[p].reigons@[r].batch_ids@[k] == news.pools@[
                    p].reigons@[r].batch_ids@[k]);
            }
            assert forall|p: int, r: int|
                0 <= p < news.pools@.len() && 0 <= r < news.pools@[p].reigons@.len() implies (
            #[trigger] news.pools@[p].reigons@[r]).usage == ids_count_sum(
                news.pools@[p].reigons@[r].batch_ids@,
                news.batches@,
            ) by {
                assert(olds.pools@[p].reigons@[r].usage == ids_count_sum(
                    olds.pools@[p].reigons@[r].batch_ids@,
                    olds.batches@,
                ));
                if p == pid as int && r == rid as int {
                    assert(news.pools@[p].reigons@[r].batch_ids@ == olds.pools@[
                        p].reigons@[r].batch_ids@);
                }
            }
        }
    }

    /// Move one live batch into the given destination region, if it fits:
    /// the record is rehomed and the raw bytes are copied from the old
    /// location to the new one.
    #[verifier::rlimit(50)]
    fn move_batch(&mut self, id: u32, dpid: usize, drid: usize, cmds: &mut Vec<CopyCommand>) -> (moved: bool)
        requires
            old(self).wf(),
            id < old(self).max_id,
            old(self).batches@[id as int] is Some,
            old(self).updated_batches@.contains(id),
            dpid < old(self).pools@.len(),
            drid < old(self).pools@[dpid as int].reigons@.len(),
            old(self).batches@[id as int]->Some_0.pool_id != dpid || old(self).spec_reigon_of(
                old(self).batches@[id as int]->Some_0,
            ) != drid,
        ensures
            final(self).wf(),
            Self::same_config(old(self), final(self)),
            final(self).pools@.len() == old(self).pools@.len(),
            forall|p: int|
                0 <= p < old(self).pools@.len() ==> #[trigger] final(self).pools@[p].reigons@.len()
                    == old(self).pools@[p].reigons@.len(),
            final(self).updated_batches@ == old(self).updated_batches@,
            final(self).batch_description_buffer@ == old(self).batch_description_buffer@,
            moved == (old(self).pools@[dpid as int].reigons@[drid as int].top + old(
                self,
            ).batches@[id as int]->Some_0.count <= old(
                self,
            ).pools@[dpid as int].reigons@[drid as int].cap),
            !moved ==> Self::state_eq(old(self), final(self)) && final(cmds)@ == old(cmds)@,
            moved ==> {
                let b = old(self).batches@[id as int]->Some_0;
                let sp = b.pool_id as int;
                let sr = old(self).spec_reigon_of(b);
                let nb = final(self).batches@[id as int]->Some_0;
                &&& final(self).batches@[id as int] is Some
                &&& nb.id == id
                &&& nb.count == b.count
                &&& nb.pool_id == dpid
                &&& final(self).spec_batch_span_bytes(nb) == old(self).spec_batch_span_bytes(b)
                &&& forall|x: int|
                    0 <= x < old(self).batches@.len() && x != id ==> final(self).batches@[x] == old(
                        self,
                    ).batches@[x]
                &&& forall|x: int|
                    0 <= x < old(self).batches@.len() && x != id && (#[trigger] old(
                        self,
                    ).batches@[x]) is Some ==> final(self).spec_batch_span_bytes(
                        old(self).batches@[x]->Some_0,
                    ) == old(self).spec_batch_span_bytes(old(self).batches@[x]->Some_0)
                &&& forall|q: int, s: int|
                    0 <= q < old(self).pools@.len() && 0 <= s < old(self).pools@[q].reigons@.len()
                        && !(q == sp && s == sr) && !(q == dpid && s == drid) ==> final(self).pools@[
                        q].reigons@[s] == old(self).pools@[q].reigons@[s]
                &&& Self::region_removed(
                    old(self).pools@[sp].reigons@[sr],
                    final(self).pools@[sp].reigons@[sr],
                    id,
                    b.count,
                )
                &&& final(self).pools@[dpid as int].reigons@[drid as int].top == old(
                    self,
                ).pools@[dpid as int].reigons@[drid as int].top + b.count
                &&& final(self).pools@[dpid as int].reigons@[drid as int].usage == old(
                    self,
                ).pools@[dpid as int].reigons@[drid as int].usage + b.count
                &&& final(self).pools@[dpid as int].reigons@[drid as int].is_written == old(
                    self,
                ).pools@[dpid as int].reigons@[drid as int].is_written
                &&& final(self).pools@[dpid as int].reigons@[drid as int].batch_ids@ == old(
                    self,
                ).pools@[dpid as int].reigons@[drid as int].batch_ids@.push(id)
                &&& final(cmds)@ == old(cmds)@.push(
                    (CopyCommand {
                        src: BufferId::Pool(b.pool_id),
                        dst: BufferId::Pool(dpid as u32),
                        src_offset: ((b.offset as int * old(self).primative_size as int) as u64),
                        dst_offset: ((nb.offset as int * old(self).primative_size as int) as u64),
                        size: ((b.count as int * old(self).primative_size as int) as u64),
                    }),
                )
            },
    {
        let ghost olds = *old(self);
        let rec = self.batches[id as usize];
        let b = rec.unwrap();
        let count = b.count;
        let dtop = self.pools[dpid].reigons[drid].top;
        let dcap = self.pools[dpid].reigons[drid].cap;
        if count > dcap - dtop {
            return false;
        }
        let ps = self.primative_size;
        let ghost rs = olds.reigon_size as int;
        let src_off = crate::region::mul_u32(b.offset, ps);
        let size = crate::region::mul_u32(count, ps);
        proof {
            assert(olds.batch_valid(b));
            let sp = b.pool_id as int;
            let sr = olds.spec_reigon_of(b);
            let sreg = olds.pools@[sp].reigons@[sr];
            let snregs = olds.pools@[sp].reigons@.len() as int;
            assert(sreg.primative_offset == sr * rs);
            assert(b.offset + b.count <= (sr + 1) * rs) by (nonlinear_arith)
                requires
                    b.offset + b.count <= sr * rs + sreg.top && sreg.top <= rs,
            ;
            assert((b.offset + b.count) * ps <= ps as int * rs * snregs) by (nonlinear_arith)
                requires
                    b.offset + b.count <= (sr + 1) * rs && sr + 1 <= snregs && 0 <= ps && 0 <= rs
                        && 0 <= b.offset + b.count,
            ;
            assert((b.offset + b.count) * ps == b.offset as int * ps + b.count as int * ps)
                by (nonlinear_arith);
            assert(0 <= b.offset as int * ps) by (nonlinear_arith)
                requires
                    0 <= b.offset && 0 <= ps,
            ;
        }
        let payload = crate::byteops::read_span(
            &self.pools[b.pool_id as usize].primative_buffer,
            src_off as usize,
            size as usize,
        );
        proof {
            assert(payload@ == olds.spec_batch_span_bytes(b));
        }
        self.remove_batch_from_reigon(id);
        let ghost mid = *self;
        let reg = &mut self.pools[dpid].reigons[drid];
        let ghost old_reg = *reg;
        let alloc = reg.allocate(count);
        let new_off = match alloc {
            Some(o) => o,
            None => 0,
        };
        proof {
            assert(old_reg.top == dtop && old_reg.cap == dcap);
            assert(alloc is Some);
        }
        reg.batch_ids.push(id);
        let nb = PrimativeBatch { count, offset: new_off, id, pool_id: dpid as u32 };
        self.batches[id as usize] = Some(nb);
        let dst_off = crate::region::mul_u32(new_off, ps);
        let ghost nregs = olds.pools@[dpid as int].reigons@.len() as int;
        proof {
            assert(old_reg.primative_offset == drid as int * rs);
            assert(new_off == drid as int * rs + old_reg.top);
            assert(new_off + count <= (drid as int + 1) * rs) by (nonlinear_arith)
                requires
                    new_off == drid as int * rs + old_reg.top && old_reg.top + count <= rs,
            ;
            assert((new_off + count) * ps <= ps as int * rs * nregs) by (nonlinear_arith)
                requires
                    new_off + count <= (drid as int + 1) * rs && drid as int + 1 <= nregs && 0 <= ps
                        && 0 <= rs && 0 <= new_off + count,
            ;
            assert((new_off + count) * ps == new_off as int * ps + count as int * ps)
                by (nonlinear_arith);
            assert(mid.pools@[dpid as int].primative_buffer@.len() == ps as int * rs * nregs);
            assert(self.pools@[dpid as int].primative_buffer@ == mid.pools@[
                dpid as int].primative_buffer@);
            assert(payload@.len() == size);
        }
        crate::byteops::write_bytes_at(
            &mut self.pools[dpid].primative_buffer,
            dst_off as usize,
            payload.as_slice(),
        );
        cmds.push(
            CopyCommand {
                src: BufferId::Pool(b.pool_id),
                dst: BufferId::Pool(dpid as u32),
                src_offset: src_off,
                dst_offset: dst_off,
                size,
            },
        );
        proof {
            let news = self;
            let new_ids = news.pools@[dpid as int].reigons@[drid as int].batch_ids@;
            let old_buf = mid.pools@[dpid as int].primative_buffer@;
            let new_buf = news.pools@[dpid as int].primative_buffer@;
            assert(new_buf == crate::byteops::seq_write(old_buf, dst_off as int, payload@));
            assert(new_ids == old_reg.batch_ids@.push(id));
            assert(news.batches@ == mid.batches@.update(id as int, Some(nb)));
            mid.lemma_unrecorded_not_resident(id);
            assert(news.spec_reigon_of(nb) == drid) by {
                vstd::arithmetic::div_mod::lemma_fundamental_div_mod_converse(
                    new_off as int,
                    rs,
                    drid as int,
                    new_off - drid as int * rs,
                );
            }
            assert(news.batch_valid(nb));
            assert forall|p: int, q: int|
                0 <= p < news.pools@.len() && 0 <= q < news.pools@[p].reigons@.len() implies (
            #[trigger] news.pools@[p].reigons@[q]).usage == ids_count_sum(
                news.pools@[p].reigons@[q].batch_ids@,
                news.batches@,
            ) by {
                if p == dpid as int && q == drid as int {
                    lemma_sum_recs_update_absent(old_reg.batch_ids@, mid.batches@, id, Some(nb));
                    assert(new_ids.drop_last() =~= old_reg.batch_ids@);
                    assert(count_of(news.batches@, id) == count);
                } else {
                    assert(news.pools@[p].reigons@[q] == mid.pools@[p].reigons@[q]);
                    assert(!mid.pools@[p].reigons@[q].batch_ids@.contains(id));
                    lemma_sum_recs_update_absent(
                        mid.pools@[p].reigons@[q].batch_ids@,
                        mid.batches@,
                        id,
                        Some(nb),
                    );
                }
            }
            assert forall|x: int|
                0 <= x < news.batches@.len() && (#[trigger] news.batches@[x]) is Some implies {
                let w = news.batches@[x]->Some_0;
                &&& w.id == x
                &&& news.batch_valid(w)
                &&& news.pools@[w.pool_id as int].reigons@[news.spec_reigon_of(
                    w,
                )].batch_ids@.contains(w.id)
            } by {
                let w = news.batches@[x]->Some_0;
                if x == id {
                    assert(new_ids.last() == id);
                    assert(new_ids.contains(id));
                } else {
                    assert(mid.batches@[x] is Some && mid.batches@[x]->Some_0 == w);
                    assert(mid.batch_valid(w));
                    if w.pool_id as int == dpid as int && mid.spec_reigon_of(w) == drid as int {
                        let k = choose|k: int|
                            0 <= k < old_reg.batch_ids@.len() && old_reg.batch_ids@[k] == w.id;
                        assert(new_ids[k] == w.id);
                        assert(new_ids.contains(w.id));
                    }
                }
            }
            assert forall|p: int, q: int, k: int|
                0 <= p < news.pools@.len() && 0 <= q < news.pools@[p].reigons@.len() && 0 <= k
                    < news.pools@[p].reigons@[q].batch_ids@.len() implies {
                let w = #[trigger] news.pools@[p].reigons@[q].batch_ids@[k];
                &&& w < news.max_id
                &&& news.batches@[w as int] is Some
                &&& news.batches@[w as int]->Some_0.pool_id == p
                &&& news.spec_reigon_of(news.batches@[w as int]->Some_0) == q
            } by {
                if p == dpid as int && q == drid as int && k == new_ids.len() - 1 {
                    assert(new_ids[k] == id);
                } else {
                    let w = news.pools@[p].reigons@[q].batch_ids@[k];
                    assert(mid.pools@[p].reigons@[q].batch_ids@[k] == w);
                    assert(w != id);
                }
            }
            // The moved bytes read back exactly.
            crate::byteops::lemma_seq_write_inside(old_buf, dst_off as int, payload@);
            assert(news.spec_batch_span_bytes(nb) == payload@);
            // Every other live record's bytes survive the write.
            assert forall|x: int|
                0 <= x < mid.batches@.len() && x != id && (#[trigger] mid.batches@[x])
                    is Some implies news.spec_batch_span_bytes(mid.batches@[x]->Some_0)
                == mid.spec_batch_span_bytes(mid.batches@[x]->Some_0) by {
                let w = mid.batches@[x]->Some_0;
                assert(mid.batch_valid(w));
                if w.pool_id as int != dpid as int {
                    assert(news.pools@[w.pool_id as int] == mid.pools@[w.pool_id as int]);
                } else {
                    let wr = mid.spec_reigon_of(w);
                    let wreg = mid.pools@[dpid as int].reigons@[wr];
                    assert(wreg.primative_offset == wr * rs);
                    assert(w.offset + w.count <= (wr + 1) * rs) by (nonlinear_arith)
                        requires
                            w.offset + w.count <= wr * rs + wreg.top && wreg.top <= rs,
                    ;
                    if wr == drid as int {
                        assert(w.offset + w.count <= new_off);
                        assert((w.offset + w.count) * ps <= new_off as int * ps) by (
                        nonlinear_arith)
                            requires
                                w.offset + w.count <= new_off && 0 <= ps,
                        ;
                    } else if wr < drid as int {
                        assert((w.offset + w.count) * ps <= new_off as int * ps) by (
                        nonlinear_arith)
                            requires
                                w.offset + w.count <= (wr + 1) * rs && wr + 1 <= drid as int
                                    && new_off >= drid as int * rs && 0 <= ps && 0 <= rs,
                        ;
                    } else {
                        assert((new_off + count) * ps <= w.offset as int * ps) by (nonlinear_arith)
                            requires
                                new_off + count <= (drid as int + 1) * rs && drid as int + 1 <= wr
                                    && w.offset >= wr * rs && 0 <= ps && 0 <= rs,
                        ;
                    }
                    assert(0 <= w.offset as int * ps) by (nonlinear_arith)
                        requires
                            0 <= w.offset && 0 <= ps,
                    ;
                    assert((w.offset + w.count) * ps == w.offset as int * ps + w.count as int
                        * ps) by (nonlinear_arith);
                    assert((w.offset + w.count) * ps <= old_buf.len()) by (nonlinear_arith)
                        requires
                            w.offset + w.count <= (wr + 1) * rs && wr + 1 <= nregs && 0 <= ps && 0
                                <= rs && old_buf.len() == ps as int * rs * nregs && 0 <= w.offset
                                + w.count,
                    ;
                    crate::byteops::lemma_seq_write_outside(
                        old_buf,
                        dst_off as int,
                        payload@,
                        w.offset as int * ps,
                        (w.offset + w.count) * ps,
                    );
                }
            }
            // Chain the two steps: removal did not touch any buffer, so a
            // surviving record's bytes equal the original ones.
            assert forall|x: int|
                0 <= x < olds.batches@.len() && x != id && (#[trigger] olds.batches@[x])
                    is Some implies news.spec_batch_span_bytes(olds.batches@[x]->Some_0) == olds
                .spec_batch_span_bytes(olds.batches@[x]->Some_0) by {
                let w = olds.batches@[x]->Some_0;
                assert(mid.batches@[x] == olds.batches@[x]);
                assert(olds.batch_valid(w));
                assert(mid.pools@[w.pool_id as int].primative_buffer@ == olds.pools@[
                    w.pool_id as int].primative_buffer@);
                assert(mid.spec_batch_span_bytes(w) == olds.spec_batch_span_bytes(w));
            }
            assert(news.spec_batch_span_bytes(nb) == olds.spec_batch_span_bytes(b)) by {
                assert(mid.pools@[b.pool_id as int].primative_buffer@ == olds.pools@[
                    b.pool_id as int].primative_buffer@);
            }
        }
        true
    }

    /// Every live record survives a state change with its identity, count
    /// and bytes.
    pub open spec fn records_survive(a: &PrimativeManager, b: &PrimativeManager) -> bool {
        &&& b.batches@.len() == a.batches@.len()
        &&& forall|x: int|
            0 <= x < a.batches@.len() ==> ((#[trigger] b.batches@[x]) is Some <==> a.batches@[x]
                is Some)
        &&& forall|x: int|
            0 <= x < a.batches@.len() && (#[trigger] a.batches@[x]) is Some ==> b.batches@[
                x]->Some_0.id == a.batches@[x]->Some_0.id && b.batches@[x]->Some_0.count
                == a.batches@[x]->Some_0.count && b.spec_batch_span_bytes(b.batches@[x]->Some_0)
                == a.spec_batch_span_bytes(a.batches@[x]->Some_0)
    }

    /// One bounded, amortized compaction pass: up to four of the most
    /// wasteful unwritten regions are drained, their batches packed into the
    /// cleanest regions (growing one overflow pool if those run out), and
    /// every drained region's high-water mark returns to zero.  No batch is
    /// lost: every record survives with its count and its bytes.  When no
    /// region qualifies as a source (or none as a destination), nothing
    /// changes at all.
    #[verifier::rlimit(50)]
    pub fn sweep(&mut self) -> (cmds: Vec<CopyCommand>)
        requires
            old(self).wf(),
            old(self).pools@.len() < u32::MAX,
        ensures
            final(self).wf(),
            Self::same_config(old(self), final(self)),
            final(self).batch_description_buffer@ == old(self).batch_description_buffer@,
            old(self).pools@.len() <= final(self).pools@.len() <= old(self).pools@.len() + 1,
            Self::records_survive(old(self), final(self)),
            forall|x: u32|
                old(self).updated_batches@.contains(x) ==> final(self).updated_batches@.contains(
                    x,
                ),
            !old(self).spec_has_sweep_source() ==> Self::state_eq(old(self), final(self))
                && cmds@.len() == 0,
            !old(self).spec_has_sweep_dest() ==> Self::state_eq(old(self), final(self))
                && cmds@.len() == 0,
            old(self).spec_has_sweep_source() && old(self).spec_has_sweep_dest() ==> (exists|
                pr: (u32, u32),
            |
                {
                    &&& old(self).pair_valid(pr)
                    &&& Self::spec_is_sweep_source(#[trigger] old(self).pair_reg(pr))
                    &&& (forall|pr2: (u32, u32)|
                        old(self).pair_valid(pr2) && Self::spec_is_sweep_source(
                            old(self).pair_reg(pr2),
                        ) ==> spec_frag_ge(old(self).pair_reg(pr), old(self).pair_reg(pr2)))
                    &&& final(self).pools@[pr.0 as int].reigons@[pr.1 as int].top == 0
                    &&& final(self).pools@[pr.0 as int].reigons@[pr.1 as int].usage == 0
                }),
            forall|k: int|
                0 <= k < cmds@.len() ==> (#[trigger] cmds@[k]).src is Pool && cmds@[k].dst is Pool,
            forall|x: int|
                0 <= x < old(self).batches@.len() && final(self).batches@[x] != (#[trigger] old(
                    self,
                ).batches@[x]) ==> final(self).updated_batches@.contains(x as u32),
            forall|x: int|
                0 <= x < old(self).batches@.len() && final(self).batches@[x] != (#[trigger] old(
                    self,
                ).batches@[x]) ==> {
                    let nb = final(self).batches@[x]->Some_0;
                    nb.pool_id >= old(self).pools@.len() || old(self).pools@[
                        nb.pool_id as int].reigons@[final(self).spec_reigon_of(
                        nb,
                    )].spec_is_clean()
                },
            exists|ss: Seq<(u32, u32)>|
                {
                    &&& (#[trigger] ss.len()) <= 4
                    &&& (forall|k: int|
                        0 <= k < ss.len() ==> old(self).pair_valid(#[trigger] ss[k])
                            && Self::spec_is_sweep_source(old(self).pair_reg(ss[k])))
                    &&& (forall|pr: (u32, u32)|
                        old(self).pair_valid(pr) && !ss.contains(pr) ==> final(self).pools@[
                            pr.0 as int].reigons@[pr.1 as int].top >= old(self).pools@[
                            pr.0 as int].reigons@[pr.1 as int].top)
                },
    {
        let ghost olds = *old(self);
        let mut cmds: Vec<CopyCommand> = Vec::new();
        let mut sources = self.collect_sweep_sources();
        if sources.len() == 0 {
            proof {
                if olds.spec_has_sweep_source() {
                    let pr = choose|pr: (u32, u32)|
                        olds.pair_valid(pr) && Self::spec_is_sweep_source(
                            #[trigger] olds.pair_reg(pr),
                        );
                    assert(sources@.contains(pr));
                }
                assert(Self::state_eq(&olds, self));
                let ss = Seq::<(u32, u32)>::empty();
                assert(ss.len() <= 4 && (forall|pr: (u32, u32)|
                    olds.pair_valid(pr) && !ss.contains(pr) ==> self.pools@[
                        pr.0 as int].reigons@[pr.1 as int].top >= olds.pools@[
                        pr.0 as int].reigons@[pr.1 as int].top));
            }
            return cmds;
        }
        let ghost s0 = sources@[0];
        proof {
            assert(olds.spec_has_sweep_source()) by {
                assert(olds.pair_valid(s0) && Self::spec_is_sweep_source(olds.pair_reg(s0)));
            }
            // The head of the sorted candidate list wastes at least as much
            // as every other candidate.
            assert forall|pr2: (u32, u32)|
                olds.pair_valid(pr2) && Self::spec_is_sweep_source(
                    olds.pair_reg(pr2),
                ) implies spec_frag_ge(olds.pair_reg(s0), olds.pair_reg(pr2)) by {
                assert(sources@.contains(pr2));
                let w = choose|w: int| 0 <= w < sources@.len() && sources@[w] == pr2;
                if w > 0 {
                    assert(self.rank_ge(Ranking::SweepSource, sources@[0], sources@[w]));
                }
            }
        }
        // Never compact more than four regions per frame: the copy volume
        // of one pass stays bounded.
        sources.truncate(4);
        let dsts = self.collect_sweep_dsts();
        if dsts.len() == 0 {
            proof {
                if olds.spec_has_sweep_dest() {
                    let pr = choose|pr: (u32, u32)|
                        olds.pair_valid(pr) && (#[trigger] olds.pair_reg(pr)).spec_is_clean();
                    assert(dsts@.contains(pr));
                }
                assert(Self::state_eq(&olds, self));
                let ss = Seq::<(u32, u32)>::empty();
                assert(ss.len() <= 4 && (forall|pr: (u32, u32)|
                    olds.pair_valid(pr) && !ss.contains(pr) ==> self.pools@[
                        pr.0 as int].reigons@[pr.1 as int].top >= olds.pools@[
                        pr.0 as int].reigons@[pr.1 as int].top));
            }
            return cmds;
        }
        proof {
            assert(olds.spec_has_sweep_dest()) by {
                assert(olds.pair_valid(dsts@[0]) && olds.pair_reg(dsts@[0]).spec_is_clean());
            }
        }
        proof {
            // A region cannot be wasteful enough to drain and clean enough
            // to receive at once, so sources and destinations are disjoint.
            assert forall|k: int, m: int|
                0 <= k < sources@.len() && 0 <= m < dsts@.len() implies sources@[k]
                != dsts@[m] by {
                if sources@[k] == dsts@[m] {
                    let reg = olds.pair_reg(sources@[k]);
                    assert(20 * reg.frag_num() > 3 * reg.cap);
                    assert(25 * reg.frag_num() < 2 * reg.cap);
                    assert(reg.cap > 0);
                }
            }
        }
        let ns = sources.len();
        let nd = dsts.len();
        let orig_pool_count = self.pools.len();
        let mut dst_idx: usize = 0;
        let mut overflow = false;
        let mut s: usize = 0;
        while s < ns && !overflow
            invariant
                self.wf(),
                Self::same_config(&olds, self),
                self.batch_description_buffer@ == olds.batch_description_buffer@,
                olds.pools@.len() <= self.pools@.len() <= olds.pools@.len() + 1,
                Self::records_survive(&olds, self),
                forall|x: u32|
                    olds.updated_batches@.contains(x) ==> self.updated_batches@.contains(x),
                ns == sources@.len(),
                nd == dsts@.len(),
                orig_pool_count == olds.pools@.len(),
                olds.pools@.len() < u32::MAX,
                s <= ns,
                dst_idx <= nd,
                forall|k: int|
                    0 <= k < sources@.len() ==> olds.pair_valid(#[trigger] sources@[k]),
                forall|m: int| 0 <= m < dsts@.len() ==> olds.pair_valid(#[trigger] dsts@[m]),
                forall|k: int, m: int|
                    0 <= k < sources@.len() && 0 <= m < dsts@.len() ==> sources@[k] != dsts@[m],
                forall|p: int|
                    0 <= p < olds.pools@.len() ==> #[trigger] self.pools@[p].reigons@.len()
                        == olds.pools@[p].reigons@.len(),
                self.pools@.len() > olds.pools@.len() ==> self.pools@.last().reigons@.len()
                    == DEFAULT_REIGON_COUNT,
                !overflow ==> self.pools@.len() == olds.pools@.len(),
                s0 == sources@[0],
                overflow ==> 0 < s,
                0 < s ==> self.pools@[s0.0 as int].reigons@[s0.1 as int].top == 0 && self.pools@[
                    s0.0 as int].reigons@[s0.1 as int].usage == 0,
                ns <= 4,
                forall|k: int|
                    0 <= k < sources@.len() ==> Self::spec_is_sweep_source(
                        olds.pair_reg(#[trigger] sources@[k]),
                    ),
                forall|m: int|
                    0 <= m < dsts@.len() ==> olds.pair_reg(#[trigger] dsts@[m]).spec_is_clean(),
                forall|k: int|
                    0 <= k < cmds@.len() ==> (#[trigger] cmds@[k]).src is Pool && cmds@[k].dst
                        is Pool,
                forall|x: int|
                    0 <= x < olds.batches@.len() && self.batches@[x] != (
                    #[trigger] olds.batches@[x]) ==> self.updated_batches@.contains(x as u32),
                forall|x: int|
                    0 <= x < olds.batches@.len() && self.batches@[x] != (
                    #[trigger] olds.batches@[x]) ==> {
                        let nb = self.batches@[x]->Some_0;
                        nb.pool_id >= olds.pools@.len() || olds.pools@[
                            nb.pool_id as int].reigons@[self.spec_reigon_of(nb)].spec_is_clean()
                    },
                forall|prx: (u32, u32)|
                    olds.pair_valid(prx) && !sources@.contains(prx) ==> self.pools@[
                        prx.0 as int].reigons@[prx.1 as int].top >= olds.pools@[
                        prx.0 as int].reigons@[prx.1 as int].top,
            decreases ns - s,
        {
            let pr = sources[s];
            let sp = pr.0 as usize;
            let sr = pr.1 as usize;
            let ghost sp_i = sp as int;
            let ghost sr_i = sr as int;
            while self.pools[sp].reigons[sr].batch_ids.len() > 0
                invariant
                    self.wf(),
                    Self::same_config(&olds, self),
                    self.batch_description_buffer@ == olds.batch_description_buffer@,
                    olds.pools@.len() <= self.pools@.len() <= olds.pools@.len() + 1,
                    Self::records_survive(&olds, self),
                    forall|x: u32|
                        olds.updated_batches@.contains(x) ==> self.updated_batches@.contains(x),
                    nd == dsts@.len(),
                    orig_pool_count == olds.pools@.len(),
                    olds.pools@.len() < u32::MAX,
                    !overflow ==> self.pools@.len() == olds.pools@.len(),
                    dst_idx <= nd,
                    sp_i == sp && sr_i == sr,
                    sp == pr.0 && sr == pr.1,
                    olds.pair_valid(pr),
                    forall|m: int| 0 <= m < dsts@.len() ==> olds.pair_valid(#[trigger] dsts@[m]),
                    forall|m: int| 0 <= m < dsts@.len() ==> pr != dsts@[m],
                    forall|p: int|
                        0 <= p < olds.pools@.len() ==> #[trigger] self.pools@[p].reigons@.len()
                            == olds.pools@[p].reigons@.len(),
                    self.pools@.len() > olds.pools@.len() ==> self.pools@.last().reigons@.len()
                        == DEFAULT_REIGON_COUNT,
                    overflow ==> self.pools@.len() == olds.pools@.len() + 1,
                    ns == sources@.len(),
                    s < ns,
                    s0 == sources@[0],
                    olds.pair_valid(s0),
                    forall|m: int| 0 <= m < dsts@.len() ==> s0 != dsts@[m],
                    0 < s ==> self.pools@[s0.0 as int].reigons@[s0.1 as int].top == 0
                        && self.pools@[s0.0 as int].reigons@[s0.1 as int].usage == 0,
                    self.pools@.len() > olds.pools@.len() ==> self.pools@.last().reigons@[0].top
                        + self.pools@[sp_i].reigons@[sr_i].usage <= self.reigon_size
                        && self.pools@.last().reigons@[0].cap == self.reigon_size,
                    pr == sources@[s as int],
                    forall|m: int|
                        0 <= m < dsts@.len() ==> olds.pair_reg(#[trigger] dsts@[m]).spec_is_clean(),
                    forall|k: int|
                        0 <= k < cmds@.len() ==> (#[trigger] cmds@[k]).src is Pool && cmds@[k].dst
                            is Pool,
                    forall|x: int|
                        0 <= x < olds.batches@.len() && self.batches@[x] != (
                        #[trigger] olds.batches@[x]) ==> self.updated_batches@.contains(x as u32),
                    forall|x: int|
                        0 <= x < olds.batches@.len() && self.batches@[x] != (
                        #[trigger] olds.batches@[x]) ==> {
                            let nb = self.batches@[x]->Some_0;
                            nb.pool_id >= olds.pools@.len() || olds.pools@[
                                nb.pool_id as int].reigons@[self.spec_reigon_of(
                                nb,
                            )].spec_is_clean()
                        },
                    forall|prx: (u32, u32)|
                        olds.pair_valid(prx) && !sources@.contains(prx) ==> self.pools@[
                            prx.0 as int].reigons@[prx.1 as int].top >= olds.pools@[
                            prx.0 as int].reigons@[prx.1 as int].top,
                decreases
                    self.pools@[sp_i].reigons@[sr_i].batch_ids@.len(),
                    nd - dst_idx,
            {
                let n_res = self.pools[sp].reigons[sr].batch_ids.len();
                let id = self.pools[sp].reigons[sr].batch_ids[n_res - 1];
                proof {
                    assert(self.pools@[sp_i].reigons@[sr_i].batch_ids@.contains(id));
                    // A region already drained this pass has no residents,
                    // so the region being drained now is a different one.
                    if 0 < s && sp_i == s0.0 as int && sr_i == s0.1 as int {
                        let ids = self.pools@[sp_i].reigons@[sr_i].batch_ids@;
                        let id0 = ids[ids.len() - 1];
                        assert(self.batches@[id0 as int] is Some);
                        let b0 = self.batches@[id0 as int]->Some_0;
                        assert(self.batch_valid(b0));
                        assert(count_of(self.batches@, id0) == b0.count);
                        lemma_sum_member_le(ids, self.batches@, id0);
                        assert(false);
                    }
                }
                self.update_batch_gpu(id);
                proof {
                    let b = self.batches@[id as int]->Some_0;
                    assert(b.pool_id == sp && self.spec_reigon_of(b) == sr_i);
                }
                if dst_idx < nd {
                    let d = dsts[dst_idx];
                    let moved = self.move_batch(id, d.0 as usize, d.1 as usize, &mut cmds);
                    if !moved {
                        dst_idx = dst_idx + 1;
                    }
                } else {
                        if self.pools.len() == orig_pool_count {
                        // Out of clean destinations: grow one overflow pool
                        // for the remainder of this source.
                        self.new_pool();
                    }
                    overflow = true;
                    let np = self.pools.len() - 1;
                    proof {
                        let reg = self.pools@[sp_i].reigons@[sr_i];
                        lemma_sum_member_le(reg.batch_ids@, self.batches@, id);
                        assert(count_of(self.batches@, id) == self.batches@[id
                            as int]->Some_0.count);
                        assert(self.batches@[id as int]->Some_0.count <= reg.usage);
                    }
                    let moved = self.move_batch(id, np, 0, &mut cmds);
                    proof {
                        assert(moved);
                    }
                }
            }
            self.reset_region(sp, sr);
            s = s + 1;
        }
        proof {
            if olds.spec_has_sweep_source() && olds.spec_has_sweep_dest() {
                assert(0 < s);
                assert(olds.pair_valid(s0) && Self::spec_is_sweep_source(olds.pair_reg(s0)));
                assert(self.pools@[s0.0 as int].reigons@[s0.1 as int].top == 0 && self.pools@[
                    s0.0 as int].reigons@[s0.1 as int].usage == 0);
            }
            let ss = sources@;
            assert((ss.len() <= 4) && (forall|k: int|
                0 <= k < ss.len() ==> olds.pair_valid(#[trigger] ss[k])
                    && Self::spec_is_sweep_source(olds.pair_reg(ss[k]))) && (forall|pr: (u32, u32)|
                olds.pair_valid(pr) && !ss.contains(pr) ==> self.pools@[
                    pr.0 as int].reigons@[pr.1 as int].top >= olds.pools@[
                    pr.0 as int].reigons@[pr.1 as int].top));
        }
        cmds
    }

    /// The k-th descriptor-sync copy of a flush whose ring top stood at
    /// `stencil_top`: eight bytes from the staged span to the table slot of
    /// the k-th dirty identifier.
    pub open spec fn spec_sync_cmd(stencil_top: int, dirty: Seq<u32>, k: int) -> CopyCommand {
        CopyCommand {
            src: BufferId::Stencil,
            dst: BufferId::BatchDescriptions,
            src_offset: ((crate::staging::spec_align_up(stencil_top, 8) + 8 * k) as u64),
            dst_offset: ((dirty[k] as int * 8) as u64),
            size: 8,
        }
    }

    /// Re-upload the description entry of every dirty identifier: stage the
    /// packed entries in the ring and emit one copy per entry into the
    /// table.  If the ring lacks room for the whole set, nothing happens and
    /// the set is kept for the next frame.
    fn update_gpu_batches(&mut self, stencil_buffer: &mut StencilBuffer) -> (cmds: Vec<
        CopyCommand,
    >)
        requires
            old(self).wf(),
            old(stencil_buffer).wf(),
        ensures
            final(self).wf(),
            final(stencil_buffer).wf(),
            final(stencil_buffer).data@.len() == old(stencil_buffer).data@.len(),
            Self::same_config(old(self), final(self)),
            final(self).pools@ == old(self).pools@,
            final(self).batches@ == old(self).batches@,
            crate::staging::spec_align_up(old(stencil_buffer).top as int, 8) + 8 * old(
                self,
            ).updated_batches@.len() <= old(stencil_buffer).spec_capacity() ==> final(self)
                .updated_batches@.len() == 0,
            final(self).updated_batches@.len() == 0 || (final(self).updated_batches@ == old(
                self,
            ).updated_batches@ && final(self).batch_description_buffer@ == old(
                self,
            ).batch_description_buffer@ && *final(stencil_buffer) == *old(stencil_buffer)),
            final(self).updated_batches@.len() == 0 ==> cmds@.len() == old(
                self,
            ).updated_batches@.len() && (forall|k: int|
                0 <= k < cmds@.len() ==> #[trigger] cmds@[k] == Self::spec_sync_cmd(
                    old(stencil_buffer).top as int,
                    old(self).updated_batches@,
                    k,
                )),
            final(self).updated_batches@.len() != 0 ==> cmds@.len() == 0,
            forall|k: int|
                0 <= k < cmds@.len() ==> (#[trigger] cmds@[k]).src is Stencil && cmds@[k].dst
                    is BatchDescriptions,
    {
        let ghost olds = *old(self);
        let scap = stencil_buffer.data.len();
        let dlen = self.batch_description_buffer.len();
        let n = self.updated_batches.len();
        if n as u64 > u64::MAX / 8 {
            proof {
                assert(8 * (n as int) > u64::MAX);
                crate::staging::lemma_align_up_ge(old(stencil_buffer).top as int, 8);
            }
            return Vec::new();
        }
        let base = match stencil_buffer.allocate_items(n as u64, 8) {
            Some(b) => b,
            None => {
                return Vec::new();
            },
        };
        let mut cmds: Vec<CopyCommand> = Vec::new();
        let ghost dirty = olds.updated_batches@;
        let mut k: usize = 0;
        while k < n
            invariant
                self.wf(),
                stencil_buffer.wf(),
                Self::same_config(&olds, self),
                self.pools@ == olds.pools@,
                self.batches@ == olds.batches@,
                self.updated_batches@ == dirty,
                n == dirty.len(),
                k <= n,
                dlen == self.batch_description_buffer@.len(),
                8 * (n as int) <= u64::MAX,
                stencil_buffer.data@.len() == old(stencil_buffer).data@.len(),
                base + 8 * (n as int) <= stencil_buffer.top,
                stencil_buffer.top <= stencil_buffer.data@.len(),
                base == crate::staging::spec_align_up(old(stencil_buffer).top as int, 8),
                cmds@.len() == k,
                forall|m: int|
                    0 <= m < k ==> #[trigger] cmds@[m] == Self::spec_sync_cmd(
                        old(stencil_buffer).top as int,
                        dirty,
                        m,
                    ),
                forall|j: int|
                    0 <= j < k ==> self.batch_description_buffer@.subrange(
                        (#[trigger] dirty[j]) as int * 8,
                        dirty[j] as int * 8 + 8,
                    ) == spec_desc_entry(self.batches@[dirty[j] as int]),
                forall|x: int|
                    0 <= x < self.max_id && !dirty.take(k as int).contains(x as u32) ==> (
                    #[trigger] self.batch_description_buffer@.subrange(x * 8, x * 8 + 8))
                        == olds.batch_description_buffer@.subrange(x * 8, x * 8 + 8),
            decreases n - k,
        {
            let id = self.updated_batches[k];
            let entry = crate::batch::desc_entry_bytes(&self.batches[id as usize]);
            let off = base + 8 * (k as u64);
            stencil_buffer.write_at(off, entry.as_slice());
            let ghost desc_before = self.batch_description_buffer@;
            proof {
                assert(id < self.max_id);
                assert(self.batch_description_buffer@.len() == self.max_id as int * 8);
                assert((id as int + 1) * 8 <= self.max_id as int * 8) by (nonlinear_arith)
                    requires
                        id as int + 1 <= self.max_id as int,
                ;
                assert(self.batch_description_buffer@.len() == dlen);
                assert((id as int) * 8 + 8 <= dlen);
            }
            crate::byteops::write_bytes_at(
                &mut self.batch_description_buffer,
                (id as usize) * 8,
                entry.as_slice(),
            );
            cmds.push(
                CopyCommand {
                    src: BufferId::Stencil,
                    dst: BufferId::BatchDescriptions,
                    src_offset: off,
                    dst_offset: (id as u64) * 8,
                    size: 8,
                },
            );
            proof {
                assert(cmds@.last() == Self::spec_sync_cmd(
                    old(stencil_buffer).top as int,
                    dirty,
                    k as int,
                ));
                let desc_now = self.batch_description_buffer@;
                crate::byteops::lemma_seq_write_inside(desc_before, id as int * 8, entry@);
                assert forall|j: int|
                    0 <= j < k + 1 implies self.batch_description_buffer@.subrange(
                    (#[trigger] dirty[j]) as int * 8,
                    dirty[j] as int * 8 + 8,
                ) == spec_desc_entry(self.batches@[dirty[j] as int]) by {
                    if j < k {
                        assert(dirty[j] != id);
                        crate::byteops::lemma_seq_write_outside(
                            desc_before,
                            id as int * 8,
                            entry@,
                            dirty[j] as int * 8,
                            dirty[j] as int * 8 + 8,
                        );
                    } else {
                        assert(dirty[j] == id);
                    }
                }
                assert forall|x: int|
                    0 <= x < self.max_id && !dirty.take(k + 1).contains(x as u32) implies (
                #[trigger] self.batch_description_buffer@.subrange(x * 8, x * 8 + 8))
                    == olds.batch_description_buffer@.subrange(x * 8, x * 8 + 8) by {
                    assert(dirty.take(k + 1)[k as int] == id);
                    assert(x != id);
                    assert(!dirty.take(k as int).contains(x as u32)) by {
                        if dirty.take(k as int).contains(x as u32) {
                            let w = choose|w: int|
                                0 <= w < k && dirty.take(k as int)[w] == x as u32;
                            assert(dirty.take(k + 1)[w] == x as u32);
                        }
                    }
                    crate::byteops::lemma_seq_write_outside(
                        desc_before,
                        id as int * 8,
                        entry@,
                        x * 8,
                        x * 8 + 8,
                    );
                }
            }
            k = k + 1;
        }
        self.updated_batches.clear();
        proof {
            assert forall|x: int|
                0 <= x < self.max_id && !self.updated_batches@.contains(x as u32) implies self
                .batch_description_buffer@.subrange(x * 8, x * 8 + 8) == spec_desc_entry(
                self.batches@[x],
            ) by {
                if dirty.contains(x as u32) {
                    let j = choose|j: int| 0 <= j < dirty.len() && dirty[j] == x as u32;
                    assert(self.batch_description_buffer@.subrange(
                        dirty[j] as int * 8,
                        dirty[j] as int * 8 + 8,
                    ) == spec_desc_entry(self.batches@[dirty[j] as int]));
                } else {
                    assert(dirty.take(n as int) =~= dirty);
                    assert(olds.batch_description_buffer@.subrange(x * 8, x * 8 + 8)
                        == spec_desc_entry(olds.batches@[x]));
                }
            }
        }
        cmds
    }

    /// End of frame: every region's written-this-frame flag returns to
    /// false.
    fn clear_written_flags(&mut self)
        requires
            old(self).wf(),
        ensures
            final(self).wf(),
            Self::same_config(old(self), final(self)),
            final(self).batches@ == old(self).batches@,
            final(self).updated_batches@ == old(self).updated_batches@,
            final(self).batch_description_buffer@ == old(self).batch_description_buffer@,
            final(self).pools@.len() == old(self).pools@.len(),
            forall|p: int|
                0 <= p < old(self).pools@.len() ==> #[trigger] final(self).pools@[
                    p].primative_buffer@ == old(self).pools@[p].primative_buffer@ && final(self)
                    .pools@[p].reigons@.len() == old(self).pools@[p].reigons@.len(),
            forall|p: int, r: int|
                0 <= p < old(self).pools@.len() && 0 <= r < old(self).pools@[p].reigons@.len()
                    ==> #[trigger] final(self).pools@[p].reigons@[r] == (PrimativeReigon {
                    is_written: false,
                    ..old(self).pools@[p].reigons@[r]
                }),
    {
        let ghost olds = *old(self);
        let np = self.pools.len();
        let mut p: usize = 0;
        while p < np
            invariant
                self.wf(),
                Self::same_config(&olds, self),
                np == olds.pools@.len(),
                p <= np,
                self.batches@ == olds.batches@,
                self.updated_batches@ == olds.updated_batches@,
                self.batch_description_buffer@ == olds.batch_description_buffer@,
                self.pools@.len() == olds.pools@.len(),
                forall|q: int|
                    0 <= q < olds.pools@.len() ==> #[trigger] self.pools@[q].primative_buffer@
                        == olds.pools@[q].primative_buffer@ && self.pools@[q].reigons@.len()
                        == olds.pools@[q].reigons@.len(),
                forall|q: int, s: int|
                    0 <= q < p && 0 <= s < olds.pools@[q].reigons@.len() ==> #[trigger] self.pools@[
                        q].reigons@[s] == (PrimativeReigon {
                        is_written: false,
                        ..olds.pools@[q].reigons@[s]
                    }),
                forall|q: int, s: int|
                    p <= q < olds.pools@.len() && 0 <= s < olds.pools@[q].reigons@.len()
                        ==> #[trigger] self.pools@[q].reigons@[s] == olds.pools@[q].reigons@[s],
            decreases np - p,
        {
            let nr = self.pools[p].reigons.len();
            let mut r: usize = 0;
            while r < nr
                invariant
                    self.wf(),
                    Self::same_config(&olds, self),
                    np == olds.pools@.len(),
                    p < np,
                    nr == olds.pools@[p as int].reigons@.len(),
                    r <= nr,
                    self.batches@ == olds.batches@,
                    self.updated_batches@ == olds.updated_batches@,
                    self.batch_description_buffer@ == olds.batch_description_buffer@,
                    self.pools@.len() == olds.pools@.len(),
                    forall|q: int|
                        0 <= q < olds.pools@.len() ==> #[trigger] self.pools@[q].primative_buffer@
                            == olds.pools@[q].primative_buffer@ && self.pools@[q].reigons@.len()
                            == olds.pools@[q].reigons@.len(),
                    forall|q: int, s: int|
                        0 <= q < p && 0 <= s < olds.pools@[q].reigons@.len()
                            ==> #[trigger] self.pools@[q].reigons@[s] == (PrimativeReigon {
                            is_written: false,
                            ..olds.pools@[q].reigons@[s]
                        }),
                    forall|s: int|
                        0 <= s < r ==> #[trigger] self.pools@[p as int].reigons@[s]
                            == (PrimativeReigon {
                            is_written: false,
                            ..olds.pools@[p as int].reigons@[s]
                        }),
                    forall|s: int|
                        r <= s < olds.pools@[p as int].reigons@.len() ==> #[trigger] self.pools@[
                            p as int].reigons@[s] == olds.pools@[p as int].reigons@[s],
                    forall|q: int, s: int|
                        p < q < olds.pools@.len() && 0 <= s < olds.pools@[q].reigons@.len()
                            ==> #[trigger] self.pools@[q].reigons@[s] == olds.pools@[q].reigons@[s],
                decreases nr - r,
            {
                self.set_written(p, r, false);
                r = r + 1;
            }
            p = p + 1;
        }
    }

    /// Run the frame's compaction pass, then re-upload every dirty
    /// description entry, then clear the written-this-frame flags.
    ///
    /// When the ring had room for the description entries, the dirty set is
    /// empty afterwards, and then the whole description table matches the
    /// records: every live batch's entry is its packed record, every
    /// released identifier's entry is zeroed.
    pub fn sweep_and_flush(&mut self, stencil_buffer: &mut StencilBuffer) -> (cmds: Vec<
        CopyCommand,
    >)
        requires
            old(self).wf(),
            old(stencil_buffer).wf(),
            old(self).pools@.len() < u32::MAX,
        ensures
            final(self).wf(),
            final(stencil_buffer).wf(),
            final(stencil_buffer).data@.len() == old(stencil_buffer).data@.len(),
            Self::same_config(old(self), final(self)),
            Self::records_survive(old(self), final(self)),
            old(self).pools@.len() <= final(self).pools@.len() <= old(self).pools@.len() + 1,
            forall|p: int, r: int|
                0 <= p < final(self).pools@.len() && 0 <= r < final(self).pools@[p].reigons@.len()
                    ==> !(#[trigger] final(self).pools@[p].reigons@[r]).is_written,
            final(self).updated_batches@.len() == 0 ==> forall|id: int|
                0 <= id < final(self).max_id ==> final(self).batch_description_buffer@.subrange(
                    id * 8,
                    id * 8 + 8,
                ) == spec_desc_entry(#[trigger] final(self).batches@[id]),
            final(self).updated_batches@.len() == 0 || crate::staging::spec_align_up(
                old(stencil_buffer).top as int,
                8,
            ) + 8 * final(self).updated_batches@.len() > old(stencil_buffer).spec_capacity(),
            old(self).spec_has_sweep_source() && old(self).spec_has_sweep_dest() ==> (exists|
                pr: (u32, u32),
            |
                {
                    &&& old(self).pair_valid(pr)
                    &&& Self::spec_is_sweep_source(#[trigger] old(self).pair_reg(pr))
                    &&& (forall|pr2: (u32, u32)|
                        old(self).pair_valid(pr2) && Self::spec_is_sweep_source(
                            old(self).pair_reg(pr2),
                        ) ==> spec_frag_ge(old(self).pair_reg(pr), old(self).pair_reg(pr2)))
                    &&& final(self).pools@[pr.0 as int].reigons@[pr.1 as int].top == 0
                    &&& final(self).pools@[pr.0 as int].reigons@[pr.1 as int].usage == 0
                }),
            crate::commands::spec_cmds_phase_ordered(cmds@),
            forall|k: int|
                0 <= k < cmds@.len() ==> crate::commands::spec_cmd_phase(#[trigger] cmds@[k]) == 1
                    || crate::commands::spec_cmd_phase(cmds@[k]) == 2,
    {
        let ghost olds = *old(self);
        let mut cmds = self.sweep();
        let ghost after_sweep = *self;
        let mut sync_cmds = self.update_gpu_batches(stencil_buffer);
        let ghost sweep_seq = cmds@;
        let ghost sync_seq = sync_cmds@;
        cmds.append(&mut sync_cmds);
        proof {
            assert forall|a: int, b: int|
                0 <= a < b < cmds@.len() implies crate::commands::spec_cmd_phase(
                #[trigger] cmds@[a],
            ) <= crate::commands::spec_cmd_phase(#[trigger] cmds@[b]) by {
                if a < sweep_seq.len() {
                    assert(cmds@[a] == sweep_seq[a]);
                } else {
                    assert(cmds@[a] == sync_seq[a - sweep_seq.len()]);
                }
                if b < sweep_seq.len() {
                    assert(cmds@[b] == sweep_seq[b]);
                } else {
                    assert(cmds@[b] == sync_seq[b - sweep_seq.len()]);
                }
            }
        }
        let ghost after_sync = *self;
        self.clear_written_flags();
        proof {
            // Records and their bytes survive all three phases.
            assert forall|x: int|
                0 <= x < olds.batches@.len() && (#[trigger] olds.batches@[x]) is Some implies self
                .batches@[x]->Some_0.id == olds.batches@[x]->Some_0.id && self.batches@[
                x]->Some_0.count == olds.batches@[x]->Some_0.count && self.spec_batch_span_bytes(
                self.batches@[x]->Some_0,
            ) == olds.spec_batch_span_bytes(olds.batches@[x]->Some_0) by {
                let w = after_sweep.batches@[x]->Some_0;
                assert(after_sweep.batch_valid(w));
                assert(after_sync.spec_batch_span_bytes(w) == after_sweep.spec_batch_span_bytes(
                    w,
                ));
                assert(self.spec_batch_span_bytes(w) == after_sync.spec_batch_span_bytes(w));
            }
            if self.updated_batches@.len() == 0 {
                assert forall|id: int| 0 <= id < self.max_id implies self
                    .batch_description_buffer@.subrange(id * 8, id * 8 + 8) == spec_desc_entry(
                    #[trigger] self.batches@[id],
                ) by {
                    assert(!self.updated_batches@.contains(id as u32));
                }
            } else {
                // The sync was deferred whole, which only happens when the
                // ring lacked room for every pending entry.
                assert(self.updated_batches@ == after_sync.updated_batches@);
                assert(after_sync.updated_batches@ == after_sweep.updated_batches@);
                assert(crate::staging::spec_align_up(old(stencil_buffer).top as int, 8) + 8
                    * after_sweep.updated_batches@.len() > old(stencil_buffer).spec_capacity());
            }
            if olds.spec_has_sweep_source() && olds.spec_has_sweep_dest() {
                let pr = choose|pr: (u32, u32)|
                    {
                        &&& olds.pair_valid(pr)
                        &&& Self::spec_is_sweep_source(#[trigger] olds.pair_reg(pr))
                        &&& (forall|pr2: (u32, u32)|
                            olds.pair_valid(pr2) && Self::spec_is_sweep_source(
                                olds.pair_reg(pr2),
                            ) ==> spec_frag_ge(olds.pair_reg(pr), olds.pair_reg(pr2)))
                        &&& after_sweep.pools@[pr.0 as int].reigons@[pr.1 as int].top == 0
                        &&& after_sweep.pools@[pr.0 as int].reigons@[pr.1 as int].usage == 0
                    };
                assert(after_sync.pools@ == after_sweep.pools@);
                assert(self.pools@[pr.0 as int].reigons@[pr.1 as int] == (PrimativeReigon {
                    is_written: false,
                    ..after_sync.pools@[pr.0 as int].reigons@[pr.1 as int]
                }));
                assert(self.pools@[pr.0 as int].reigons@[pr.1 as int].top == 0 && self.pools@[
                    pr.0 as int].reigons@[pr.1 as int].usage == 0);
            }
        }
        cmds
    }

    /// Whether `id` is already marked for description re-upload.
    fn dirty_contains(&self, id: u32) -> (r: bool)
        ensures
            r == self.updated_batches@.contains(id),
    {
        let mut i: usize = 0;
        let n = self.updated_batches.len();
        while i < n
            invariant
                n == self.updated_batches@.len(),
                i <= n,
                forall|j: int| 0 <= j < i ==> self.updated_batches@[j] != id,
            decreases n - i,
        {
            if self.updated_batches[i] == id {
                return true;
            }
            i = i + 1;
        }
        false
    }

    /// Mark `id` so its description entry is rewritten at the next flush.
    fn update_batch_gpu(&mut self, id: u32)
        requires
            old(self).wf(),
            id < old(self).max_id,
        ensures
            final(self).wf(),
            final(self).updated_batches@.contains(id),
            old(self).updated_batches@.contains(id) ==> final(self).updated_batches@ == old(
                self,
            ).updated_batches@,
            !old(self).updated_batches@.contains(id) ==> final(self).updated_batches@ == old(
                self,
            ).updated_batches@.push(id),
            forall|x: u32|
                final(self).updated_batches@.contains(x) <==> (old(
                    self,
                ).updated_batches@.contains(x) || x == id),
            final(self).pools@ == old(self).pools@,
            final(self).batches@ == old(self).batches@,
            final(self).batch_description_buffer@ == old(self).batch_description_buffer@,
            final(self).max_id == old(self).max_id,
            final(self).primative_size == old(self).primative_size,
            final(self).reigon_size == old(self).reigon_size,
    {
        if !self.dirty_contains(id) {
            self.updated_batches.push(id);
            proof {
                assert(self.updated_batches@.last() == id);
                assert(self.updated_batches@.contains(id));
                assert forall|x: u32| self.updated_batches@.contains(x) implies (old(
                    self,
                ).updated_batches@.contains(x) || x == id) by {
                    let w = choose|w: int|
                        0 <= w < self.updated_batches@.len() && self.updated_batches@[w] == x;
                    if w < old(self).updated_batches@.len() {
                        assert(old(self).updated_batches@[w] == x);
                    }
                }
                assert forall|x: u32| old(self).updated_batches@.contains(x) implies self
                    .updated_batches@.contains(x) by {
                    let w = choose|w: int|
                        0 <= w < old(self).updated_batches@.len() && old(
                            self,
                        ).updated_batches@[w] == x;
                    assert(self.updated_batches@[w] == x);
                }
            }
        }
    }
}

} // verus!
