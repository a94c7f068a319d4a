//! A fixed set of regions backed by one device geometry buffer.
//!
//! Pools are created whole and never shrunk; appending pools is the only way
//! total capacity grows.  The device buffer is modelled as a byte vector so
//! that copies into it are observable.

use vstd::prelude::*;

use crate::region::PrimativeReigon;

verus! {

/// Sum of the resident batch counts over a run of regions.
pub open spec fn spec_resident_count(regions: Seq<PrimativeReigon>) -> int
    decreases regions.len(),
{
    if regions.len() == 0 {
        0
    } else {
        spec_resident_count(regions.drop_last()) + regions.last().batch_ids@.len()
    }
}

pub proof fn lemma_resident_count_nonneg(regions: Seq<PrimativeReigon>)
    ensures
        spec_resident_count(regions) >= 0,
    decreases regions.len(),
{
    if regions.len() > 0 {
        lemma_resident_count_nonneg(regions.drop_last());
    }
}

pub proof fn lemma_resident_count_prefix_le(regions: Seq<PrimativeReigon>, n: int)
    requires
        0 <= n <= regions.len(),
    ensures
        spec_resident_count(regions.take(n)) <= spec_resident_count(regions),
    decreases regions.len() - n,
{
    if n < regions.len() {
        lemma_resident_count_prefix_le(regions, n + 1);
        assert(regions.take(n + 1).drop_last() =~= regions.take(n));
        assert(regions.take(n + 1).last() == regions[n]);
    } else {
        assert(regions.take(n) =~= regions);
    }
}

/// No region of the pool has ever been written: all tops and usages are
/// zero and nothing is resident.
pub open spec fn spec_pool_fresh(p: PrimativePool) -> bool {
    forall|r: int|
        0 <= r < p.reigons@.len() ==> {
            &&& (#[trigger] p.reigons@[r]).top == 0
            &&& p.reigons@[r].usage == 0
            &&& p.reigons@[r].batch_ids@ == Seq::<u32>::empty()
            &&& !p.reigons@[r].is_written
        }
}

/// A pool: `reigons.len()` regions of `reigon_size` primitive slots each,
/// all backed by one buffer of `primative_size`-byte elements.
pub struct PrimativePool {
    /// Bytes of one primitive element.
    pub primative_size: u32,
    /// This pool's index in the manager's pool list.
    pub pool_id: u32,
    /// The device geometry buffer, one byte vector of
    /// `primative_size * reigon_size * reigons.len()` bytes.
    pub primative_buffer: Vec<u8>,
    /// The bump-allocation arenas that share the buffer.
    pub reigons: Vec<PrimativeReigon>,
    /// Primitive slots of every region.
    pub reigon_size: u32,
}

impl PrimativePool {
    /// Regions tile the buffer in order, every one well formed and sized
    /// alike.
    pub open spec fn wf(&self) -> bool {
        &&& 0 < self.primative_size
        &&& 0 < self.reigon_size
        &&& 0 < self.reigons@.len()
        &&& self.reigons@.len() * self.reigon_size <= u32::MAX
        &&& self.primative_size * self.reigon_size * self.reigons@.len()
            == self.primative_buffer@.len()
        &&& forall|i: int|
            0 <= i < self.reigons@.len() ==> {
                &&& (#[trigger] self.reigons@[i]).wf()
                &&& self.reigons@[i].cap == self.reigon_size
                &&& self.reigons@[i].primative_offset == i * self.reigon_size
            }
    }

    /// A fresh pool of `reigon_count` empty regions.
    pub fn new(primative_size: u32, pool_id: u32, reigon_size: u32, reigon_count: u32) -> (r:
        PrimativePool)
        requires
            0 < primative_size,
            0 < reigon_size,
            0 < reigon_count,
            primative_size * reigon_size * reigon_count <= u32::MAX,
        ensures
            r.wf(),
            r.primative_size == primative_size,
            r.pool_id == pool_id,
            r.reigon_size == reigon_size,
            r.reigons@.len() == reigon_count,
            spec_pool_fresh(r),
            forall|i: int|
                0 <= i < reigon_count ==> {
                    &&& (#[trigger] r.reigons@[i]).top == 0
                    &&& r.reigons@[i].usage == 0
                    &&& r.reigons@[i].batch_ids@ == Seq::<u32>::empty()
                    &&& !r.reigons@[i].is_written
                },
            forall|i: int| 0 <= i < r.primative_buffer@.len() ==> r.primative_buffer@[i] == 0u8,
    {
        proof {
            assert(reigon_size * reigon_count <= primative_size * reigon_size * reigon_count
                && reigon_count * reigon_size <= primative_size * reigon_size * reigon_count
                && primative_size * reigon_size <= primative_size * reigon_size * reigon_count)
                by (nonlinear_arith)
                requires
                    0 < primative_size && 0 < reigon_size && 0 < reigon_count,
            ;
        }
        let mut reigons: Vec<PrimativeReigon> = Vec::new();
        let mut i: u32 = 0;
        while i < reigon_count
            invariant
                i <= reigon_count,
                0 < reigon_size,
                reigon_size * reigon_count <= u32::MAX,
                reigons@.len() == i,
                forall|j: int|
                    0 <= j < i ==> {
                        &&& (#[trigger] reigons@[j]).wf()
                        &&& reigons@[j].cap == reigon_size
                        &&& reigons@[j].primative_offset == j * reigon_size
                        &&& reigons@[j].top == 0
                        &&& reigons@[j].usage == 0
                        &&& reigons@[j].batch_ids@ == Seq::<u32>::empty()
                        &&& !reigons@[j].is_written
                    },
            decreases reigon_count - i,
    {
            proof {
                assert(i * reigon_size + reigon_size == (i + 1) * reigon_size && (i + 1)
                    * reigon_size <= reigon_count * reigon_size && reigon_count * reigon_size
                    == reigon_size * reigon_count) by (nonlinear_arith)
                    requires
                        i < reigon_count,
                ;
            }
            let offset = i * reigon_size;
            reigons.push(PrimativeReigon::new(offset, reigon_size));
            i = i + 1;
        }
        let byte_len = primative_size * reigon_size * reigon_count;
        PrimativePool {
            primative_size,
            pool_id,
            primative_buffer: vec![0u8; byte_len as usize],
            reigons,
            reigon_size,
        }
    }

    /// The device buffer this pool's batches live in.
    pub fn get_primative_buffer(&self) -> (r: &Vec<u8>)
        ensures
            r@ == self.primative_buffer@,
    {
        &self.primative_buffer
    }

    /// How many batches are resident across the pool's regions.
    pub fn get_batch_count(&self) -> (r: u32)
        requires
            self.wf(),
            spec_resident_count(self.reigons@) <= u32::MAX,
        ensures
            r == spec_resident_count(self.reigons@),
    {
        let mut total: u64 = 0;
        let mut i: usize = 0;
        let n = self.reigons.len();
        while i < n
            invariant
                n == self.reigons@.len(),
                i <= n,
                spec_resident_count(self.reigons@) <= u32::MAX,
                total == spec_resident_count(self.reigons@.take(i as int)),
            decreases n - i,
        {
            proof {
                assert(self.reigons@.take(i + 1).drop_last() =~= self.reigons@.take(i as int));
                assert(self.reigons@.take(i + 1).last() == self.reigons@[i as int]);
                lemma_resident_count_prefix_le(self.reigons@, i + 1);
                lemma_resident_count_nonneg(self.reigons@.take(i as int));
            }
            total = total + self.reigons[i].batch_ids.len() as u64;
            i = i + 1;
        }
        proof {
            assert(self.reigons@.take(n as int) =~= self.reigons@);
        }
        total as u32
    }
}

} // verus!
