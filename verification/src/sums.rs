//! Summing the primitive counts of the batches resident in a region.
//!
//! A region's `usage` field equals the sum, over its resident batch
//! identifiers, of the recorded primitive counts.  These lemmas track that
//! sum through pushes, swap-removals and record updates.

use vstd::prelude::*;

use crate::batch::PrimativeBatch;

verus! {

/// The primitive count recorded for `id`, or zero when `id` has no record.
pub open spec fn count_of(recs: Seq<Option<PrimativeBatch>>, id: u32) -> int {
    if id < recs.len() {
        match recs[id as int] {
            Some(b) => b.count as int,
            None => 0,
        }
    } else {
        0
    }
}

/// Total primitive count recorded for the identifiers in `ids`.
pub open spec fn ids_count_sum(ids: Seq<u32>, recs: Seq<Option<PrimativeBatch>>) -> int
    decreases ids.len(),
{
    if ids.len() == 0 {
        0
    } else {
        ids_count_sum(ids.drop_last(), recs) + count_of(recs, ids.last())
    }
}

/// Every partial sum of non-negative counts is non-negative.
pub proof fn lemma_sum_nonneg(ids: Seq<u32>, recs: Seq<Option<PrimativeBatch>>)
    ensures
        ids_count_sum(ids, recs) >= 0,
    decreases ids.len(),
{
    if ids.len() > 0 {
        lemma_sum_nonneg(ids.drop_last(), recs);
    }
}

/// Replacing one entry of `ids` adjusts the sum by the difference of the two
/// counts.
pub proof fn lemma_sum_update(
    ids: Seq<u32>,
    recs: Seq<Option<PrimativeBatch>>,
    k: int,
    v: u32,
)
    requires
        0 <= k < ids.len(),
    ensures
        ids_count_sum(ids.update(k, v), recs) == ids_count_sum(ids, recs) - count_of(recs, ids[k])
            + count_of(recs, v),
    decreases ids.len(),
{
    let upd = ids.update(k, v);
    if k == ids.len() - 1 {
        assert(upd.drop_last() =~= ids.drop_last());
        assert(upd.last() == v);
    } else {
        assert(upd.drop_last() =~= ids.drop_last().update(k, v));
        assert(upd.last() == ids.last());
        lemma_sum_update(ids.drop_last(), recs, k, v);
    }
}

/// Removing the entry at `k` by swapping the last entry into its place
/// subtracts exactly that entry's count.
pub proof fn lemma_sum_swap_remove(ids: Seq<u32>, recs: Seq<Option<PrimativeBatch>>, k: int)
    requires
        0 <= k < ids.len(),
    ensures
        ids_count_sum(ids.update(k, ids.last()).drop_last(), recs) == ids_count_sum(ids, recs)
            - count_of(recs, ids[k]),
{
    if k == ids.len() - 1 {
        assert(ids.update(k, ids.last()).drop_last() =~= ids.drop_last());
    } else {
        lemma_sum_update(ids, recs, k, ids.last());
        assert(ids.update(k, ids.last()).drop_last().push(ids.last()) =~= ids.update(
            k,
            ids.last(),
        ));
    }
}

/// Updating a record that no identifier in `ids` names leaves the sum alone.
pub proof fn lemma_sum_recs_update_absent(
    ids: Seq<u32>,
    recs: Seq<Option<PrimativeBatch>>,
    id: u32,
    v: Option<PrimativeBatch>,
)
    requires
        id < recs.len(),
        !ids.contains(id),
    ensures
        ids_count_sum(ids, recs.update(id as int, v)) == ids_count_sum(ids, recs),
    decreases ids.len(),
{
    if ids.len() > 0 {
        assert(ids.drop_last().push(ids.last()) =~= ids);
        assert(forall|x: u32| ids.drop_last().contains(x) ==> ids.contains(x)) by {
            assert forall|x: u32| ids.drop_last().contains(x) implies ids.contains(x) by {
                let w = choose|w: int| 0 <= w < ids.drop_last().len() && ids.drop_last()[w] == x;
                assert(ids[w] == x);
            }
        }
        lemma_sum_recs_update_absent(ids.drop_last(), recs, id, v);
        assert(ids.contains(ids.last()));
        assert(ids.last() != id);
        assert(count_of(recs.update(id as int, v), ids.last()) == count_of(recs, ids.last()));
    }
}

/// An identifier contained in a duplicate-free `ids` contributes at most the
/// whole sum.
pub proof fn lemma_sum_member_le(ids: Seq<u32>, recs: Seq<Option<PrimativeBatch>>, id: u32)
    requires
        crate::region::unique_seq(ids),
        ids.contains(id),
    ensures
        count_of(recs, id) <= ids_count_sum(ids, recs),
    decreases ids.len(),
{
    if ids.last() == id {
        lemma_sum_nonneg(ids.drop_last(), recs);
    } else {
        let w = choose|w: int| 0 <= w < ids.len() && ids[w] == id;
        assert(ids.drop_last()[w] == id);
        assert(ids.drop_last().contains(id));
        lemma_sum_member_le(ids.drop_last(), recs, id);
        assert(count_of(recs, ids.last()) >= 0);
    }
}

} // verus!
