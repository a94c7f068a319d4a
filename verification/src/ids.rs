//! Issue and reclaim small integer identifiers for geometry batches.
//!
//! Freed identifiers are reused most-recently-freed first, so the set of
//! identifiers in circulation stays compact.

use vstd::prelude::*;

verus! {

/// Issues batch identifiers and reclaims released ones (most recently
/// released first).
pub struct IDManager {
    /// The next identifier that has never been issued.
    pub id_counter: u32,
    /// Identifiers released and not yet reissued; the last entry is reused
    /// first.
    pub free_ids: Vec<u32>,
}

impl IDManager {
    /// All identifiers on the free list were issued earlier, so they lie
    /// below the counter.
    pub open spec fn wf(&self) -> bool {
        forall|i: int| 0 <= i < self.free_ids@.len() ==> self.free_ids@[i] < self.id_counter
    }

    pub fn new() -> (r: IDManager)
        ensures
            r.wf(),
            r.id_counter == 0,
            r.free_ids@ == Seq::<u32>::empty(),
    {
        IDManager { id_counter: 0, free_ids: Vec::new() }
    }

    /// Return a released identifier to the free list.
    pub fn free_id(&mut self, id: u32)
        requires
            old(self).wf(),
            id < old(self).id_counter,
        ensures
            final(self).wf(),
            final(self).id_counter == old(self).id_counter,
            final(self).free_ids@ == old(self).free_ids@.push(id),
    {
        self.free_ids.push(id);
    }

    /// Issue an identifier: the most recently freed one if any, else a fresh
    /// one from the counter.
    pub fn new_id(&mut self) -> (id: u32)
        requires
            old(self).wf(),
            old(self).id_counter < u32::MAX,
        ensures
            final(self).wf(),
            id < final(self).id_counter,
            old(self).free_ids@.len() > 0 ==> {
                &&& id == old(self).free_ids@.last()
                &&& final(self).free_ids@ == old(self).free_ids@.drop_last()
                &&& final(self).id_counter == old(self).id_counter
            },
            old(self).free_ids@.len() == 0 ==> {
                &&& id == old(self).id_counter
                &&& final(self).free_ids@ == old(self).free_ids@
                &&& final(self).id_counter == old(self).id_counter + 1
            },
    {
        match self.free_ids.pop() {
            Some(id) => id,
            None => {
                let old_counter = self.id_counter;
                self.id_counter = self.id_counter + 1;
                old_counter
            },
        }
    }
}

} // verus!
