//! Per-frame linear staging buffer for host-to-device payloads.
//!
//! A `StencilBuffer` is a bump allocator over one host-writable span of
//! bytes.  It never wraps or recycles within a frame; `reset` returns the
//! bump pointer to zero once per frame.  Exhaustion is a recoverable `None`:
//! the caller retries the same payload next frame.

use vstd::prelude::*;

use crate::byteops::{seq_write, write_bytes_at};

verus! {

/// `top` rounded up to the next multiple of `align`.
pub open spec fn spec_align_up(top: int, align: int) -> int
    recommends
        align > 0,
{
    if top % align == 0 {
        top
    } else {
        (top / align + 1) * align
    }
}

/// Rounding up never goes below the original value.
pub proof fn lemma_align_up_ge(top: int, align: int)
    requires
        top >= 0,
        align > 0,
    ensures
        spec_align_up(top, align) >= top,
{
    if top % align != 0 {
        assert((top / align + 1) * align >= top) by (nonlinear_arith)
            requires
                top >= 0 && align > 0,
        ;
    }
}

/// A per-frame linear (bump) buffer of host-writable bytes.
pub struct StencilBuffer {
    /// The staged bytes; its length is the ring's capacity and never changes.
    pub data: Vec<u8>,
    /// Next free byte; only grows within a frame, reset once per frame.
    pub top: u64,
}

impl StencilBuffer {
    /// The bump pointer never passes the capacity.
    pub open spec fn wf(&self) -> bool {
        self.top <= self.data@.len()
    }

    pub open spec fn spec_capacity(&self) -> int {
        self.data@.len() as int
    }

    /// A zero-filled ring of `size` bytes.
    pub fn new(size: u32) -> (r: StencilBuffer)
        ensures
            r.wf(),
            r.top == 0,
            r.data@.len() == size,
            forall|i: int| 0 <= i < size ==> r.data@[i] == 0u8,
    {
        StencilBuffer { data: vec![0u8; size as usize], top: 0 }
    }

    /// Total capacity in bytes.
    pub fn byte_size(&self) -> (r: u64)
        requires
            self.wf(),
        ensures
            r == self.spec_capacity(),
    {
        self.data.len() as u64
    }

    /// Bytes still free this frame.
    pub fn remaining(&self) -> (r: u64)
        requires
            self.wf(),
        ensures
            r == self.spec_capacity() - self.top,
    {
        self.data.len() as u64 - self.top
    }

    /// Stage `bytes` at the current top without alignment.  Returns the byte
    /// offset they were written at, or `None` (and no change) if they do not
    /// fit this frame.
    pub fn upload(&mut self, bytes: &[u8]) -> (r: Option<u64>)
        requires
            old(self).wf(),
        ensures
            final(self).wf(),
            final(self).data@.len() == old(self).data@.len(),
            old(self).top + bytes@.len() <= old(self).spec_capacity() ==> {
                &&& r == Some(old(self).top)
                &&& final(self).top == old(self).top + bytes@.len()
                &&& final(self).data@ == seq_write(old(self).data@, old(self).top as int, bytes@)
            },
            old(self).top + bytes@.len() > old(self).spec_capacity() ==> {
                &&& r is None
                &&& *final(self) == *old(self)
            },
    {
        let len = bytes.len() as u64;
        if len > self.data.len() as u64 - self.top {
            return None;
        }
        let offset = self.top;
        write_bytes_at(&mut self.data, offset as usize, bytes);
        self.top = self.top + len;
        Some(offset)
    }

    /// Advance the top to the next multiple of `allignment` and reserve
    /// `size` bytes there.  Returns the reserved byte offset, or `None` (and
    /// no change) if the aligned request would exceed the capacity.
    pub fn allocate(&mut self, size: u64, allignment: u64) -> (r: Option<u64>)
        requires
            old(self).wf(),
            allignment > 0,
        ensures
            final(self).wf(),
            final(self).data@ == old(self).data@,
            spec_align_up(old(self).top as int, allignment as int) + size <= old(
                self,
            ).spec_capacity() ==> {
                &&& r == Some(spec_align_up(old(self).top as int, allignment as int) as u64)
                &&& final(self).top == spec_align_up(old(self).top as int, allignment as int)
                    + size
            },
            spec_align_up(old(self).top as int, allignment as int) + size > old(
                self,
            ).spec_capacity() ==> {
                &&& r is None
                &&& *final(self) == *old(self)
            },
    {
        let dlen = self.data.len();
        let rem = self.top % allignment;
        proof {
            let t = old(self).top;
            let a = allignment;
            assert(t / a * a + t % a == t && (t / a + 1) * a == t / a * a + a && t / a * a <= t)
                by (nonlinear_arith)
                requires
                    a > 0,
            ;
        }
        let aligned: u64 = if rem == 0 {
            self.top
        } else {
            let pad = allignment - rem;
            if pad > u64::MAX - self.top {
                // The aligned top alone already passes every possible
                // capacity, so the request cannot fit.
                return None;
            }
            self.top + pad
        };
        assert(aligned == spec_align_up(old(self).top as int, allignment as int));
        if size > dlen as u64 || aligned > dlen as u64 - size {
            return None;
        }
        self.top = aligned + size;
        Some(aligned)
    }

    /// Reserve room for `count` items of `item_size` bytes each, aligned to
    /// the item size.
    pub fn allocate_items(&mut self, count: u64, item_size: u64) -> (r: Option<u64>)
        requires
            old(self).wf(),
            item_size > 0,
            count * item_size <= u64::MAX,
        ensures
            final(self).wf(),
            final(self).data@ == old(self).data@,
            spec_align_up(old(self).top as int, item_size as int) + count * item_size <= old(
                self,
            ).spec_capacity() ==> {
                &&& r == Some(spec_align_up(old(self).top as int, item_size as int) as u64)
                &&& final(self).top == spec_align_up(old(self).top as int, item_size as int)
                    + count * item_size
            },
            spec_align_up(old(self).top as int, item_size as int) + count * item_size > old(
                self,
            ).spec_capacity() ==> {
                &&& r is None
                &&& *final(self) == *old(self)
            },
    {
        self.allocate(count * item_size, item_size)
    }

    /// Write `bytes` into a span reserved earlier this frame.
    pub fn write_at(&mut self, offset: u64, bytes: &[u8])
        requires
            old(self).wf(),
            offset + bytes@.len() <= old(self).top,
        ensures
            final(self).wf(),
            final(self).top == old(self).top,
            final(self).data@ == seq_write(old(self).data@, offset as int, bytes@),
    {
        let dlen = self.data.len();
        proof {
            assert(offset <= dlen);
        }
        let off = offset as usize;
        write_bytes_at(&mut self.data, off, bytes);
    }

    /// Start a new frame: every byte staged before is dead.
    pub fn reset(&mut self)
        requires
            old(self).wf(),
        ensures
            final(self).wf(),
            final(self).top == 0,
            final(self).data@ == old(self).data@,
    {
        self.top = 0;
    }
}

} // verus!
