//! One fixed-capacity bump-allocation arena for geometry batches.
//!
//! A region tracks a high-water mark `top` (which only grows until an
//! explicit reset) and the live `usage` below it.  Scores steer placement
//! and compaction; they are fractions of the region's fields, kept here as
//! exact numerator/denominator pairs so that every comparison against a
//! threshold or another region is integer arithmetic.

use vstd::prelude::*;

verus! {

/// No duplicate entries in a sequence.
pub open spec fn unique_seq(s: Seq<u32>) -> bool {
    forall|i: int, j: int| 0 <= i < j < s.len() ==> s[i] != s[j]
}

/// Widening product of two 32-bit values; never overflows.
pub fn mul_u32(a: u32, b: u32) -> (r: u64)
    ensures
        r == a as int * b as int,
{
    proof {
        assert(a as int * b as int <= u32::MAX as int * u32::MAX as int) by (nonlinear_arith)
            requires
                a <= u32::MAX && b <= u32::MAX,
        ;
    }
    a as u64 * b as u64
}

/// Widening product of two 64-bit values; never overflows.
pub fn mul_u64(a: u64, b: u64) -> (r: u128)
    ensures
        r == a as int * b as int,
{
    proof {
        assert(a as int * b as int <= u64::MAX as int * u64::MAX as int) by (nonlinear_arith)
            requires
                a <= u64::MAX && b <= u64::MAX,
        ;
    }
    a as u128 * b as u128
}

/// A bump-allocation arena covering `cap` primitive slots of one pool,
/// starting `primative_offset` primitives into the pool's buffer.
pub struct PrimativeReigon {
    /// Start of the region inside its pool, in primitive units.
    pub primative_offset: u32,
    /// Total primitive slots of the region.
    pub cap: u32,
    /// High-water mark, relative to `primative_offset`; grows on every
    /// allocation and returns to zero only on reset.
    pub top: u32,
    /// Primitive slots below `top` still owned by a live batch.
    pub usage: u32,
    /// The batches resident in this region.
    pub batch_ids: Vec<u32>,
    /// Whether the region received a placement this frame (such a region is
    /// never chosen as a compaction source the same frame).
    pub is_written: bool,
}

impl PrimativeReigon {
    /// Capacity invariant: `usage <= top <= cap`, with a non-trivial
    /// capacity that stays addressable inside the pool.
    pub open spec fn wf(&self) -> bool {
        &&& self.usage <= self.top <= self.cap
        &&& 0 < self.cap
        &&& self.primative_offset + self.cap <= u32::MAX
        &&& unique_seq(self.batch_ids@)
    }

    /// Numerator of the placement score.  The score is
    /// `empty_percent = 1 - top/cap` for an unfragmented region and
    /// `(usage/top) * empty_percent` otherwise, which both equal
    /// `usage*(cap-top) / (top*cap)` whenever `top > 0`.
    pub open spec fn score_num(&self) -> int {
        if self.top == 0 {
            1
        } else {
            self.usage * (self.cap - self.top)
        }
    }

    /// Denominator of the placement score; always positive.
    pub open spec fn score_den(&self) -> int {
        if self.top == 0 {
            1
        } else {
            self.top * self.cap
        }
    }

    /// The placement filter: score strictly above one half.
    pub open spec fn spec_score_exceeds_half(&self) -> bool {
        2 * self.score_num() > self.score_den()
    }

    /// Numerator of the fragmentation score `(top - usage) / cap`: the
    /// fraction of the region wasted by stale allocations.
    pub open spec fn frag_num(&self) -> int {
        self.top - self.usage
    }

    /// A compaction source wastes more than 15 hundredths of its capacity.
    pub open spec fn spec_is_fragmented(&self) -> bool {
        20 * self.frag_num() > 3 * self.cap
    }

    /// A compaction destination wastes less than 8 hundredths.
    pub open spec fn spec_is_clean(&self) -> bool {
        25 * self.frag_num() < 2 * self.cap
    }

    }

/// `a`'s placement score is at least `b`'s, by cross-multiplication.
pub open spec fn spec_score_ge(a: PrimativeReigon, b: PrimativeReigon) -> bool {
    a.score_num() * b.score_den() >= b.score_num() * a.score_den()
}

/// `a` wastes at least as large a fraction of its capacity as `b`.
pub open spec fn spec_frag_ge(a: PrimativeReigon, b: PrimativeReigon) -> bool {
    a.frag_num() * b.cap >= b.frag_num() * a.cap
}

/// Comparing fractions with positive denominators by cross-multiplication is
/// transitive.
pub proof fn lemma_frac_ge_trans(an: int, ad: int, bn: int, bd: int, cn: int, cd: int)
    requires
        ad > 0,
        bd > 0,
        cd > 0,
        an * bd >= bn * ad,
        bn * cd >= cn * bd,
    ensures
        an * cd >= cn * ad,
{
    assert((an * bd) * cd >= (bn * ad) * cd) by (nonlinear_arith)
        requires
            cd > 0 && an * bd >= bn * ad,
    ;
    assert((bn * cd) * ad >= (cn * bd) * ad) by (nonlinear_arith)
        requires
            ad > 0 && bn * cd >= cn * bd,
    ;
    assert((an * bd) * cd == (an * cd) * bd && (bn * ad) * cd == (bn * cd) * ad && (cn * bd) * ad
        == (cn * ad) * bd) by (nonlinear_arith);
    assert((an * cd) * bd >= (cn * ad) * bd);
    assert(an * cd >= cn * ad) by (nonlinear_arith)
        requires
            bd > 0 && (an * cd) * bd >= (cn * ad) * bd,
    ;
}

/// A well-formed region's score has a positive denominator and a
/// non-negative numerator.
pub proof fn lemma_score_parts(a: PrimativeReigon)
    requires
        a.wf(),
    ensures
        a.score_den() > 0,
        a.score_num() >= 0,
{
    if a.top != 0 {
        assert(a.top * a.cap > 0 && a.usage * (a.cap - a.top) >= 0) by (nonlinear_arith)
            requires
                0 < a.top && 0 < a.cap && 0 <= a.usage && a.top <= a.cap,
        ;
    }
}

pub proof fn lemma_score_ge_trans(a: PrimativeReigon, b: PrimativeReigon, c: PrimativeReigon)
    requires
        a.wf(),
        b.wf(),
        c.wf(),
        spec_score_ge(a, b),
        spec_score_ge(b, c),
    ensures
        spec_score_ge(a, c),
{
    lemma_score_parts(a);
    lemma_score_parts(b);
    lemma_score_parts(c);
    lemma_frac_ge_trans(
        a.score_num(),
        a.score_den(),
        b.score_num(),
        b.score_den(),
        c.score_num(),
        c.score_den(),
    );
}

pub proof fn lemma_frag_ge_trans(a: PrimativeReigon, b: PrimativeReigon, c: PrimativeReigon)
    requires
        a.wf(),
        b.wf(),
        c.wf(),
        spec_frag_ge(a, b),
        spec_frag_ge(b, c),
    ensures
        spec_frag_ge(a, c),
{
    lemma_frac_ge_trans(a.frag_num(), a.cap as int, b.frag_num(), b.cap as int, c.frag_num(), c.cap as int);
}

impl PrimativeReigon {
    /// A fresh region covering `[offset, offset + cap)` of its pool.
    pub fn new(offset: u32, cap: u32) -> (r: PrimativeReigon)
        requires
            0 < cap,
            offset + cap <= u32::MAX,
        ensures
            r.wf(),
            r.primative_offset == offset,
            r.cap == cap,
            r.top == 0,
            r.usage == 0,
            r.batch_ids@ == Seq::<u32>::empty(),
            !r.is_written,
    {
        PrimativeReigon {
            primative_offset: offset,
            cap,
            top: 0,
            usage: 0,
            batch_ids: Vec::new(),
            is_written: false,
        }
    }

    /// Whether new batches should be placed here: the region is both densely
    /// packed and has empty tail space.
    pub fn score_exceeds_half(&self) -> (r: bool)
        requires
            self.wf(),
        ensures
            r == self.spec_score_exceeds_half(),
    {
        if self.top == 0 {
            true
        } else {
            let num = mul_u32(self.usage, self.cap - self.top);
            let den = mul_u32(self.top, self.cap);
            2 * (num as u128) > den as u128
        }
    }

    /// Whether this region's placement score is at least `other`'s
    /// (fractions compared by cross-multiplication).
    pub fn score_ge(&self, other: &PrimativeReigon) -> (r: bool)
        requires
            self.wf(),
            other.wf(),
        ensures
            r == (self.score_num() * other.score_den() >= other.score_num() * self.score_den()),
    {
        let a_num: u64 = if self.top == 0 {
            1
        } else {
            mul_u32(self.usage, self.cap - self.top)
        };
        let a_den: u64 = if self.top == 0 {
            1
        } else {
            mul_u32(self.top, self.cap)
        };
        let b_num: u64 = if other.top == 0 {
            1
        } else {
            mul_u32(other.usage, other.cap - other.top)
        };
        let b_den: u64 = if other.top == 0 {
            1
        } else {
            mul_u32(other.top, other.cap)
        };
        mul_u64(a_num, b_den) >= mul_u64(b_num, a_den)
    }

    /// Whether the region is a compaction source candidate.
    pub fn is_fragmented(&self) -> (r: bool)
        requires
            self.wf(),
        ensures
            r == self.spec_is_fragmented(),
    {
        20 * (self.top - self.usage) as u64 > 3 * self.cap as u64
    }

    /// Whether the region is a compaction destination candidate.
    pub fn is_clean(&self) -> (r: bool)
        requires
            self.wf(),
        ensures
            r == self.spec_is_clean(),
    {
        25 * ((self.top - self.usage) as u64) < (2 * self.cap as u64)
    }

    /// Whether this region wastes at least as much as `other`, for ordering
    /// compaction candidates.
    pub fn frag_ge(&self, other: &PrimativeReigon) -> (r: bool)
        requires
            self.wf(),
            other.wf(),
        ensures
            r == (self.frag_num() * other.cap >= other.frag_num() * self.cap),
    {
        mul_u32(self.top - self.usage, other.cap) >= mul_u32(other.top - other.usage, self.cap)
    }

    /// Reserve `batch_size` primitive slots.  All-or-nothing: succeeds if
    /// and only if the request fits under the capacity, returning the
    /// pool-relative offset of the new span; a too-large request changes
    /// nothing.
    pub fn allocate(&mut self, batch_size: u32) -> (r: Option<u32>)
        requires
            old(self).wf(),
        ensures
            final(self).wf(),
            final(self).primative_offset == old(self).primative_offset,
            final(self).cap == old(self).cap,
            final(self).batch_ids@ == old(self).batch_ids@,
            final(self).is_written == old(self).is_written,
            old(self).top + batch_size <= old(self).cap ==> {
                &&& r == Some((old(self).primative_offset + old(self).top) as u32)
                &&& final(self).top == old(self).top + batch_size
                &&& final(self).usage == old(self).usage + batch_size
            },
            old(self).top + batch_size > old(self).cap ==> {
                &&& r is None
                &&& *final(self) == *old(self)
            },
    {
        if batch_size <= self.cap - self.top {
            let allocation = self.primative_offset + self.top;
            self.top = self.top + batch_size;
            self.usage = self.usage + batch_size;
            Some(allocation)
        } else {
            None
        }
    }

    /// Clear the region (after full compaction away of its batches) and hand
    /// back the batches that were resident.
    pub fn reset_and_get_batches(&mut self) -> (r: Vec<u32>)
        requires
            old(self).wf(),
        ensures
            final(self).wf(),
            final(self).primative_offset == old(self).primative_offset,
            final(self).cap == old(self).cap,
            final(self).is_written == old(self).is_written,
            final(self).top == 0,
            final(self).usage == 0,
            final(self).batch_ids@ == Seq::<u32>::empty(),
            r@ == old(self).batch_ids@,
    {
        self.top = 0;
        self.usage = 0;
        let r = self.batch_ids.split_off(0);
        proof {
            assert(r@ =~= old(self).batch_ids@);
            assert(self.batch_ids@ =~= Seq::<u32>::empty());
        }
        r
    }
}

} // verus!
