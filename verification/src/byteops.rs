//! Byte-level helpers shared by the staging ring, the pools and the
//! description table: writing a span of bytes into a fixed-length buffer,
//! and the little-endian encoding of 32-bit words.

use vstd::prelude::*;

verus! {

/// `dst` with `src` written over the range starting at `off`; everything
/// outside that range is kept.
pub open spec fn seq_write(dst: Seq<u8>, off: int, src: Seq<u8>) -> Seq<u8> {
    dst.take(off) + src + dst.skip(off + src.len())
}

/// Copy all of `src` into `dst` at byte offset `off`, leaving the rest of
/// `dst` as it was.
pub fn write_bytes_at(dst: &mut Vec<u8>, off: usize, src: &[u8])
    requires
        off + src@.len() <= old(dst)@.len(),
    ensures
        final(dst)@ == seq_write(old(dst)@, off as int, src@),
{
    let len = src.len();
    let dlen = dst.len();
    let mut i: usize = 0;
    while i < len
        invariant
            len == src@.len(),
            dlen == dst@.len(),
            off + len <= dlen,
            i <= len,
            dst@.len() == old(dst)@.len(),
            forall|j: int| 0 <= j < off ==> dst@[j] == old(dst)@[j],
            forall|j: int| 0 <= j < i ==> dst@[off + j] == src@[j],
            forall|j: int| off + len <= j < dst@.len() ==> dst@[j] == old(dst)@[j],
        decreases len - i,
    {
        dst[off + i] = src[i];
        i = i + 1;
    }
    proof {
        assert(dst@ =~= seq_write(old(dst)@, off as int, src@));
    }
}

/// Copy `len` bytes of `src` starting at `src_off` into `dst` at `dst_off`.
pub fn copy_bytes_at(dst: &mut Vec<u8>, dst_off: usize, src: &[u8], src_off: usize, len: usize)
    requires
        src_off + len <= src@.len(),
        dst_off + len <= old(dst)@.len(),
    ensures
        final(dst)@ == seq_write(old(dst)@, dst_off as int, src@.subrange(
            src_off as int,
            src_off + len,
        )),
{
    let dlen = dst.len();
    let slen = src.len();
    let mut i: usize = 0;
    while i < len
        invariant
            slen == src@.len(),
            dlen == dst@.len(),
            src_off + len <= slen,
            dst_off + len <= dlen,
            i <= len,
            dst@.len() == old(dst)@.len(),
            forall|j: int| 0 <= j < dst_off ==> dst@[j] == old(dst)@[j],
            forall|j: int| 0 <= j < i ==> #[trigger] dst@[dst_off + j] == src@[src_off + j],
            forall|j: int| dst_off + len <= j < dst@.len() ==> dst@[j] == old(dst)@[j],
        decreases len - i,
    {
        dst[dst_off + i] = src[src_off + i];
        i = i + 1;
    }
    proof {
        let written = seq_write(old(dst)@, dst_off as int, src@.subrange(src_off as int, src_off
            + len));
        assert forall|j: int| 0 <= j < dst@.len() implies dst@[j] == written[j] by {
            if dst_off <= j < dst_off + len {
                assert(dst@[dst_off + (j - dst_off)] == src@[src_off + (j - dst_off)]);
            }
        }
        assert(dst@ =~= written);
    }
}

/// Copy `len` bytes starting at `off` out of `src`.
pub fn read_span(src: &Vec<u8>, off: usize, len: usize) -> (r: Vec<u8>)
    requires
        off + len <= src@.len(),
    ensures
        r@ == src@.subrange(off as int, off + len),
{
    let slen = src.len();
    let mut r: Vec<u8> = Vec::new();
    let mut i: usize = 0;
    while i < len
        invariant
            slen == src@.len(),
            off + len <= slen,
            i <= len,
            r@.len() == i,
            forall|j: int| 0 <= j < i ==> r@[j] == src@[off + j],
        decreases len - i,
    {
        r.push(src[off + i]);
        i = i + 1;
    }
    proof {
        assert(r@ =~= src@.subrange(off as int, off + len));
    }
    r
}

/// A write reads back exactly what was written.
pub proof fn lemma_seq_write_inside(dst: Seq<u8>, off: int, src: Seq<u8>)
    requires
        0 <= off,
        off + src.len() <= dst.len(),
    ensures
        seq_write(dst, off, src).subrange(off, off + src.len()) == src,
{
    assert(seq_write(dst, off, src).subrange(off, off + src.len()) =~= src);
}

/// A write leaves every range it does not touch as it was.
pub proof fn lemma_seq_write_outside(dst: Seq<u8>, off: int, src: Seq<u8>, s: int, e: int)
    requires
        0 <= off,
        off + src.len() <= dst.len(),
        0 <= s <= e <= dst.len(),
        e <= off || off + src.len() <= s,
    ensures
        seq_write(dst, off, src).subrange(s, e) == dst.subrange(s, e),
{
    assert(seq_write(dst, off, src).subrange(s, e) =~= dst.subrange(s, e));
}

/// The little-endian bytes of a 32-bit word.
pub open spec fn spec_u32_le(x: u32) -> Seq<u8> {
    seq![
        (x & 0xFF) as u8,
        ((x >> 8) & 0xFF) as u8,
        ((x >> 16) & 0xFF) as u8,
        ((x >> 24) & 0xFF) as u8,
    ]
}

/// Encode a 32-bit word as its four little-endian bytes.
pub fn u32_le(x: u32) -> (r: [u8; 4])
    ensures
        r@ == spec_u32_le(x),
{
    let r = [(x & 0xFF) as u8, ((x >> 8) & 0xFF) as u8, ((x >> 16) & 0xFF) as u8, ((x
        >> 24) & 0xFF) as u8];
    proof {
        assert(r@ =~= spec_u32_le(x));
    }
    r
}

} // verus!
