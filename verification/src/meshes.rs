//! Chunk mesh payloads: packed face quads and their byte encoding.
//!
//! A quad is two 32-bit words (position, facing and material packed by the
//! mesher).  A chunk mesh is the quads of one chunk together with the
//! chunk's grid position; staging serializes the quads little-endian, eight
//! bytes per primitive.

use vstd::prelude::*;

use crate::byteops::{spec_u32_le, u32_le};

verus! {

/// One packed face quad: two 32-bit words of position, facing direction and
/// material.
#[derive(Clone, Copy, Debug)]
pub struct Quad {
    pub data: [u32; 2],
}

/// The eight staged bytes of one quad.
pub open spec fn spec_quad_bytes(q: Quad) -> Seq<u8> {
    spec_u32_le(q.data[0]) + spec_u32_le(q.data[1])
}

/// The staged bytes of a whole run of quads, in order.
pub open spec fn spec_quads_bytes(qs: Seq<Quad>) -> Seq<u8>
    decreases qs.len(),
{
    if qs.len() == 0 {
        Seq::empty()
    } else {
        spec_quads_bytes(qs.drop_last()) + spec_quad_bytes(qs.last())
    }
}

pub proof fn lemma_quads_bytes_len(qs: Seq<Quad>)
    ensures
        spec_quads_bytes(qs).len() == 8 * qs.len(),
    decreases qs.len(),
{
    if qs.len() > 0 {
        lemma_quads_bytes_len(qs.drop_last());
    }
}

/// The generated mesh of one chunk: its grid position and its visible face
/// quads.
pub struct ChunkMesh {
    pub pos: [i32; 3],
    pub quads: Vec<Quad>,
}

/// Serialize a run of quads as the staging ring expects them: eight
/// little-endian bytes per quad, in order.
pub fn quads_to_bytes(quads: &Vec<Quad>) -> (r: Vec<u8>)
    ensures
        r@ == spec_quads_bytes(quads@),
        r@.len() == 8 * quads@.len(),
{
    let n = quads.len();
    let mut r: Vec<u8> = Vec::new();
    let mut i: usize = 0;
    while i < n
        invariant
            n == quads@.len(),
            i <= n,
            r@ == spec_quads_bytes(quads@.take(i as int)),
            r@.len() == 8 * i,
        decreases n - i,
    {
        let ghost before = r@;
        let q = quads[i];
        let lo = u32_le(q.data[0]);
        let hi = u32_le(q.data[1]);
        r.push(lo[0]);
        r.push(lo[1]);
        r.push(lo[2]);
        r.push(lo[3]);
        r.push(hi[0]);
        r.push(hi[1]);
        r.push(hi[2]);
        r.push(hi[3]);
        proof {
            assert(quads@.take(i + 1).drop_last() =~= quads@.take(i as int));
            assert(quads@.take(i + 1).last() == quads@[i as int]);
            assert(r@ =~= before + spec_quad_bytes(quads@[i as int]));
        }
        i = i + 1;
    }
    proof {
        assert(quads@.take(n as int) =~= quads@);
        lemma_quads_bytes_len(quads@);
    }
    r
}

} // verus!
