//! The per-batch placement record and its packed descriptor encoding.

use vstd::prelude::*;

use crate::byteops::{spec_u32_le, u32_le};

verus! {

/// Where one live batch sits: `count` primitives at `offset` (in primitive
/// units, relative to the start of pool `pool_id`).
#[derive(Clone, Copy, Debug, PartialEq, Eq, Structural)]
pub struct PrimativeBatch {
    pub count: u32,
    pub offset: u32,
    pub id: u32,
    pub pool_id: u32,
}

/// The second packed descriptor word: pool id in the high byte, primitive
/// count in the low 24 bits.
pub open spec fn spec_pack_word(pool_id: u32, count: u32) -> u32 {
    (pool_id << 24) | (count & 0xFF_FFFF)
}

impl PrimativeBatch {
    /// The batch's two-word entry in the description table.
    pub fn compact(&self) -> (r: [u32; 2])
        ensures
            r@ == seq![self.offset, spec_pack_word(self.pool_id, self.count)],
    {
        let r = [self.offset, (self.pool_id << 24) | (self.count & 0xFF_FFFF)];
        proof {
            assert(r@ =~= seq![self.offset, spec_pack_word(self.pool_id, self.count)]);
        }
        r
    }
}

/// The eight bytes a record occupies in the description table; a released
/// identifier's entry is zeroed.
pub open spec fn spec_desc_entry(rec: Option<PrimativeBatch>) -> Seq<u8> {
    match rec {
        Some(b) => spec_u32_le(b.offset) + spec_u32_le(spec_pack_word(b.pool_id, b.count)),
        None => seq![0u8, 0u8, 0u8, 0u8, 0u8, 0u8, 0u8, 0u8],
    }
}

/// Encode a record's description-table entry.
pub fn desc_entry_bytes(rec: &Option<PrimativeBatch>) -> (r: Vec<u8>)
    ensures
        r@ == spec_desc_entry(*rec),
{
    let mut v: Vec<u8> = Vec::new();
    match rec {
        Some(b) => {
            let words = b.compact();
            let lo = u32_le(words[0]);
            let hi = u32_le(words[1]);
            v.push(lo[0]);
            v.push(lo[1]);
            v.push(lo[2]);
            v.push(lo[3]);
            v.push(hi[0]);
            v.push(hi[1]);
            v.push(hi[2]);
            v.push(hi[3]);
            proof {
                assert(v@ =~= spec_u32_le(b.offset) + spec_u32_le(
                    spec_pack_word(b.pool_id, b.count),
                ));
            }
        },
        None => {
            v.push(0);
            v.push(0);
            v.push(0);
            v.push(0);
            v.push(0);
            v.push(0);
            v.push(0);
            v.push(0);
            proof {
                assert(v@ =~= seq![0u8, 0u8, 0u8, 0u8, 0u8, 0u8, 0u8, 0u8]);
            }
        },
    }
    v
}

} // verus!
