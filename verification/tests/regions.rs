use geometry_pool::batch::PrimativeBatch;
use geometry_pool::byteops::u32_le;
use geometry_pool::meshes::{quads_to_bytes, Quad};
use geometry_pool::region::PrimativeReigon;

#[test]
fn fresh_region_scores_above_half() {
    let reg = PrimativeReigon::new(0, 100);
    assert!(reg.score_exceeds_half());
}

#[test]
fn dense_region_with_forty_percent_free_scores_below_half() {
    let mut reg = PrimativeReigon::new(0, 100);
    reg.allocate(60).unwrap();
    // usage == top == 60: score is the empty fraction, 0.4.
    assert!(!reg.score_exceeds_half());
}

#[test]
fn score_exactly_one_half_is_not_eligible() {
    let mut reg = PrimativeReigon::new(0, 100);
    reg.allocate(50).unwrap();
    // usage == top == 50: score is exactly 0.5; the filter is strict.
    assert!(!reg.score_exceeds_half());
}

#[test]
fn fragmentation_thresholds_are_strict() {
    // top 100, usage 85: fragmentation 0.15 exactly; not yet a source.
    let mut reg = PrimativeReigon::new(0, 100);
    reg.allocate(100).unwrap();
    reg.usage = 85;
    assert!(!reg.is_fragmented());
    // One more wasted slot crosses the threshold.
    reg.usage = 84;
    assert!(reg.is_fragmented());
    // Fragmentation 0.08 exactly is not clean; one less wasted slot is.
    reg.usage = 92;
    assert!(!reg.is_clean());
    reg.usage = 93;
    assert!(reg.is_clean());
}

#[test]
fn allocate_is_all_or_nothing() {
    let mut reg = PrimativeReigon::new(200, 100);
    assert_eq!(reg.allocate(60), Some(200));
    assert_eq!(reg.allocate(41), None);
    assert_eq!(reg.top, 60);
    assert_eq!(reg.usage, 60);
    assert_eq!(reg.allocate(40), Some(260));
    assert_eq!(reg.top, 100);
}

#[test]
fn reset_hands_back_the_residents() {
    let mut reg = PrimativeReigon::new(0, 100);
    reg.allocate(10).unwrap();
    reg.batch_ids.push(3);
    reg.batch_ids.push(8);
    let drained = reg.reset_and_get_batches();
    assert_eq!(drained, vec![3, 8]);
    assert_eq!(reg.top, 0);
    assert_eq!(reg.usage, 0);
    assert!(reg.batch_ids.is_empty());
}

#[test]
fn compact_packs_pool_and_count_into_one_word() {
    let b = PrimativeBatch { count: 10, offset: 7, id: 1, pool_id: 2 };
    let packed = b.compact();
    assert_eq!(packed[0], 7);
    assert_eq!(packed[1], (2u32 << 24) | 10);
}

#[test]
fn u32_le_encodes_little_endian() {
    assert_eq!(u32_le(0x0102_0304), [4, 3, 2, 1]);
    assert_eq!(u32_le(10), [10, 0, 0, 0]);
}

#[test]
fn quads_serialize_eight_bytes_each() {
    let quads = vec![Quad { data: [1, 0x0102_0304] }, Quad { data: [2, 0] }];
    let bytes = quads_to_bytes(&quads);
    assert_eq!(bytes.len(), 16);
    assert_eq!(&bytes[0..8], &[1, 0, 0, 0, 4, 3, 2, 1]);
    assert_eq!(&bytes[8..16], &[2, 0, 0, 0, 0, 0, 0, 0]);
}
