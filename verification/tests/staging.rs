use geometry_pool::staging::StencilBuffer;

#[test]
fn upload_returns_offsets_in_order() {
    let mut ring = StencilBuffer::new(100);
    assert_eq!(ring.upload(&[1, 2, 3]), Some(0));
    assert_eq!(ring.upload(&[4, 5]), Some(3));
    assert_eq!(ring.top, 5);
    assert_eq!(&ring.data[0..5], &[1, 2, 3, 4, 5]);
}

#[test]
fn oversized_stage_fails_and_changes_nothing() {
    // A 1200-byte payload against a 1000-byte ring: "no room", top unchanged.
    let mut ring = StencilBuffer::new(1000);
    let payload = vec![7u8; 1200];
    assert_eq!(ring.upload(&payload), None);
    assert_eq!(ring.top, 0);
    assert!(ring.data.iter().all(|b| *b == 0));
}

#[test]
fn allocate_aligns_the_top() {
    let mut ring = StencilBuffer::new(64);
    assert_eq!(ring.upload(&[9, 9, 9]), Some(0));
    // Top is 3; an 8-aligned allocation starts at 8.
    assert_eq!(ring.allocate(16, 8), Some(8));
    assert_eq!(ring.top, 24);
}

#[test]
fn allocate_fails_when_aligned_request_exceeds_capacity() {
    let mut ring = StencilBuffer::new(20);
    assert_eq!(ring.allocate(16, 8), Some(0));
    let before = ring.top;
    assert_eq!(ring.allocate(8, 8), None);
    assert_eq!(ring.top, before);
}

#[test]
fn allocate_items_reserves_count_times_size() {
    let mut ring = StencilBuffer::new(100);
    assert_eq!(ring.allocate_items(5, 8), Some(0));
    assert_eq!(ring.top, 40);
}

#[test]
fn reset_rewinds_the_top_only() {
    let mut ring = StencilBuffer::new(16);
    ring.upload(&[1, 2, 3, 4]).unwrap();
    ring.reset();
    assert_eq!(ring.top, 0);
    assert_eq!(&ring.data[0..4], &[1, 2, 3, 4]);
}

#[test]
fn write_at_fills_a_reserved_span() {
    let mut ring = StencilBuffer::new(32);
    let base = ring.allocate(8, 8).unwrap();
    ring.write_at(base, &[1, 2, 3, 4, 5, 6, 7, 8]);
    assert_eq!(&ring.data[0..8], &[1, 2, 3, 4, 5, 6, 7, 8]);
    assert_eq!(ring.top, 8);
}
