use geometry_pool::commands::{BufferId, CopyCommand};
use geometry_pool::manager::{BatchUpload, PrimativeManager};
use geometry_pool::staging::StencilBuffer;

fn stage(ring: &mut StencilBuffer, bytes: &[u8]) -> u32 {
    ring.upload(bytes).unwrap() as u32
}

fn pattern(len: usize, seed: u8) -> Vec<u8> {
    (0..len).map(|i| seed.wrapping_add(i as u8)).collect()
}

#[test]
fn first_batch_lands_in_pool_zero_region_zero_at_offset_zero() {
    // Scenario: empty manager, one batch of ten primitives for id 1.
    let mut m = PrimativeManager::new(4, 100, 16);
    let mut ring = StencilBuffer::new(4096);
    let payload = pattern(40, 1);
    let off = stage(&mut ring, &payload);
    let (cmds, placed) = m.insert_batches(
        &ring,
        vec![BatchUpload { byte_offset: off, primative_count: 10, id: 1 }],
    );
    assert_eq!(placed, 1);
    assert_eq!(m.get_pools().len(), 1);
    let b = m.batches[1].unwrap();
    assert_eq!(b.offset, 0);
    assert_eq!(b.pool_id, 0);
    assert_eq!(b.count, 10);
    assert_eq!(
        cmds,
        vec![CopyCommand {
            src: BufferId::Stencil,
            dst: BufferId::Pool(0),
            src_offset: 0,
            dst_offset: 0,
            size: 40,
        }]
    );
    // Round trip: the pool holds exactly the staged bytes.
    assert_eq!(&m.get_pools()[0].get_primative_buffer()[0..40], &payload[..]);
    // After the flush the descriptor for id 1 is {offset 0, pool 0, count 10}.
    m.sweep_and_flush(&mut ring);
    assert_eq!(&m.get_batch_descriptions()[8..16], &[0, 0, 0, 0, 10, 0, 0, 0]);
}

#[test]
fn oversized_batch_is_never_placed() {
    // Scenario: regions hold 100 primitives; a 150-primitive batch can
    // never be placed, on any number of attempts.
    let mut m = PrimativeManager::new(4, 100, 16);
    for _ in 0..3 {
        let mut ring = StencilBuffer::new(4096);
        let payload = pattern(600, 3);
        let off = stage(&mut ring, &payload);
        let (_, placed) = m.insert_batches(
            &ring,
            vec![BatchUpload { byte_offset: off, primative_count: 150, id: 7 }],
        );
        assert_eq!(placed, 0);
        assert!(m.batches[7].is_none());
        m.sweep_and_flush(&mut ring);
    }
    assert_eq!(m.batch_count(), 0);
    // Growing pools cannot help: only the first attempt added one.
    assert_eq!(m.get_pools().len(), 1);
}

#[test]
fn sweep_compacts_a_fragmented_region() {
    // Scenario: fill one region with five batches of twenty primitives,
    // remove three non-adjacent ones, sweep.
    let mut m = PrimativeManager::new(4, 100, 16);
    let mut ring = StencilBuffer::new(4096);
    let mut uploads = Vec::new();
    let mut payloads = Vec::new();
    for i in 0..5u32 {
        let payload = pattern(80, 10 + i as u8);
        let off = stage(&mut ring, &payload);
        payloads.push(payload);
        uploads.push(BatchUpload { byte_offset: off, primative_count: 20, id: i + 1 });
    }
    let (_, placed) = m.insert_batches(&ring, uploads);
    assert_eq!(placed, 5);
    assert_eq!(m.pools[0].reigons[0].top, 100);
    assert_eq!(m.pools[0].reigons[0].usage, 100);
    // End the frame (clears the written-this-frame flags).
    m.sweep_and_flush(&mut ring);
    m.remove_batches(&[1, 3, 5]);
    assert_eq!(m.pools[0].reigons[0].usage, 40);
    assert_eq!(m.pools[0].reigons[0].top, 100);

    let cmds = m.sweep();
    assert!(!cmds.is_empty());
    // The drained region is fully reset...
    assert_eq!(m.pools[0].reigons[0].top, 0);
    assert_eq!(m.pools[0].reigons[0].usage, 0);
    // ... and the survivors moved to a cleaner region with updated records.
    let b2 = m.batches[2].unwrap();
    let b4 = m.batches[4].unwrap();
    assert_eq!(b2.count, 20);
    assert_eq!(b4.count, 20);
    assert_eq!(b2.offset, 100);
    assert_eq!(b4.offset, 120);
    assert_eq!(m.pools[0].reigons[1].usage, 40);
    // The moved batches kept their bytes.
    let buf = m.get_pools()[0].get_primative_buffer();
    assert_eq!(&buf[400..480], &payloads[1][..]);
    assert_eq!(&buf[480..560], &payloads[3][..]);
    assert!(m.batches[1].is_none() && m.batches[3].is_none() && m.batches[5].is_none());
}

#[test]
fn sweep_without_fragmentation_changes_nothing() {
    let mut m = PrimativeManager::new(4, 100, 16);
    let mut ring = StencilBuffer::new(4096);
    let payload = pattern(40, 5);
    let off = stage(&mut ring, &payload);
    m.insert_batches(&ring, vec![BatchUpload { byte_offset: off, primative_count: 10, id: 2 }]);
    m.sweep_and_flush(&mut ring);
    let top_before = m.pools[0].reigons[0].top;
    let usage_before = m.pools[0].reigons[0].usage;
    let record_before = m.batches[2].unwrap();
    let desc_before = m.get_batch_descriptions().clone();

    let cmds = m.sweep();

    assert!(cmds.is_empty());
    assert_eq!(m.pools[0].reigons[0].top, top_before);
    assert_eq!(m.pools[0].reigons[0].usage, usage_before);
    assert_eq!(m.batches[2].unwrap(), record_before);
    assert_eq!(m.get_batch_descriptions(), &desc_before);
}

#[test]
fn sweep_processes_at_most_four_sources() {
    // Five fragmented regions; one bounded pass drains only four of them.
    let mut m = PrimativeManager::new(4, 100, 64);
    for i in 0..5u32 {
        let mut ring = StencilBuffer::new(4096);
        let payload = pattern(240, i as u8);
        let off = stage(&mut ring, &payload);
        // A 60-primitive batch leaves the region at score 0.4, so each
        // insert picks a fresh region.
        let (_, placed) = m.insert_batches(
            &ring,
            vec![BatchUpload { byte_offset: off, primative_count: 60, id: i + 1 }],
        );
        assert_eq!(placed, 1);
        m.sweep_and_flush(&mut ring);
    }
    assert_eq!(m.get_pools().len(), 2);
    m.remove_batches(&[1, 2, 3, 4, 5]);
    let fragmented = |m: &PrimativeManager| {
        let mut n = 0;
        for p in m.get_pools().iter() {
            for r in p.reigons.iter() {
                if r.top > r.usage {
                    n += 1;
                }
            }
        }
        n
    };
    assert_eq!(fragmented(&m), 5);
    m.sweep();
    // Exactly four sources were drained this pass; the fifth waits.
    assert_eq!(fragmented(&m), 1);
}

#[test]
fn descriptors_match_records_after_flush() {
    let mut m = PrimativeManager::new(4, 100, 16);
    let mut ring = StencilBuffer::new(4096);
    let off1 = stage(&mut ring, &pattern(40, 1));
    let off2 = stage(&mut ring, &pattern(48, 2));
    m.insert_batches(
        &ring,
        vec![
            BatchUpload { byte_offset: off1, primative_count: 10, id: 3 },
            BatchUpload { byte_offset: off2, primative_count: 12, id: 5 },
        ],
    );
    m.sweep_and_flush(&mut ring);
    // Live ids: packed {offset, pool << 24 | count}; everything else zero.
    let desc = m.get_batch_descriptions();
    assert_eq!(&desc[24..32], &[0, 0, 0, 0, 10, 0, 0, 0]);
    assert_eq!(&desc[40..48], &[10, 0, 0, 0, 12, 0, 0, 0]);
    for id in 0..16 {
        if id != 3 && id != 5 {
            assert!(desc[id * 8..id * 8 + 8].iter().all(|b| *b == 0));
        }
    }
    // Removing a batch zeroes its entry at the next flush.
    m.remove_batches(&[3]);
    let mut ring2 = StencilBuffer::new(4096);
    m.sweep_and_flush(&mut ring2);
    let desc = m.get_batch_descriptions();
    assert!(desc[24..32].iter().all(|b| *b == 0));
    assert_eq!(&desc[40..48], &[10, 0, 0, 0, 12, 0, 0, 0]);
}

#[test]
fn capacity_invariant_holds_after_heavy_churn() {
    let mut m = PrimativeManager::new(4, 100, 64);
    for round in 0..6u32 {
        let mut ring = StencilBuffer::new(16384);
        let mut uploads = Vec::new();
        for i in 0..8u32 {
            let len = (8 + (i + round) % 5) as usize * 4;
            let off = stage(&mut ring, &pattern(len, (round * 8 + i) as u8));
            uploads.push(BatchUpload {
                byte_offset: off,
                primative_count: (len / 4) as u32,
                id: i + 1,
            });
        }
        m.insert_batches(&ring, uploads);
        m.remove_batches(&[2, 5]);
        m.sweep_and_flush(&mut ring);
        for p in m.get_pools().iter() {
            for r in p.reigons.iter() {
                assert!(r.usage <= r.top);
                assert!(r.top <= r.cap);
            }
        }
    }
}

#[test]
fn empty_upload_list_is_a_no_op() {
    let mut m = PrimativeManager::new(4, 100, 16);
    let ring = StencilBuffer::new(64);
    let (cmds, placed) = m.insert_batches(&ring, Vec::new());
    assert_eq!(placed, 0);
    assert!(cmds.is_empty());
    assert_eq!(m.get_pools().len(), 0);
    assert_eq!(m.batch_count(), 0);
}

#[test]
fn zero_primitive_upload_never_occupies_storage() {
    let mut m = PrimativeManager::new(4, 100, 16);
    let ring = StencilBuffer::new(64);
    let (_, placed) = m.insert_batches(
        &ring,
        vec![BatchUpload { byte_offset: 0, primative_count: 0, id: 4 }],
    );
    // The empty upload is processed but no record is created.
    assert_eq!(placed, 1);
    assert!(m.batches[4].is_none());
    assert_eq!(m.batch_count(), 0);
}

#[test]
fn reinsert_replaces_the_old_placement() {
    let mut m = PrimativeManager::new(4, 100, 16);
    let mut ring = StencilBuffer::new(4096);
    let off = stage(&mut ring, &pattern(40, 1));
    m.insert_batches(&ring, vec![BatchUpload { byte_offset: off, primative_count: 10, id: 1 }]);
    let first = m.batches[1].unwrap();
    let off2 = stage(&mut ring, &pattern(20, 9));
    m.insert_batches(&ring, vec![BatchUpload { byte_offset: off2, primative_count: 5, id: 1 }]);
    let second = m.batches[1].unwrap();
    assert_eq!(first.count, 10);
    assert_eq!(second.count, 5);
    assert_eq!(m.batch_count(), 1);
    // The old span was released (usage back to zero, dead space under the
    // high-water mark); the replacement went to the next clean region.
    assert_eq!(m.pools[0].reigons[0].usage, 0);
    assert_eq!(m.pools[0].reigons[0].top, 10);
    assert_eq!(second.offset, 100);
    assert_eq!(m.pools[0].reigons[1].usage, 5);
}
