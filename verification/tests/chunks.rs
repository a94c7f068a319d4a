use geometry_pool::chunk_mesh_manager::ChunkMeshManager;
use geometry_pool::ids::IDManager;
use geometry_pool::manager::PrimativeManager;
use geometry_pool::meshes::{ChunkMesh, Quad};
use geometry_pool::staging::StencilBuffer;
use geometry_pool::tiles::Tile;

fn mesh(pos: [i32; 3], quads: usize) -> ChunkMesh {
    ChunkMesh { pos, quads: (0..quads).map(|i| Quad { data: [i as u32, 77] }).collect() }
}

/// A small manager so staging exhaustion is easy to reach in a test.
fn small_manager(ring_bytes: u32) -> ChunkMeshManager {
    ChunkMeshManager {
        chunk_ids: Vec::new(),
        id_man: IDManager::new(),
        id_cap: 100,
        chunk_buffer: vec![0u8; 1600],
        opaque_meshes: PrimativeManager::new(8, 100, 100),
        stencil_buffers: vec![StencilBuffer::new(ring_bytes)],
        queued_meshes: Vec::new(),
        updated_chunks: Vec::new(),
    }
}

#[test]
fn first_chunk_gets_id_zero_and_a_metadata_entry() {
    let mut mgr = ChunkMeshManager::new();
    mgr.submit_meshes(vec![mesh([1, 2, 3], 10)]);
    let cmds = mgr.flush_stencil(0);
    assert!(!cmds.is_empty());
    assert_eq!(mgr.get_max_chunk_id(), 1);
    assert_eq!(mgr.total_batch_count(), 1);
    let b = mgr.get_opaque_meshes().batches[0].unwrap();
    assert_eq!(b.count, 10);
    assert_eq!(b.offset, 0);
    assert_eq!(b.pool_id, 0);
    // Chunk metadata for id 0: position (1, 2, 3) and the inserted flag.
    let meta = mgr.get_chunk_buffer();
    assert_eq!(&meta[0..4], &[1, 0, 0, 0]);
    assert_eq!(&meta[4..8], &[2, 0, 0, 0]);
    assert_eq!(&meta[8..12], &[3, 0, 0, 0]);
    assert_eq!(&meta[12..16], &[1, 0, 0, 0]);
}

#[test]
fn remeshing_a_chunk_reuses_its_id() {
    let mut mgr = ChunkMeshManager::new();
    mgr.submit_meshes(vec![mesh([0, 0, 0], 4)]);
    mgr.flush_stencil(0);
    mgr.submit_meshes(vec![mesh([0, 0, 0], 6)]);
    mgr.flush_stencil(1);
    assert_eq!(mgr.get_max_chunk_id(), 1);
    assert_eq!(mgr.total_batch_count(), 1);
    assert_eq!(mgr.get_opaque_meshes().batches[0].unwrap().count, 6);
}

#[test]
fn distinct_chunks_get_distinct_ids() {
    let mut mgr = ChunkMeshManager::new();
    mgr.submit_meshes(vec![mesh([0, 0, 0], 2), mesh([1, 0, 0], 3), mesh([0, -1, 7], 4)]);
    mgr.flush_stencil(0);
    assert_eq!(mgr.get_max_chunk_id(), 3);
    assert_eq!(mgr.total_batch_count(), 3);
}

#[test]
fn empty_meshes_are_skipped_entirely() {
    let mut mgr = ChunkMeshManager::new();
    mgr.submit_meshes(vec![mesh([5, 5, 5], 0)]);
    mgr.flush_stencil(0);
    assert_eq!(mgr.get_max_chunk_id(), 0);
    assert_eq!(mgr.total_batch_count(), 0);
}

#[test]
fn a_mesh_that_overflows_the_ring_is_requeued() {
    // Ring of 1000 bytes; a 150-quad mesh stages 1200 bytes: "no room",
    // the ring's top stays where it was, the mesh waits for next frame.
    let mut mgr = small_manager(1000);
    mgr.submit_meshes(vec![mesh([9, 9, 9], 150)]);
    let before = mgr.queued_meshes.len();
    mgr.flush_stencil(0);
    assert_eq!(mgr.queued_meshes.len(), before);
    assert_eq!(mgr.queued_meshes[0].pos, [9, 9, 9]);
    assert_eq!(mgr.total_batch_count(), 0);
    // No geometry bytes were staged; only the sixteen metadata bytes of the
    // identifier that was reserved for the chunk.
    assert_eq!(mgr.stencil_buffers[0].top, 16);
}

#[test]
fn later_frame_stages_the_requeued_mesh() {
    let mut mgr = small_manager(4096);
    mgr.submit_meshes(vec![mesh([9, 9, 9], 150)]);
    mgr.flush_stencil(0);
    // 1200 bytes fit a 4096-byte ring, but a 150-primitive batch exceeds
    // every 100-primitive region: it is staged yet never placed, the
    // documented all-or-nothing limitation.
    assert_eq!(mgr.total_batch_count(), 0);
    assert!(mgr.queued_meshes.is_empty());
}

#[test]
fn processing_cap_limits_one_flush_to_a_hundred_meshes() {
    let mut mgr = ChunkMeshManager::new();
    let meshes: Vec<ChunkMesh> = (0..120).map(|i| mesh([i, 0, 0], 1)).collect();
    mgr.submit_meshes(meshes);
    mgr.flush_stencil(0);
    assert_eq!(mgr.queued_meshes.len(), 20);
    assert_eq!(mgr.total_batch_count(), 100);
    mgr.flush_stencil(1);
    assert_eq!(mgr.queued_meshes.len(), 0);
    assert_eq!(mgr.total_batch_count(), 120);
}

#[test]
fn empty_remesh_releases_the_batch_and_identifier() {
    let mut mgr = ChunkMeshManager::new();
    mgr.submit_meshes(vec![mesh([4, 4, 4], 6)]);
    mgr.flush_stencil(0);
    assert_eq!(mgr.total_batch_count(), 1);
    assert_eq!(&mgr.get_chunk_buffer()[12..16], &[1, 0, 0, 0]);

    // The chunk is re-meshed empty: the batch and its identifier are
    // released, the descriptor is zeroed, the metadata flags say removed.
    mgr.submit_meshes(vec![mesh([4, 4, 4], 0)]);
    mgr.flush_stencil(1);
    assert_eq!(mgr.total_batch_count(), 0);
    let desc = mgr.get_opaque_meshes().get_batch_descriptions();
    assert!(desc[0..8].iter().all(|b| *b == 0));
    assert_eq!(&mgr.get_chunk_buffer()[12..16], &[0, 0, 0, 0]);

    // The freed identifier is reused for the next new chunk.
    mgr.submit_meshes(vec![mesh([5, 5, 5], 3)]);
    mgr.flush_stencil(0);
    assert_eq!(mgr.get_max_chunk_id(), 1);
    assert_eq!(mgr.total_batch_count(), 1);
    assert_eq!(&mgr.get_chunk_buffer()[12..16], &[1, 0, 0, 0]);
}

#[test]
fn newest_mesh_for_a_chunk_wins_within_a_frame() {
    let mut mgr = ChunkMeshManager::new();
    // Submitted in order: the 8-quad mesh is newer than the 4-quad one.
    mgr.submit_meshes(vec![mesh([2, 2, 2], 4), mesh([2, 2, 2], 8)]);
    mgr.flush_stencil(0);
    assert_eq!(mgr.total_batch_count(), 1);
    assert_eq!(mgr.get_opaque_meshes().batches[0].unwrap().count, 8);
}

#[test]
fn exhausted_id_space_defers_new_chunks() {
    let mut mgr = ChunkMeshManager {
        chunk_ids: Vec::new(),
        id_man: IDManager::new(),
        id_cap: 1,
        chunk_buffer: vec![0u8; 16],
        opaque_meshes: PrimativeManager::new(8, 100, 1),
        stencil_buffers: vec![StencilBuffer::new(4096)],
        queued_meshes: Vec::new(),
        updated_chunks: Vec::new(),
    };
    mgr.submit_meshes(vec![mesh([0, 0, 0], 2), mesh([1, 1, 1], 2)]);
    mgr.flush_stencil(0);
    // Only one identifier exists: one chunk was placed, the other waits.
    assert_eq!(mgr.total_batch_count(), 1);
    assert_eq!(mgr.queued_meshes.len(), 1);
    assert_eq!(mgr.get_max_chunk_id(), 1);
}

#[test]
fn tiles_know_their_transparency() {
    assert!(Tile(0).transparent()); // air
    assert!(!Tile(1).transparent()); // stone
    assert!(!Tile(2).transparent()); // dirt
    assert!(!Tile(3).transparent()); // grass
    assert!(!Tile(4).transparent()); // sand
    assert!(Tile(5).transparent()); // glass
    assert!(!Tile(6).transparent()); // wood
    assert!(Tile(7).transparent()); // leaf
    assert!(!Tile(8).transparent()); // snow
}

#[test]
fn tile_properties_name_the_materials() {
    assert_eq!(Tile(0).properties().name, "air");
    assert_eq!(Tile(1).properties().name, "stone");
    assert_eq!(Tile(8).properties().name, "snow");
    assert!(Tile(5).properties().is_transparent);
}
