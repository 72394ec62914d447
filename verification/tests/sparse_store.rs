//! The ungated sparse store: lazy chunk creation, voxel reads and writes,
//! batch population, and deterministic iteration order.

use voxel_world::store::{tmp_populate_chunks, ChunkStore};

#[test]
fn absent_chunks_read_empty() {
    let store = ChunkStore::new();
    assert_eq!(store.len(), 0);
    assert_eq!(store.voxel([0, 0, 0]), 0);
    assert_eq!(store.voxel([-1000, 42, 7]), 0);
}

#[test]
fn set_then_read_back() {
    let mut store = ChunkStore::new();
    store.set_voxel([1, 2, 3], 77);
    store.set_voxel([-1, -1, -1], 88);
    assert_eq!(store.voxel([1, 2, 3]), 77);
    assert_eq!(store.voxel([-1, -1, -1]), 88);
    // the rest of both chunks was created empty
    assert_eq!(store.voxel([1, 2, 4]), 0);
    assert_eq!(store.voxel([-2, -1, -1]), 0);
    assert_eq!(store.len(), 2);
}

#[test]
fn last_write_wins() {
    let mut store = ChunkStore::new();
    store.set_voxel([4, 4, 4], 1);
    store.set_voxel([4, 4, 4], 2);
    assert_eq!(store.voxel([4, 4, 4]), 2);
    assert_eq!(store.len(), 1);
}

#[test]
fn populate_applies_batch_in_order() {
    let mut store = ChunkStore::new();
    let blocks = vec![
        ([0, 0, 0], 5),
        ([-20, 3, 900], 6),
        ([16, 0, 0], 7),
        ([0, 0, 0], 8), // overwrites the first write
    ];
    tmp_populate_chunks(&mut store, &blocks);
    assert_eq!(store.voxel([0, 0, 0]), 8);
    assert_eq!(store.voxel([-20, 3, 900]), 6);
    assert_eq!(store.voxel([16, 0, 0]), 7);
    assert_eq!(store.len(), 3);
}

#[test]
fn iteration_is_lexicographic() {
    let mut store = ChunkStore::new();
    store.set_voxel([100, 0, 0], 1); // chunk (6, 0, 0)
    store.set_voxel([-100, 0, 0], 2); // chunk (-7, 0, 0)
    store.set_voxel([0, 50, -50], 3); // chunk (0, 3, -4)
    store.set_voxel([0, -50, 50], 4); // chunk (0, -4, 3)
    let mut ids = Vec::new();
    for i in 0..store.len() {
        ids.push(store.id_at(i));
    }
    assert_eq!(ids, vec![[-7, 0, 0], [0, -4, 3], [0, 3, -4], [6, 0, 0]]);
}

#[test]
fn chunk_at_exposes_cells() {
    let mut store = ChunkStore::new();
    store.set_voxel([17, 1, 2], 9); // chunk (1, 0, 0), local (1, 1, 2)
    let chunk = store.chunk_at(0);
    assert_eq!(chunk.get(1 * 256 + 1 * 16 + 2), 9);
    assert_eq!(chunk.get(0), 0);
}
