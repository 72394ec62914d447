//! The ownership registry's mutation protocol: claim, write, transfer,
//! and each way they can fail.

use voxel_world::world::{Error, World};

#[test]
fn fill_chunk() {
    let mut world = World::new();
    world.claim_chunk([0, 0, 0], 1).unwrap();
    for x in 0..16 {
        for y in 0..16 {
            for z in 0..16 {
                world.write_block([x, y, z], 1, 1).unwrap();
            }
        }
    }
    let rec = world.chunk([0, 0, 0]).unwrap();
    assert_eq!(rec.owner, 1);
    for i in 0..4096 {
        assert_eq!(rec.data.get(i), 1);
    }
}

#[test]
fn unauthorized() {
    let mut world = World::new();
    assert_eq!(
        world.write_block([0, 0, 0], 1, 1),
        Err(Error::ChunkDoesNotExist)
    );
}

#[test]
fn notyours() {
    let mut world = World::new();
    world.claim_chunk([0, 0, 0], 1).unwrap();
    assert_eq!(world.write_block([0, 0, 0], 1, 2), Err(Error::NotYours));
}

#[test]
fn failed_write_changes_nothing() {
    let mut world = World::new();
    world.claim_chunk([0, 0, 0], 1).unwrap();
    world.write_block([3, 4, 5], 7, 1).unwrap();
    assert_eq!(world.write_block([0, 0, 0], 9, 2), Err(Error::NotYours));
    let rec = world.chunk([0, 0, 0]).unwrap();
    assert_eq!(rec.owner, 1);
    assert_eq!(rec.data.get(3 * 256 + 4 * 16 + 5), 7);
    for i in 0..4096 {
        if i != 3 * 256 + 4 * 16 + 5 {
            assert_eq!(rec.data.get(i), 0);
        }
    }
}

#[test]
fn double_claim() {
    let mut world = World::new();
    assert_eq!(world.claim_chunk([17, -3, 40], 1), Ok(()));
    world.write_block([17, -3, 40], 5, 1).unwrap();
    assert_eq!(world.claim_chunk([17, -3, 40], 2), Err(Error::AlreadyOwned));
    assert_eq!(world.claim_chunk([17, -3, 40], 1), Err(Error::AlreadyOwned));
    let rec = world.chunk([1, -1, 2]).unwrap();
    assert_eq!(rec.owner, 1);
    assert_eq!(rec.data.get(1 * 256 + 13 * 16 + 8), 5);
}

#[test]
fn claim_starts_empty() {
    let mut world = World::new();
    world.claim_chunk([-1, -1, -1], 6).unwrap();
    let rec = world.chunk([-1, -1, -1]).unwrap();
    assert_eq!(rec.owner, 6);
    for i in 0..4096 {
        assert_eq!(rec.data.get(i), 0);
    }
}

#[test]
fn transfer_preserves_data() {
    let mut world = World::new();
    world.claim_chunk([32, 0, 0], 1).unwrap();
    world.write_block([33, 1, 2], 11, 1).unwrap();
    world.write_block([47, 15, 15], 12, 1).unwrap();
    assert_eq!(world.give_chunk([32, 0, 0], 1, 2), Ok(()));
    let rec = world.chunk([2, 0, 0]).unwrap();
    assert_eq!(rec.owner, 2);
    assert_eq!(rec.data.get(1 * 256 + 1 * 16 + 2), 11);
    assert_eq!(rec.data.get(15 * 256 + 15 * 16 + 15), 12);
    // the old owner may no longer write, the new one may
    assert_eq!(world.write_block([33, 1, 2], 0, 1), Err(Error::NotYours));
    assert_eq!(world.write_block([33, 1, 2], 0, 2), Ok(()));
}

#[test]
fn transfer_errors() {
    let mut world = World::new();
    assert_eq!(world.give_chunk([0, 0, 0], 1, 2), Err(Error::ChunkDoesNotExist));
    world.claim_chunk([0, 0, 0], 1).unwrap();
    assert_eq!(world.give_chunk([0, 0, 0], 2, 3), Err(Error::NotYours));
    let rec = world.chunk([0, 0, 0]).unwrap();
    assert_eq!(rec.owner, 1);
}

#[test]
fn self_transfer_is_noop() {
    let mut world = World::new();
    world.claim_chunk([5, 5, 5], 9).unwrap();
    world.write_block([5, 5, 5], 3, 9).unwrap();
    assert_eq!(world.give_chunk([5, 5, 5], 9, 9), Ok(()));
    let rec = world.chunk([0, 0, 0]).unwrap();
    assert_eq!(rec.owner, 9);
    assert_eq!(rec.data.get(5 * 256 + 5 * 16 + 5), 3);
    for i in 0..4096 {
        if i != 5 * 256 + 5 * 16 + 5 {
            assert_eq!(rec.data.get(i), 0);
        }
    }
}
