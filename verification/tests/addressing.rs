//! The coordinate addressing scheme: chunk identity by floor division,
//! local index by Euclidean remainder, and the round trip between them.

use voxel_world::coords::{global_and_local, to_world};

#[test]
fn negative_corner() {
    let (chunk, local) = global_and_local([-1, -1, -1]);
    assert_eq!(chunk, [-1, -1, -1]);
    assert_eq!(local, 15 * 256 + 15 * 16 + 15);
}

#[test]
fn origin_and_positives() {
    assert_eq!(global_and_local([0, 0, 0]), ([0, 0, 0], 0));
    assert_eq!(global_and_local([15, 15, 15]), ([0, 0, 0], 4095));
    assert_eq!(global_and_local([16, 16, 16]), ([1, 1, 1], 0));
    assert_eq!(global_and_local([1, 2, 3]), ([0, 0, 0], 1 * 256 + 2 * 16 + 3));
}

#[test]
fn floor_not_truncation() {
    // -17 lies in chunk -2 at offset 15, never chunk -1 at offset -1
    let (chunk, local) = global_and_local([-17, 0, 0]);
    assert_eq!(chunk, [-2, 0, 0]);
    assert_eq!(local, 15 * 256);
    let (chunk, local) = global_and_local([-16, -32, 31]);
    assert_eq!(chunk, [-1, -2, 1]);
    assert_eq!(local, 15);
}

#[test]
fn round_trip() {
    let coords = [
        [0, 0, 0],
        [-1, -1, -1],
        [15, -15, 16],
        [-16, -17, -4096],
        [123456, -654321, 7],
        [2147483647, -2147483648, 0],
    ];
    for p in coords {
        let (chunk, local) = global_and_local(p);
        assert_eq!(to_world(chunk, local), p);
    }
}

#[test]
fn to_world_unflattens() {
    assert_eq!(to_world([0, 0, 0], 4095), [15, 15, 15]);
    assert_eq!(to_world([-1, -1, -1], 0), [-16, -16, -16]);
    assert_eq!(to_world([1, 0, -2], 2 * 256 + 3 * 16 + 4), [18, 3, -28]);
}
