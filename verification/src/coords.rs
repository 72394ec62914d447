//! The addressing scheme: every world coordinate resolves to exactly one
//! (chunk identity, local index) pair, and that pair recovers the original
//! coordinate.
//!
//! The chunk identity is the component-wise floor division of the world
//! coordinate by 16 (rounding toward negative infinity, never truncation),
//! and the local index flattens the three in-chunk offsets in x-major,
//! z-minor order into the range [0, 4096).

use vstd::arithmetic::div_mod::{
    lemma_fundamental_div_mod, lemma_fundamental_div_mod_converse_div,
    lemma_fundamental_div_mod_converse_mod,
};
use vstd::prelude::*;

verus! {

/// Chunk-grid coordinate of a world coordinate along one axis: floor
/// division by 16, so -1 falls in chunk -1 (at offset 15), not chunk 0.
pub open spec fn chunk_coord(c: int) -> int {
    c / 16
}

/// Offset of a world coordinate within its chunk along one axis, in [0, 16).
pub open spec fn local_coord(c: int) -> int {
    c % 16
}

/// The chunk identity holding a world coordinate.
pub open spec fn chunk_id_of(p: [i32; 3]) -> (int, int, int) {
    (chunk_coord(p[0] as int), chunk_coord(p[1] as int), chunk_coord(p[2] as int))
}

/// Flattened offset of a world coordinate within its chunk: x-major,
/// z-minor, in [0, 4096).
pub open spec fn local_index_of(p: [i32; 3]) -> int {
    local_coord(p[0] as int) * 256 + local_coord(p[1] as int) * 16 + local_coord(p[2] as int)
}

/// The world coordinate that a (chunk identity, local index) pair addresses.
pub open spec fn world_at(id: (int, int, int), li: int) -> (int, int, int) {
    (id.0 * 16 + li / 256, id.1 * 16 + (li / 16) % 16, id.2 * 16 + li % 16)
}

/// The local index is always a valid cell offset.
pub proof fn lemma_local_index_range(p: [i32; 3])
    ensures
        0 <= local_index_of(p) < 4096,
{
}

/// Round trip: resolving a world coordinate to its (chunk identity, local
/// index) pair and mapping that pair back yields the original coordinate,
/// for every integer coordinate, negative ones included.
pub proof fn lemma_round_trip(p: [i32; 3])
    ensures
        world_at(chunk_id_of(p), local_index_of(p)) == (p[0] as int, p[1] as int, p[2] as int),
{
    let lx = local_coord(p[0] as int);
    let ly = local_coord(p[1] as int);
    let lz = local_coord(p[2] as int);
    let li = local_index_of(p);
    assert(li / 256 == lx) by {
        lemma_fundamental_div_mod_converse_div(li, 256, lx, ly * 16 + lz);
    }
    assert(li / 16 == lx * 16 + ly) by {
        lemma_fundamental_div_mod_converse_div(li, 16, lx * 16 + ly, lz);
    }
    assert((lx * 16 + ly) % 16 == ly) by {
        lemma_fundamental_div_mod_converse_mod(lx * 16 + ly, 16, lx, ly);
    }
    assert(li % 16 == lz) by {
        lemma_fundamental_div_mod_converse_mod(li, 16, lx * 16 + ly, lz);
    }
    lemma_fundamental_div_mod(p[0] as int, 16);
    lemma_fundamental_div_mod(p[1] as int, 16);
    lemma_fundamental_div_mod(p[2] as int, 16);
}

/// Floor division of one coordinate by the chunk edge length.
fn floor_chunk_coord(c: i32) -> (r: i32)
    ensures
        r as int == chunk_coord(c as int),
{
    c.checked_div_euclid(16).unwrap()
}

/// Euclidean remainder of one coordinate by the chunk edge length.
fn floor_local_coord(c: i32) -> (r: i32)
    ensures
        r as int == local_coord(c as int),
        0 <= r < 16,
{
    c.checked_rem_euclid(16).unwrap()
}

/// Resolve a world coordinate to the identity of the chunk holding it and
/// the flattened index of its cell within that chunk.
pub fn global_and_local(pos: [i32; 3]) -> (r: ([i32; 3], usize))
    ensures
        (r.0[0] as int, r.0[1] as int, r.0[2] as int) == chunk_id_of(pos),
        r.1 as int == local_index_of(pos),
        r.1 < 4096,
{
    let cx = floor_chunk_coord(pos[0]);
    let cy = floor_chunk_coord(pos[1]);
    let cz = floor_chunk_coord(pos[2]);
    let lx = floor_local_coord(pos[0]) as usize;
    let ly = floor_local_coord(pos[1]) as usize;
    let lz = floor_local_coord(pos[2]) as usize;
    ([cx, cy, cz], lx * 256 + ly * 16 + lz)
}

/// Map a (chunk identity, local index) pair back to the world coordinate it
/// addresses. Inverse of [`global_and_local`]; the bounds only keep each
/// resulting component representable as an `i32`.
pub fn to_world(chunk: [i32; 3], local: usize) -> (r: [i32; 3])
    requires
        local < 4096,
        forall|a: int| 0 <= a < 3 ==> i32::MIN <= #[trigger] (chunk[a] * 16) && chunk[a] * 16 + 15
            <= i32::MAX,
    ensures
        (r[0] as int, r[1] as int, r[2] as int) == world_at(
            (chunk[0] as int, chunk[1] as int, chunk[2] as int),
            local as int,
        ),
{
    let lx = local / 256;
    let ly = (local / 16) % 16;
    let lz = local % 16;
    let x = ((chunk[0] as i64) * 16 + lx as i64) as i32;
    let y = ((chunk[1] as i64) * 16 + ly as i64) as i32;
    let z = ((chunk[2] as i64) * 16 + lz as i64) as i32;
    [x, y, z]
}

} // verus!
