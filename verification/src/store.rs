//! The sparse, ungated chunk store, used where chunks are materialized
//! lazily on demand (the rendering and world-population side).
//!
//! A chunk is created, filled with the default empty code, the first time
//! its identity is referenced, persists for the lifetime of the store, and
//! is read and written without any authorization check. Stored chunk
//! identities are kept in lexicographic order, so iteration by index is
//! deterministic.

use crate::chunk::{empty_cells, Chunk};
use crate::coords::{chunk_id_of, global_and_local, local_index_of};
use crate::table::{id_map, id_of, lemma_entry_at, lemma_update_value, IdTable};
use vstd::assert_maps_equal;
use vstd::map::*;
use vstd::prelude::*;

verus! {

/// The abstract store that a map of chunks represents: each stored chunk
/// as its voxel code sequence.
pub open spec fn chunks_view(m: Map<(int, int, int), Chunk>) -> Map<(int, int, int), Seq<u16>> {
    Map::new(|k: (int, int, int)| m.dom().contains(k), |k: (int, int, int)| m[k]@)
}

/// Every stored chunk is well-formed.
pub open spec fn chunks_wf(m: Map<(int, int, int), Chunk>) -> bool {
    forall|k: (int, int, int)| #[trigger] m.dom().contains(k) ==> m[k].wf()
}

/// The cells of the chunk at identity `k`, reading an absent chunk as all
/// empty: the store behaves as an infinite world of empty space.
pub open spec fn stored_cells(m: Map<(int, int, int), Seq<u16>>, k: (int, int, int)) -> Seq<u16> {
    if m.dom().contains(k) {
        m[k]
    } else {
        empty_cells()
    }
}

/// The store after one voxel write: the chunk holding the world coordinate
/// (created empty if absent) with the one addressed cell replaced.
pub open spec fn place_block(
    m: Map<(int, int, int), Seq<u16>>,
    w: ([i32; 3], u16),
) -> Map<(int, int, int), Seq<u16>> {
    m.insert(
        chunk_id_of(w.0),
        stored_cells(m, chunk_id_of(w.0)).update(local_index_of(w.0), w.1),
    )
}

/// The store after a sequence of voxel writes, applied in order.
pub open spec fn place_blocks(
    m: Map<(int, int, int), Seq<u16>>,
    s: Seq<([i32; 3], u16)>,
) -> Map<(int, int, int), Seq<u16>>
    decreases s.len(),
{
    if s.len() == 0 {
        m
    } else {
        place_block(place_blocks(m, s.drop_last()), s.last())
    }
}

proof fn lemma_chunks_view_insert(m: Map<(int, int, int), Chunk>, k: (int, int, int), c: Chunk)
    ensures
        chunks_view(m.insert(k, c)) == chunks_view(m).insert(k, c@),
{
    assert_maps_equal!(chunks_view(m.insert(k, c)), chunks_view(m).insert(k, c@), kk => {});
}

/// The sparse store: a mapping from chunk identities to chunks, with no
/// ownership semantics. Its model is a finite map from identity triples to
/// voxel code sequences.
pub struct ChunkStore {
    /// The stored chunks, sorted by identity.
    pub table: IdTable<Chunk>,
}

impl View for ChunkStore {
    type V = Map<(int, int, int), Seq<u16>>;

    open spec fn view(&self) -> Map<(int, int, int), Seq<u16>> {
        chunks_view(self.table@)
    }
}

impl ChunkStore {
    /// The store's invariant: entries sorted by identity, each chunk
    /// holding exactly 4096 cells.
    pub open spec fn wf(self) -> bool {
        self.table.wf() && chunks_wf(self.table@)
    }

    /// A store with no chunk.
    pub fn new() -> (s: ChunkStore)
        ensures
            s.wf(),
            s@ == Map::<(int, int, int), Seq<u16>>::empty(),
            s.table.entries@.len() == 0,
    {
        let s = ChunkStore { table: IdTable::new() };
        proof {
            assert_maps_equal!(s@, Map::<(int, int, int), Seq<u16>>::empty());
        }
        s
    }

    /// The entry index of the chunk with this identity, creating it with
    /// all cells empty if it was absent. The store changes only if the
    /// chunk was absent, and then only by gaining that empty chunk.
    pub fn get_or_create(&mut self, chunk_id: [i32; 3]) -> (i: usize)
        requires
            old(self).wf(),
        ensures
            final(self).wf(),
            i < final(self).table.entries@.len(),
            id_of(final(self).table.entries@[i as int].0) == id_of(chunk_id),
            final(self)@ == if old(self)@.dom().contains(id_of(chunk_id)) {
                old(self)@
            } else {
                old(self)@.insert(id_of(chunk_id), empty_cells())
            },
    {
        match self.table.find(&chunk_id) {
            Some(i) => i,
            None => {
                let c = Chunk::new();
                proof {
                    lemma_chunks_view_insert(self.table@, id_of(chunk_id), c);
                }
                self.table.insert_absent(chunk_id, c);
                let r = self.table.find(&chunk_id);
                r.unwrap()
            },
        }
    }

    /// Write voxel code `code` at world coordinate `world`, creating the
    /// chunk holding it (all empty) first if it was absent.
    pub fn set_voxel(&mut self, world: [i32; 3], code: u16)
        requires
            old(self).wf(),
        ensures
            final(self).wf(),
            final(self)@ == place_block(old(self)@, (world, code)),
    {
        let (cid, local) = global_and_local(world);
        let i = self.get_or_create(cid);
        let ghost entries1 = self.table.entries@;
        proof {
            lemma_entry_at(entries1, i as int);
        }
        let c = self.table.value_mut(i);
        c.set(local, code);
        proof {
            let k = chunk_id_of(world);
            let li = local_index_of(world);
            let mid = chunks_view(id_map(entries1));
            let v = self.table.entries@[i as int].1;
            assert(id_of(entries1[i as int].0) == k);
            lemma_update_value(entries1, i as int, v);
            lemma_chunks_view_insert(id_map(entries1), k, v);
            assert(mid[k] == entries1[i as int].1@);
            assert(v@ == mid[k].update(li, code));
            assert(self@ == mid.insert(k, v@));
            if old(self)@.dom().contains(k) {
                assert(mid == old(self)@);
                assert(stored_cells(old(self)@, k) == mid[k]);
                assert(self@ == place_block(old(self)@, (world, code)));
            } else {
                assert(mid == old(self)@.insert(k, empty_cells()));
                assert(mid[k] == empty_cells());
                assert_maps_equal!(self@, place_block(old(self)@, (world, code)), kk => {});
            }
        }
    }

    /// The voxel code at a world coordinate; a coordinate in an absent
    /// chunk reads as the default empty code.
    pub fn voxel(&self, world: [i32; 3]) -> (r: u16)
        requires
            self.wf(),
        ensures
            r == stored_cells(self@, chunk_id_of(world))[local_index_of(world)],
    {
        let (cid, local) = global_and_local(world);
        match self.table.find(&cid) {
            Some(i) => self.table.entries[i].1.get(local),
            None => 0,
        }
    }

    /// How many chunks the store holds.
    pub fn len(&self) -> (n: usize)
        ensures
            n == self.table.entries@.len(),
    {
        self.table.len()
    }

    /// The identity of the `i`-th stored chunk; identities are enumerated
    /// in lexicographic order.
    pub fn id_at(&self, i: usize) -> (r: [i32; 3])
        requires
            self.wf(),
            i < self.table.entries@.len(),
        ensures
            r == self.table.entries@[i as int].0,
            self@.dom().contains(id_of(r)),
    {
        proof {
            lemma_entry_at(self.table.entries@, i as int);
        }
        self.table.entries[i].0
    }

    /// The `i`-th stored chunk, in the same order as [`Self::id_at`].
    pub fn chunk_at(&self, i: usize) -> (r: &Chunk)
        requires
            self.wf(),
            i < self.table.entries@.len(),
        ensures
            r.wf(),
            self@.dom().contains(id_of(self.table.entries@[i as int].0)),
            r@ == self@[id_of(self.table.entries@[i as int].0)],
    {
        proof {
            lemma_entry_at(self.table.entries@, i as int);
        }
        &self.table.entries[i].1
    }
}

/// Apply a batch of voxel writes to a store, in order. The positions come
/// from whatever populates the world; the store ends up exactly as if each
/// write had been made by hand.
pub fn tmp_populate_chunks(worl: &mut ChunkStore, blocks: &Vec<([i32; 3], u16)>)
    requires
        old(worl).wf(),
    ensures
        final(worl).wf(),
        final(worl)@ == place_blocks(old(worl)@, blocks@),
{
    let mut idx: usize = 0;
    while idx < blocks.len()
        invariant
            worl.wf(),
            idx <= blocks@.len(),
            worl@ == place_blocks(old(worl)@, blocks@.take(idx as int)),
        decreases blocks@.len() - idx,
    {
        let (pos, code) = blocks[idx];
        worl.set_voxel(pos, code);
        proof {
            assert(blocks@.take(idx as int + 1).drop_last() =~= blocks@.take(idx as int));
            assert(blocks@.take(idx as int + 1).last() == blocks@[idx as int]);
        }
        idx += 1;
    }
    proof {
        assert(blocks@.take(blocks@.len() as int) =~= blocks@);
    }
}

} // verus!
