//! The ownership registry and its mutation protocol.
//!
//! Every chunk identity is either unclaimed (absent from the registry) or
//! owned, with one owning identity and one chunk of voxel data. Claiming
//! creates an empty owned chunk, writing a voxel requires the acting
//! identity to own the chunk, and a transfer hands the chunk, data intact,
//! to a recipient. Every failure leaves the registry exactly as it was,
//! and no operation ever returns a chunk to the unclaimed state.

use crate::chunk::{empty_cells, Chunk};
use crate::coords::{chunk_id_of, global_and_local, local_index_of};
use crate::table::{id_of, lemma_update_value, IdTable};
use vstd::assert_maps_equal;
use vstd::map::*;
use vstd::prelude::*;

verus! {

/// Why a mutation of the registry was refused.
#[derive(Clone, Copy, Debug, PartialEq, Eq)]
pub enum Error {
    /// A write or transfer named a chunk identity with no ownership record.
    ChunkDoesNotExist,
    /// A write or transfer came from an identity that is not the owner.
    NotYours,
    /// A claim named a chunk identity that already has an ownership record.
    AlreadyOwned,
}

/// An identity token: opaque to the registry, which only ever compares
/// tokens for equality.
pub type Identity = u64;

/// One ownership record: the owning identity and the chunk's voxel data.
pub struct OwnershipRecord {
    /// The identity that claimed the chunk or last received it.
    pub owner: Identity,
    /// The chunk's 4096 voxel codes.
    pub data: Chunk,
}

/// The abstract shape of a record: the owner and the voxel code sequence.
pub open spec fn record_entry(r: OwnershipRecord) -> (Identity, Seq<u16>) {
    (r.owner, r.data@)
}

/// The abstract registry that a map of records represents.
pub open spec fn records_view(m: Map<(int, int, int), OwnershipRecord>) -> Map<
    (int, int, int),
    (Identity, Seq<u16>),
> {
    Map::new(|k: (int, int, int)| m.dom().contains(k), |k: (int, int, int)| record_entry(m[k]))
}

/// Every record of the map holds a well-formed chunk.
pub open spec fn records_wf(m: Map<(int, int, int), OwnershipRecord>) -> bool {
    forall|k: (int, int, int)| #[trigger] m.dom().contains(k) ==> m[k].data.wf()
}

proof fn lemma_records_view_insert(
    m: Map<(int, int, int), OwnershipRecord>,
    k: (int, int, int),
    r: OwnershipRecord,
)
    ensures
        records_view(m.insert(k, r)) == records_view(m).insert(k, record_entry(r)),
{
    assert_maps_equal!(
        records_view(m.insert(k, r)),
        records_view(m).insert(k, record_entry(r)),
        kk => {}
    );
}

/// The ownership registry: a sparse mapping from chunk identities to
/// ownership records. Its model is a finite map from identity triples to
/// (owner, voxel codes) pairs.
pub struct World {
    /// The ownership records, one per claimed chunk identity.
    pub table: IdTable<OwnershipRecord>,
}

impl View for World {
    type V = Map<(int, int, int), (Identity, Seq<u16>)>;

    open spec fn view(&self) -> Map<(int, int, int), (Identity, Seq<u16>)> {
        records_view(self.table@)
    }
}

impl World {
    /// The registry's invariant: entries sorted by identity, each chunk
    /// holding exactly 4096 cells.
    pub open spec fn wf(self) -> bool {
        self.table.wf() && records_wf(self.table@)
    }

    /// A registry with no claimed chunk.
    pub fn new() -> (w: World)
        ensures
            w.wf(),
            w@ == Map::<(int, int, int), (Identity, Seq<u16>)>::empty(),
    {
        let w = World { table: IdTable::new() };
        proof {
            assert_maps_equal!(w@, Map::<(int, int, int), (Identity, Seq<u16>)>::empty());
        }
        w
    }

    /// Claim the chunk holding `location` for `who`. Fails with
    /// `AlreadyOwned`, and changes nothing, exactly when that chunk already
    /// has an owner (`who` included); otherwise the chunk now exists, owned
    /// by `who`, with every voxel at the default empty code.
    pub fn claim_chunk(&mut self, location: [i32; 3], who: Identity) -> (r: Result<(), Error>)
        requires
            old(self).wf(),
        ensures
            final(self).wf(),
            old(self)@.dom().contains(chunk_id_of(location)) ==> r == Err::<(), Error>(
                Error::AlreadyOwned,
            ) && final(self)@ == old(self)@,
            !old(self)@.dom().contains(chunk_id_of(location)) ==> r == Ok::<(), Error>(())
                && final(self)@ == old(self)@.insert(chunk_id_of(location), (who, empty_cells())),
    {
        let (cid, _local) = global_and_local(location);
        match self.table.find(&cid) {
            Some(_) => Err(Error::AlreadyOwned),
            None => {
                let rec = OwnershipRecord { owner: who, data: Chunk::new() };
                proof {
                    lemma_records_view_insert(self.table@, id_of(cid), rec);
                }
                self.table.insert_absent(cid, rec);
                Ok(())
            },
        }
    }

    /// Write voxel code `block` at world coordinate `location`, as `who`.
    /// Fails with `ChunkDoesNotExist` exactly when the chunk holding
    /// `location` is unclaimed, and with `NotYours` exactly when it is
    /// owned by someone else; a failure changes nothing. On success only
    /// the one addressed cell changes, and the owner stays `who`.
    pub fn write_block(&mut self, location: [i32; 3], block: u16, who: Identity) -> (r: Result<
        (),
        Error,
    >)
        requires
            old(self).wf(),
        ensures
            final(self).wf(),
            !old(self)@.dom().contains(chunk_id_of(location)) ==> r == Err::<(), Error>(
                Error::ChunkDoesNotExist,
            ) && final(self)@ == old(self)@,
            old(self)@.dom().contains(chunk_id_of(location)) && old(self)@[chunk_id_of(location)].0
                != who ==> r == Err::<(), Error>(Error::NotYours) && final(self)@ == old(self)@,
            old(self)@.dom().contains(chunk_id_of(location)) && old(self)@[chunk_id_of(location)].0
                == who ==> r == Ok::<(), Error>(()) && final(self)@ == old(self)@.insert(
                chunk_id_of(location),
                (who, old(self)@[chunk_id_of(location)].1.update(local_index_of(location), block)),
            ),
    {
        let (cid, local) = global_and_local(location);
        match self.table.find(&cid) {
            None => Err(Error::ChunkDoesNotExist),
            Some(i) => {
                if self.table.entries[i].1.owner != who {
                    Err(Error::NotYours)
                } else {
                    let ghost entries0 = self.table.entries@;
                    let rec = self.table.value_mut(i);
                    rec.data.set(local, block);
                    proof {
                        lemma_update_value(entries0, i as int, self.table.entries@[i as int].1);
                        lemma_records_view_insert(
                            old(self).table@,
                            chunk_id_of(location),
                            self.table.entries@[i as int].1,
                        );
                    }
                    Ok(())
                }
            },
        }
    }

    /// Transfer the chunk holding `location` from `who` to `recipient`.
    /// Fails with `ChunkDoesNotExist` exactly when the chunk is unclaimed,
    /// and with `NotYours` exactly when `who` is not its owner; a failure
    /// changes nothing. On success the recipient owns the chunk and its
    /// voxel contents are exactly what they were; a transfer from an owner
    /// to itself leaves the registry unchanged.
    pub fn give_chunk(&mut self, location: [i32; 3], who: Identity, recipient: Identity) -> (r:
        Result<(), Error>)
        requires
            old(self).wf(),
        ensures
            final(self).wf(),
            !old(self)@.dom().contains(chunk_id_of(location)) ==> r == Err::<(), Error>(
                Error::ChunkDoesNotExist,
            ) && final(self)@ == old(self)@,
            old(self)@.dom().contains(chunk_id_of(location)) && old(self)@[chunk_id_of(location)].0
                != who ==> r == Err::<(), Error>(Error::NotYours) && final(self)@ == old(self)@,
            old(self)@.dom().contains(chunk_id_of(location)) && old(self)@[chunk_id_of(location)].0
                == who ==> r == Ok::<(), Error>(()) && final(self)@ == old(self)@.insert(
                chunk_id_of(location),
                (recipient, old(self)@[chunk_id_of(location)].1),
            ),
            old(self)@.dom().contains(chunk_id_of(location)) && old(self)@[chunk_id_of(location)].0
                == who && recipient == who ==> final(self)@ == old(self)@,
    {
        let (cid, _local) = global_and_local(location);
        match self.table.find(&cid) {
            None => Err(Error::ChunkDoesNotExist),
            Some(i) => {
                if self.table.entries[i].1.owner != who {
                    Err(Error::NotYours)
                } else {
                    let ghost entries0 = self.table.entries@;
                    let rec = self.table.value_mut(i);
                    rec.owner = recipient;
                    proof {
                        lemma_update_value(entries0, i as int, self.table.entries@[i as int].1);
                        lemma_records_view_insert(
                            old(self).table@,
                            chunk_id_of(location),
                            self.table.entries@[i as int].1,
                        );
                        if recipient == who {
                            assert_maps_equal!(self@, old(self)@, kk => {});
                        }
                    }
                    Ok(())
                }
            },
        }
    }

    /// The ownership record of a chunk identity, if that chunk is claimed.
    /// The identity here is a chunk-grid coordinate, not a world coordinate.
    pub fn chunk(&self, chunk_id: [i32; 3]) -> (r: Option<&OwnershipRecord>)
        requires
            self.wf(),
        ensures
            match r {
                Some(rec) => self@.dom().contains(id_of(chunk_id)) && rec.data.wf() && self@[id_of(
                    chunk_id,
                )] == record_entry(*rec),
                None => !self@.dom().contains(id_of(chunk_id)),
            },
    {
        match self.table.find(&chunk_id) {
            Some(i) => Some(&self.table.entries[i].1),
            None => None,
        }
    }
}

} // verus!
