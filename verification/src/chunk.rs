//! A chunk: a dense, fixed-size container of 4096 voxel type codes for one
//! chunk identity, flattened in x-major, z-minor order.

use vstd::prelude::*;

verus! {

/// The contents of a freshly created chunk: every cell holds the default
/// empty code 0.
pub open spec fn empty_cells() -> Seq<u16> {
    Seq::new(4096nat, |i: int| 0u16)
}

/// Exactly 4096 voxel type codes; code 0 denotes empty space.
pub struct Chunk {
    pub cells: Vec<u16>,
}

impl View for Chunk {
    type V = Seq<u16>;

    open spec fn view(&self) -> Seq<u16> {
        self.cells@
    }
}

impl Default for Chunk {
    /// A default chunk is empty space.
    fn default() -> (c: Chunk)
        ensures
            c.wf(),
            c@ == empty_cells(),
    {
        Chunk::new()
    }
}

impl Chunk {
    /// A chunk is exactly one cell per coordinate of a 16 x 16 x 16 cube.
    pub open spec fn wf(self) -> bool {
        self@.len() == 4096
    }

    /// A new chunk with every cell at the default empty code.
    pub fn new() -> (c: Chunk)
        ensures
            c.wf(),
            c@ == empty_cells(),
    {
        let mut cells: Vec<u16> = Vec::new();
        while cells.len() < 4096
            invariant
                cells@.len() <= 4096,
                forall|i: int| 0 <= i < cells@.len() ==> cells@[i] == 0u16,
            decreases 4096 - cells@.len(),
        {
            cells.push(0u16);
        }
        let c = Chunk { cells };
        proof {
            assert(c@ =~= empty_cells());
        }
        c
    }

    /// The voxel code at a local index.
    pub fn get(&self, local: usize) -> (r: u16)
        requires
            self.wf(),
            local < 4096,
        ensures
            r == self@[local as int],
    {
        self.cells[local]
    }

    /// Replace the voxel code at a local index.
    pub fn set(&mut self, local: usize, code: u16)
        requires
            old(self).wf(),
            local < 4096,
        ensures
            final(self).wf(),
            final(self)@ == old(self)@.update(local as int, code),
    {
        self.cells[local] = code;
    }
}

} // verus!
