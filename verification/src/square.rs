//! Cells of the 8x8 grid that embeds the board.
//!
//! A cell is identified by its *file* (column, 0 at the left edge) and its
//! *rank* (row, 0 at the bottom edge), packed row-major into a single index
//! in `0..64`: the cell at rank `r` and file `f` has index `8 * r + f`.

use vstd::prelude::*;

verus! {

/// One cell of the 8x8 grid, stored as its packed row-major index.
#[derive(Clone, Copy, Debug, PartialEq, Eq, Hash, Structural)]
pub struct Square {
    index: u8,
}

impl Square {
    /// The packed row-major index of this cell, in `0..64`.
    pub closed spec fn spec_index(self) -> u64 {
        self.index as u64
    }

    /// The rank (row) of this cell, in `0..8`.
    pub open spec fn rank_spec(self) -> u64 {
        self.spec_index() / 8
    }

    /// The file (column) of this cell, in `0..8`.
    pub open spec fn file_spec(self) -> u64 {
        self.spec_index() % 8
    }

    #[verifier::type_invariant]
    pub open spec fn in_bounds(self) -> bool {
        self.spec_index() < 64
    }

    /// The cell at the given file (column) and rank (row).
    pub fn from_coords(file: u8, rank: u8) -> (sq: Square)
        requires
            file < 8,
            rank < 8,
        ensures
            sq.file_spec() == file as u64,
            sq.rank_spec() == rank as u64,
            sq.spec_index() == 8 * rank + file,
    {
        Square { index: 8 * rank + file }
    }

    /// The packed index, for use as a bit position.
    pub fn index(self) -> (i: u8)
        ensures
            i as u64 == self.spec_index(),
            i < 64,
    {
        proof {
            use_type_invariant(&self);
        }
        self.index
    }

    /// The file (column) of this cell.
    pub fn file(self) -> (f: u8)
        ensures
            f as u64 == self.file_spec(),
    {
        proof {
            use_type_invariant(&self);
        }
        self.index % 8
    }

    /// The rank (row) of this cell.
    pub fn rank(self) -> (r: u8)
        ensures
            r as u64 == self.rank_spec(),
    {
        proof {
            use_type_invariant(&self);
        }
        self.index / 8
    }
}

} // verus!
