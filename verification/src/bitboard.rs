//! The bit-plane: a set of cells of the 8x8 grid packed into one `u64`.
//!
//! Bit `8 * r + c` of the mask records whether the cell at rank `r` and
//! file `c` is a member.  Besides elementwise membership, toggling and
//! clearing, the plane supports the eight symmetries of the square grid,
//! implemented as fixed sequences of masked shift/merge steps and specified
//! cell by cell.

use vstd::prelude::*;

use crate::square::Square;

verus! {

/// Whether bit `8 * r + c` of `m` is set, i.e. whether the cell at rank `r`
/// and file `c` is a member of the set that `m` encodes.
pub open spec fn cell(m: u64, r: u64, c: u64) -> bool {
    m & (1u64 << ((r * 8 + c) as u64)) != 0
}

/// A set of cells of the 8x8 grid, one bit per cell.
#[derive(Clone, Copy, Debug, PartialEq, Eq, Hash, Structural)]
pub struct Bitboard(pub u64);

impl Bitboard {
    /// Whether the given cell is a member.
    pub fn contains(self, sq: Square) -> (r: bool)
        ensures
            r == cell(self.0, sq.rank_spec(), sq.file_spec()),
    {
        let i = sq.index();
        let r = self.0 & (1u64 << (i as u64)) != 0;
        proof {
            lemma_index_recompose(i as u64);
        }
        r
    }

    /// Flips membership of the given cell.
    pub fn toggle(&mut self, sq: Square)
        ensures
            final(self).0 == old(self).0 ^ (1u64 << sq.spec_index()),
    {
        let i = sq.index();
        self.0 = self.0 ^ (1u64 << (i as u64));
    }

    /// Removes the given cell; a cell that is already absent stays absent.
    pub fn discard(&mut self, sq: Square)
        ensures
            final(self).0 == old(self).0 & !(1u64 << sq.spec_index()),
    {
        let i = sq.index();
        self.0 = self.0 & !(1u64 << (i as u64));
    }

    /// Reverses the order of the ranks; files are untouched.
    pub fn flip_vertical(self) -> (r: Bitboard)
        ensures
            r.0 == flip_vertical_mask(self.0),
            forall|i: u64, j: u64|
                i < 8 && j < 8 ==> #[trigger] cell(r.0, i, j) == cell(self.0, (7 - i) as u64, j),
    {
        let m = self.0;
        let res = Bitboard(
            ((m << 56) & 0xff00_0000_0000_0000) | ((m << 40) & 0x00ff_0000_0000_0000) | ((m << 24)
                & 0x0000_ff00_0000_0000) | ((m << 8) & 0x0000_00ff_0000_0000) | ((m >> 8)
                & 0x0000_0000_ff00_0000) | ((m >> 24) & 0x0000_0000_00ff_0000) | ((m >> 40)
                & 0x0000_0000_0000_ff00) | ((m >> 56) & 0x0000_0000_0000_00ff),
        );
        proof {
            lemma_flip_vertical_cells(m);
            assert forall|i: u64, j: u64| i < 8 && j < 8 implies #[trigger] cell(res.0, i, j)
                == cell(m, (7 - i) as u64, j) by {
                assert(cell(flip_vertical_mask(m), i, j) == cell(m, (7 - i) as u64, j));
            }
        }
        res
    }

    /// Reverses the order of the files; ranks are untouched.
    pub fn flip_horizontal(self) -> (r: Bitboard)
        ensures
            r.0 == flip_horizontal_mask(self.0),
            forall|i: u64, j: u64|
                i < 8 && j < 8 ==> #[trigger] cell(r.0, i, j) == cell(self.0, i, (7 - j) as u64),
    {
        let m = self.0;
        let x = ((m >> 1) & 0x5555_5555_5555_5555) | ((m & 0x5555_5555_5555_5555) << 1);
        let y = ((x >> 2) & 0x3333_3333_3333_3333) | ((x & 0x3333_3333_3333_3333) << 2);
        let res = Bitboard(((y >> 4) & 0x0f0f_0f0f_0f0f_0f0f) | ((y & 0x0f0f_0f0f_0f0f_0f0f) << 4));
        proof {
            lemma_flip_horizontal_cells(m);
            assert forall|i: u64, j: u64| i < 8 && j < 8 implies #[trigger] cell(res.0, i, j)
                == cell(m, i, (7 - j) as u64) by {
                assert(cell(flip_horizontal_mask(m), i, j) == cell(m, i, (7 - j) as u64));
            }
        }
        res
    }

    /// Reflects about the main diagonal: rank and file trade places.
    pub fn flip_diagonal(self) -> (r: Bitboard)
        ensures
            r.0 == flip_diagonal_mask(self.0),
            forall|i: u64, j: u64|
                i < 8 && j < 8 ==> #[trigger] cell(r.0, i, j) == cell(self.0, j, i),
    {
        let m = self.0;
        let t1 = 0x0f0f_0f0f_0000_0000u64 & (m ^ (m << 28));
        let x1 = m ^ t1 ^ (t1 >> 28);
        let t2 = 0x3333_0000_3333_0000u64 & (x1 ^ (x1 << 14));
        let x2 = x1 ^ t2 ^ (t2 >> 14);
        let t3 = 0x5500_5500_5500_5500u64 & (x2 ^ (x2 << 7));
        let res = Bitboard(x2 ^ t3 ^ (t3 >> 7));
        proof {
            lemma_flip_diagonal_cells(m);
            assert forall|i: u64, j: u64| i < 8 && j < 8 implies #[trigger] cell(res.0, i, j)
                == cell(m, j, i) by {
                assert(cell(flip_diagonal_mask(m), i, j) == cell(m, j, i));
            }
        }
        res
    }

    /// Reflects about the anti-diagonal: the cell at rank `r` and file `c`
    /// moves to rank `7 - c` and file `7 - r`.
    pub fn flip_anti_diagonal(self) -> (r: Bitboard)
        ensures
            r.0 == flip_anti_diagonal_mask(self.0),
            forall|i: u64, j: u64|
                i < 8 && j < 8 ==> #[trigger] cell(r.0, i, j) == cell(
                    self.0,
                    (7 - j) as u64,
                    (7 - i) as u64,
                ),
    {
        proof {
            lemma_flip_anti_diagonal_cells(self.0);
        }
        self.flip_diagonal().flip_horizontal().flip_vertical()
    }

    /// Turns the grid a quarter turn clockwise.
    pub fn rotate_90(self) -> (r: Bitboard)
        ensures
            r.0 == rotate_90_mask(self.0),
            forall|i: u64, j: u64|
                i < 8 && j < 8 ==> #[trigger] cell(r.0, i, j) == cell(self.0, j, (7 - i) as u64),
    {
        proof {
            lemma_rotate_90_cells(self.0);
        }
        self.flip_diagonal().flip_vertical()
    }

    /// Turns the grid a half turn.
    pub fn rotate_180(self) -> (r: Bitboard)
        ensures
            r.0 == rotate_180_mask(self.0),
            forall|i: u64, j: u64|
                i < 8 && j < 8 ==> #[trigger] cell(r.0, i, j) == cell(
                    self.0,
                    (7 - i) as u64,
                    (7 - j) as u64,
                ),
    {
        proof {
            lemma_rotate_180_cells(self.0);
        }
        self.flip_vertical().flip_horizontal()
    }

    /// Turns the grid a quarter turn counterclockwise.
    pub fn rotate_270(self) -> (r: Bitboard)
        ensures
            r.0 == rotate_270_mask(self.0),
            forall|i: u64, j: u64|
                i < 8 && j < 8 ==> #[trigger] cell(r.0, i, j) == cell(self.0, (7 - j) as u64, i),
    {
        proof {
            lemma_rotate_270_cells(self.0);
        }
        self.flip_vertical().flip_diagonal()
    }
}

/// Toggling the same cell twice restores the plane exactly.
pub proof fn lemma_toggle_involutive(p: Bitboard, p1: Bitboard, p2: Bitboard, sq: Square)
    requires
        p1.0 == p.0 ^ (1u64 << sq.spec_index()),
        p2.0 == p1.0 ^ (1u64 << sq.spec_index()),
    ensures
        p2 == p,
{
    let m = p.0;
    let i = sq.spec_index();
    assert((m ^ (1u64 << i)) ^ (1u64 << i) == m) by (bit_vector);
}

/// A packed index splits back into its rank and file digits.
proof fn lemma_index_recompose(i: u64)
    requires
        i < 64,
    ensures
        ((i / 8) * 8 + i % 8) as u64 == i,
{
}

/// The mask with the order of its eight rank-bytes reversed: rank `r`
/// trades places with rank `7 - r`, files are untouched.
pub open spec fn flip_vertical_mask(m: u64) -> u64 {
    ((m << 56) & 0xff00_0000_0000_0000)
        | ((m << 40) & 0x00ff_0000_0000_0000)
        | ((m << 24) & 0x0000_ff00_0000_0000)
        | ((m << 8) & 0x0000_00ff_0000_0000)
        | ((m >> 8) & 0x0000_0000_ff00_0000)
        | ((m >> 24) & 0x0000_0000_00ff_0000)
        | ((m >> 40) & 0x0000_0000_0000_ff00)
        | ((m >> 56) & 0x0000_0000_0000_00ff)
}

/// The mask with the bit order of each rank-byte reversed: file `c` trades
/// places with file `7 - c`, ranks are untouched.
pub open spec fn flip_horizontal_mask(m: u64) -> u64 {
    let x = ((m >> 1) & 0x5555_5555_5555_5555) | ((m & 0x5555_5555_5555_5555) << 1);
    let y = ((x >> 2) & 0x3333_3333_3333_3333) | ((x & 0x3333_3333_3333_3333) << 2);
    ((y >> 4) & 0x0f0f_0f0f_0f0f_0f0f) | ((y & 0x0f0f_0f0f_0f0f_0f0f) << 4)
}

/// The mask transposed about the main diagonal by three delta-swap steps:
/// the cell at rank `r` and file `c` moves to rank `c` and file `r`.
pub open spec fn flip_diagonal_mask(m: u64) -> u64 {
    let t1 = 0x0f0f_0f0f_0000_0000u64 & (m ^ (m << 28));
    let x1 = m ^ t1 ^ (t1 >> 28);
    let t2 = 0x3333_0000_3333_0000u64 & (x1 ^ (x1 << 14));
    let x2 = x1 ^ t2 ^ (t2 >> 14);
    let t3 = 0x5500_5500_5500_5500u64 & (x2 ^ (x2 << 7));
    x2 ^ t3 ^ (t3 >> 7)
}

/// The mask reflected about the anti-diagonal: the transpose composed with
/// a half turn.
pub open spec fn flip_anti_diagonal_mask(m: u64) -> u64 {
    flip_vertical_mask(flip_horizontal_mask(flip_diagonal_mask(m)))
}

/// The mask turned a quarter turn clockwise: the transpose followed by the
/// vertical mirror.
pub open spec fn rotate_90_mask(m: u64) -> u64 {
    flip_vertical_mask(flip_diagonal_mask(m))
}

/// The mask turned a half turn: the vertical mirror followed by the
/// horizontal one.
pub open spec fn rotate_180_mask(m: u64) -> u64 {
    flip_horizontal_mask(flip_vertical_mask(m))
}

/// The mask turned a quarter turn counterclockwise: the vertical mirror
/// followed by the transpose.
pub open spec fn rotate_270_mask(m: u64) -> u64 {
    flip_diagonal_mask(flip_vertical_mask(m))
}

/// Reversing the rank-bytes moves each cell to the mirrored rank.
pub proof fn lemma_flip_vertical_cells(m: u64)
    by (bit_vector)
    ensures
        forall|r: u64, c: u64|
            r < 8 && c < 8 ==> #[trigger] cell(flip_vertical_mask(m), r, c) == cell(
                m,
                (7 - r) as u64,
                c,
            ),
{
}

/// Reversing the bits of each rank-byte moves each cell to the mirrored file.
pub proof fn lemma_flip_horizontal_cells(m: u64)
    by (bit_vector)
    ensures
        forall|r: u64, c: u64|
            r < 8 && c < 8 ==> #[trigger] cell(flip_horizontal_mask(m), r, c) == cell(
                m,
                r,
                (7 - c) as u64,
            ),
{
}

/// The delta-swap sequence transposes the grid: rank and file trade places.
pub proof fn lemma_flip_diagonal_cells(m: u64)
    by (bit_vector)
    ensures
        forall|r: u64, c: u64|
            r < 8 && c < 8 ==> #[trigger] cell(flip_diagonal_mask(m), r, c) == cell(m, c, r),
{
}

/// The anti-diagonal reflection sends the cell at rank `r` and file `c` to
/// the one at rank `7 - c` and file `7 - r`.
pub proof fn lemma_flip_anti_diagonal_cells(m: u64)
    by (bit_vector)
    ensures
        forall|r: u64, c: u64|
            r < 8 && c < 8 ==> #[trigger] cell(flip_anti_diagonal_mask(m), r, c) == cell(
                m,
                (7 - c) as u64,
                (7 - r) as u64,
            ),
{
}

/// The quarter turn clockwise reads the cell at rank `r` and file `c` from
/// the one at rank `c` and file `7 - r`.
pub proof fn lemma_rotate_90_cells(m: u64)
    by (bit_vector)
    ensures
        forall|r: u64, c: u64|
            r < 8 && c < 8 ==> #[trigger] cell(rotate_90_mask(m), r, c) == cell(
                m,
                c,
                (7 - r) as u64,
            ),
{
}

/// The half turn reads each cell from the diagonally opposite one.
pub proof fn lemma_rotate_180_cells(m: u64)
    by (bit_vector)
    ensures
        forall|r: u64, c: u64|
            r < 8 && c < 8 ==> #[trigger] cell(rotate_180_mask(m), r, c) == cell(
                m,
                (7 - r) as u64,
                (7 - c) as u64,
            ),
{
}

/// The quarter turn counterclockwise reads the cell at rank `r` and file `c`
/// from the one at rank `7 - c` and file `r`.
pub proof fn lemma_rotate_270_cells(m: u64)
    by (bit_vector)
    ensures
        forall|r: u64, c: u64|
            r < 8 && c < 8 ==> #[trigger] cell(rotate_270_mask(m), r, c) == cell(
                m,
                (7 - c) as u64,
                r,
            ),
{
}

} // verus!
