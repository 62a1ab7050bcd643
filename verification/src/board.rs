//! The playing surface: one bit-plane restricted to the playable region.
//!
//! The logical board is a cross-shaped set of cells inside the 8x8 grid:
//! ranks 0 through 6 of files 1 through 7, with three cells clipped from
//! each corner of that 7x7 window.  Only cells of this region may ever be
//! occupied; the remaining cells of the grid always read unoccupied, and
//! `occupy` silently refuses them.
//!
//! Each whole-board transform applies the corresponding bit-plane transform
//! and then shifts the whole mask so that the transformed region lands back
//! on its own window; the correction is one rank, one file, or one of each,
//! depending on how the transform moves the window inside the grid.

use vstd::prelude::*;

use crate::bitboard::Bitboard;
use crate::bitboard::cell;
use crate::bitboard::flip_anti_diagonal_mask;
use crate::bitboard::flip_diagonal_mask;
use crate::bitboard::flip_horizontal_mask;
use crate::bitboard::flip_vertical_mask;
use crate::bitboard::rotate_180_mask;
use crate::bitboard::rotate_270_mask;
use crate::bitboard::rotate_90_mask;
use crate::square::Square;

verus! {

/// The playable region: one bit for each cell the board may occupy.
pub const REGION_MASK: u64 = 0x0038_7cfe_fefe_7c38;

/// The starting layout: the whole playable region except its center cell,
/// the cell at rank 3 and file 4.
pub const START_MASK: u64 = 0x0038_7cfe_eefe_7c38;

/// Whether the cell at rank `r` and file `c` belongs to the playable region.
pub open spec fn in_region(r: u64, c: u64) -> bool {
    ||| (2 <= r && r <= 4 && 1 <= c && c <= 7)
    ||| ((r == 1 || r == 5) && 2 <= c && c <= 6)
    ||| ((r == 0 || r == 6) && 3 <= c && c <= 5)
}

/// The region mask encodes exactly the cells of the playable region.
pub proof fn lemma_region_mask_cells()
    by (bit_vector)
    ensures
        forall|r: u64, c: u64|
            r < 8 && c < 8 ==> #[trigger] cell(REGION_MASK, r, c) == in_region(r, c),
{
}

/// Clearing one bit of the plane leaves every other cell as it was, and
/// the bit's own cell empty.
proof fn lemma_clear_bit_cells(m: u64, i: u64)
    by (bit_vector)
    requires
        i < 64,
    ensures
        forall|r: u64, c: u64|
            r < 8 && c < 8 && !(r == i / 8 && c == i % 8) ==> #[trigger] cell(
                m & !(1u64 << i),
                r,
                c,
            ) == cell(m, r, c),
        !cell(m & !(1u64 << i), i / 8, i % 8),
{
}

/// Setting one bit of the plane leaves every other cell as it was, and the
/// bit's own cell occupied.
proof fn lemma_set_bit_cells(m: u64, i: u64)
    by (bit_vector)
    requires
        i < 64,
    ensures
        forall|r: u64, c: u64|
            r < 8 && c < 8 && !(r == i / 8 && c == i % 8) ==> #[trigger] cell(m | (1u64 << i), r, c)
                == cell(m, r, c),
        cell(m | (1u64 << i), i / 8, i % 8),
{
}

/// The starting layout holds every region cell but the center.
proof fn lemma_start_mask_cells()
    by (bit_vector)
    ensures
        START_MASK & !REGION_MASK == 0,
        forall|r: u64, c: u64|
            r < 8 && c < 8 ==> #[trigger] cell(START_MASK, r, c) == (in_region(r, c) && !(r == 3
                && c == 4)),
{
}

/// Peg positions on the playing surface.
#[derive(Clone, Copy, Debug, PartialEq, Eq, Hash, Structural)]
pub struct Board {
    occupied: Bitboard,
}

impl Board {
    /// The underlying bit-plane mask.
    pub closed spec fn bits(self) -> u64 {
        self.occupied.0
    }

    /// Only cells of the playable region are ever occupied.
    #[verifier::type_invariant]
    pub open spec fn wf(self) -> bool {
        self.bits() & !REGION_MASK == 0
    }

    /// Whether the cell at rank `r` and file `c` is occupied.
    pub open spec fn occ(self, r: u64, c: u64) -> bool {
        cell(self.bits(), r, c)
    }

    /// Whether the given cell is occupied.
    pub open spec fn occ_sq(self, sq: Square) -> bool {
        self.occ(sq.rank_spec(), sq.file_spec())
    }

    /// The starting layout: every cell of the playable region occupied
    /// except the center cell, which is empty.
    pub fn new() -> (b: Board)
        ensures
            b.bits() == START_MASK,
            forall|r: u64, c: u64|
                r < 8 && c < 8 ==> #[trigger] b.occ(r, c) == (in_region(r, c) && !(r == 3 && c
                    == 4)),
    {
        proof {
            lemma_start_mask_cells();
        }
        Board { occupied: Bitboard(START_MASK) }
    }

    /// A board with no cell occupied.
    pub fn empty() -> (b: Board)
        ensures
            b.bits() == 0,
            forall|r: u64, c: u64| r < 8 && c < 8 ==> !(#[trigger] b.occ(r, c)),
    {
        proof {
            assert(0u64 & !REGION_MASK == 0 && forall|r: u64, c: u64|
                !(#[trigger] cell(0u64, r, c))) by (bit_vector);
        }
        Board { occupied: Bitboard(0) }
    }

    /// Whether the given cell is occupied; total over every cell of the
    /// grid, and always false outside the playable region.
    pub fn occupied_at(&self, sq: Square) -> (r: bool)
        ensures
            r == self.occ_sq(sq),
    {
        self.occupied.contains(sq)
    }

    /// Clears the given cell and reports whether a peg was removed; on an
    /// already-empty cell the board is unchanged and the call reports that
    /// nothing happened.
    pub fn remove_at(&mut self, sq: Square) -> (removed: bool)
        ensures
            removed == old(self).occ_sq(sq),
            final(self).bits() == old(self).bits() & !(1u64 << sq.spec_index()),
            !final(self).occ_sq(sq),
            forall|r: u64, c: u64|
                r < 8 && c < 8 && !(r == sq.rank_spec() && c == sq.file_spec()) ==> #[trigger] final(self).occ(r, c) == old(self).occ(r, c),
    {
        proof {
            use_type_invariant(&*self);
            use_type_invariant(&sq);
        }
        let ghost m = self.occupied.0;
        let ghost i = sq.spec_index();
        proof {
            assert((sq.rank_spec() * 8 + sq.file_spec()) as u64 == i);
        }
        if self.occupied_at(sq) {
            proof {
                assert((m ^ (1u64 << i)) == m & !(1u64 << i) && ((m & !(1u64 << i)) & !REGION_MASK)
                    == 0 && (m & !(1u64 << i)) & (1u64 << i) == 0) by (bit_vector)
                    requires
                        i < 64,
                        m & (1u64 << i) != 0,
                        m & !REGION_MASK == 0,
                ;
            }
            let mut plane = self.occupied;
            plane.toggle(sq);
            self.occupied = plane;
            proof {
                lemma_clear_bit_cells(m, i);
                assert forall|r: u64, c: u64|
                    r < 8 && c < 8 && !(r == sq.rank_spec() && c == sq.file_spec()) implies #[trigger] self.occ(
                    r,
                    c,
                ) == cell(m, r, c) by {
                    assert(cell(m & !(1u64 << i), r, c) == cell(m, r, c));
                }
            }
            true
        } else {
            proof {
                assert(m == m & !(1u64 << i) && (m & (1u64 << i)) == 0) by (bit_vector)
                    requires
                        i < 64,
                        m & (1u64 << i) == 0,
                ;
            }
            false
        }
    }

    /// Clears the given cell unconditionally; a cell that is already empty
    /// stays empty.
    pub fn discard_at(&mut self, sq: Square)
        ensures
            final(self).bits() == old(self).bits() & !(1u64 << sq.spec_index()),
            !final(self).occ_sq(sq),
            forall|r: u64, c: u64|
                r < 8 && c < 8 && !(r == sq.rank_spec() && c == sq.file_spec()) ==> #[trigger] final(self).occ(r, c) == old(self).occ(r, c),
    {
        proof {
            use_type_invariant(&*self);
            use_type_invariant(&sq);
        }
        let ghost m = self.occupied.0;
        let ghost i = sq.spec_index();
        proof {
            assert((sq.rank_spec() * 8 + sq.file_spec()) as u64 == i);
            assert(((m & !(1u64 << i)) & !REGION_MASK) == 0 && (m & !(1u64 << i)) & (1u64 << i)
                == 0) by (bit_vector)
                requires
                    i < 64,
                    m & !REGION_MASK == 0,
            ;
        }
        let mut plane = self.occupied;
        plane.discard(sq);
        self.occupied = plane;
        proof {
            lemma_clear_bit_cells(m, i);
            assert forall|r: u64, c: u64|
                r < 8 && c < 8 && !(r == sq.rank_spec() && c == sq.file_spec()) implies #[trigger] self.occ(
                r,
                c,
            ) == cell(m, r, c) by {
                assert(cell(m & !(1u64 << i), r, c) == cell(m, r, c));
            }
        }
    }

    /// Occupies the given cell, unless it lies outside the playable region:
    /// such a call is a silent no-op and leaves the board untouched.
    /// Occupying an already-occupied cell is also a no-op.
    pub fn occupy(&mut self, sq: Square)
        ensures
            in_region(sq.rank_spec(), sq.file_spec()) ==> final(self).bits() == old(self).bits() | (
            1u64 << sq.spec_index()),
            in_region(sq.rank_spec(), sq.file_spec()) ==> final(self).occ_sq(sq),
            !in_region(sq.rank_spec(), sq.file_spec()) ==> *final(self) == *old(self),
            forall|r: u64, c: u64|
                r < 8 && c < 8 && !(r == sq.rank_spec() && c == sq.file_spec()) ==> #[trigger] final(self).occ(r, c) == old(self).occ(r, c),
    {
        proof {
            use_type_invariant(&*self);
            use_type_invariant(&sq);
            lemma_region_mask_cells();
        }
        let i = sq.index();
        let ghost m = self.occupied.0;
        proof {
            assert((sq.rank_spec() * 8 + sq.file_spec()) as u64 == sq.spec_index());
            assert(sq.rank_spec() < 8 && sq.file_spec() < 8);
            assert(cell(REGION_MASK, sq.rank_spec(), sq.file_spec()) == in_region(
                sq.rank_spec(),
                sq.file_spec(),
            ));
        }
        if (REGION_MASK & (1u64 << (i as u64))) != 0 {
            proof {
                let gi = sq.spec_index();
                assert(((m | (1u64 << gi)) & !REGION_MASK) == 0 && (m | (1u64 << gi)) & (1u64 << gi)
                    != 0) by (bit_vector)
                    requires
                        gi < 64,
                        m & !REGION_MASK == 0,
                        REGION_MASK & (1u64 << gi) != 0,
                ;
            }
            self.occupied = Bitboard(self.occupied.0 | (1u64 << (i as u64)));
            proof {
                lemma_set_bit_cells(m, sq.spec_index());
                assert forall|r: u64, c: u64|
                    r < 8 && c < 8 && !(r == sq.rank_spec() && c == sq.file_spec()) implies #[trigger] self.occ(
                    r,
                    c,
                ) == cell(m, r, c) by {
                    assert(cell(m | (1u64 << sq.spec_index()), r, c) == cell(m, r, c));
                }
            }
        }
    }

    /// Mirrors the board vertically: within the board's window, rank `r`
    /// trades places with rank `6 - r`.
    pub fn flip_vertical(&mut self)
        ensures
            final(self).bits() == board_flip_vertical_mask(old(self).bits()),
            forall|r: u64, c: u64|
                r < 7 && c < 8 ==> #[trigger] final(self).occ(r, c) == old(self).occ(
                    (6 - r) as u64,
                    c,
                ),
            forall|c: u64| c < 8 ==> !(#[trigger] final(self).occ(7, c)),
    {
        let ghost m = self.occupied.0;
        proof {
            use_type_invariant(&*self);
            lemma_board_flip_vertical(m);
        }
        let t = self.occupied.flip_vertical();
        self.occupied = Bitboard(t.0 >> 8);
        proof {
            assert forall|r: u64, c: u64| r < 7 && c < 8 implies #[trigger] self.occ(r, c) == cell(
                m,
                (6 - r) as u64,
                c,
            ) by {
                assert(cell(board_flip_vertical_mask(m), r, c) == cell(m, (6 - r) as u64, c));
            }
            assert forall|c: u64| c < 8 implies !(#[trigger] self.occ(7, c)) by {
                assert(!cell(board_flip_vertical_mask(m), 7, c));
            }
        }
    }

    /// Mirrors the board horizontally: within the board's window, file `c`
    /// trades places with file `8 - c`.
    pub fn flip_horizontal(&mut self)
        ensures
            final(self).bits() == board_flip_horizontal_mask(old(self).bits()),
            forall|r: u64, c: u64|
                r < 8 && 1 <= c && c < 8 ==> #[trigger] final(self).occ(r, c) == old(self).occ(
                    r,
                    (8 - c) as u64,
                ),
            forall|r: u64| r < 8 ==> !(#[trigger] final(self).occ(r, 0)),
    {
        let ghost m = self.occupied.0;
        proof {
            use_type_invariant(&*self);
            lemma_board_flip_horizontal(m);
        }
        let t = self.occupied.flip_horizontal();
        self.occupied = Bitboard(t.0 << 1);
        proof {
            assert forall|r: u64, c: u64| r < 8 && 1 <= c && c < 8 implies #[trigger] self.occ(r, c)
                == cell(m, r, (8 - c) as u64) by {
                assert(cell(board_flip_horizontal_mask(m), r, c) == cell(m, r, (8 - c) as u64));
            }
            assert forall|r: u64| r < 8 implies !(#[trigger] self.occ(r, 0)) by {
                assert(!cell(board_flip_horizontal_mask(m), r, 0));
            }
        }
    }

    /// Mirrors the board at its main diagonal: within the board's window,
    /// the cell at rank `r` and file `c` comes from rank `c - 1` and file
    /// `r + 1`.
    pub fn flip_diagonal(&mut self)
        ensures
            final(self).bits() == board_flip_diagonal_mask(old(self).bits()),
            forall|r: u64, c: u64|
                r < 7 && 1 <= c && c < 8 ==> #[trigger] final(self).occ(r, c) == old(self).occ(
                    (c - 1) as u64,
                    (r + 1) as u64,
                ),
            forall|c: u64| c < 8 ==> !(#[trigger] final(self).occ(7, c)),
            forall|r: u64| r < 8 ==> !(#[trigger] final(self).occ(r, 0)),
    {
        let ghost m = self.occupied.0;
        proof {
            use_type_invariant(&*self);
            lemma_board_flip_diagonal(m);
        }
        let t = self.occupied.flip_diagonal();
        self.occupied = Bitboard(t.0 >> 7);
        proof {
            assert forall|r: u64, c: u64| r < 7 && 1 <= c && c < 8 implies #[trigger] self.occ(r, c)
                == cell(m, (c - 1) as u64, (r + 1) as u64) by {
                assert(cell(board_flip_diagonal_mask(m), r, c) == cell(
                    m,
                    (c - 1) as u64,
                    (r + 1) as u64,
                ));
            }
            assert forall|c: u64| c < 8 implies !(#[trigger] self.occ(7, c)) by {
                assert(!cell(board_flip_diagonal_mask(m), 7, c));
            }
            assert forall|r: u64| r < 8 implies !(#[trigger] self.occ(r, 0)) by {
                assert(!cell(board_flip_diagonal_mask(m), r, 0));
            }
        }
    }

    /// Mirrors the board at its anti-diagonal: within the board's window,
    /// the cell at rank `r` and file `c` comes from rank `7 - c` and file
    /// `7 - r`; the window needs no corrective shift.
    pub fn flip_anti_diagonal(&mut self)
        ensures
            final(self).bits() == board_flip_anti_diagonal_mask(old(self).bits()),
            forall|r: u64, c: u64|
                r < 8 && c < 8 ==> #[trigger] final(self).occ(r, c) == old(self).occ(
                    (7 - c) as u64,
                    (7 - r) as u64,
                ),
    {
        let ghost m = self.occupied.0;
        proof {
            use_type_invariant(&*self);
            lemma_board_flip_anti_diagonal(m);
        }
        self.occupied = self.occupied.flip_anti_diagonal();
        proof {
            assert forall|r: u64, c: u64| r < 8 && c < 8 implies #[trigger] self.occ(r, c) == cell(
                m,
                (7 - c) as u64,
                (7 - r) as u64,
            ) by {
                assert(cell(board_flip_anti_diagonal_mask(m), r, c) == cell(
                    m,
                    (7 - c) as u64,
                    (7 - r) as u64,
                ));
            }
        }
    }

    /// Rotates the board a quarter turn clockwise: within the board's
    /// window, the cell at rank `r` and file `c` comes from rank `c - 1`
    /// and file `7 - r`.
    pub fn rotate_90(&mut self)
        ensures
            final(self).bits() == board_rotate_90_mask(old(self).bits()),
            forall|r: u64, c: u64|
                r < 8 && 1 <= c && c < 8 ==> #[trigger] final(self).occ(r, c) == old(self).occ(
                    (c - 1) as u64,
                    (7 - r) as u64,
                ),
            forall|r: u64| r < 8 ==> !(#[trigger] final(self).occ(r, 0)),
    {
        let ghost m = self.occupied.0;
        proof {
            use_type_invariant(&*self);
            lemma_board_rotate_90(m);
        }
        let t = self.occupied.rotate_90();
        self.occupied = Bitboard(t.0 << 1);
        proof {
            assert forall|r: u64, c: u64| r < 8 && 1 <= c && c < 8 implies #[trigger] self.occ(r, c)
                == cell(m, (c - 1) as u64, (7 - r) as u64) by {
                assert(cell(board_rotate_90_mask(m), r, c) == cell(
                    m,
                    (c - 1) as u64,
                    (7 - r) as u64,
                ));
            }
            assert forall|r: u64| r < 8 implies !(#[trigger] self.occ(r, 0)) by {
                assert(!cell(board_rotate_90_mask(m), r, 0));
            }
        }
    }

    /// Rotates the board a half turn: within the board's window, the cell
    /// at rank `r` and file `c` comes from rank `6 - r` and file `8 - c`.
    pub fn rotate_180(&mut self)
        ensures
            final(self).bits() == board_rotate_180_mask(old(self).bits()),
            forall|r: u64, c: u64|
                r < 7 && 1 <= c && c < 8 ==> #[trigger] final(self).occ(r, c) == old(self).occ(
                    (6 - r) as u64,
                    (8 - c) as u64,
                ),
            forall|c: u64| c < 8 ==> !(#[trigger] final(self).occ(7, c)),
            forall|r: u64| r < 8 ==> !(#[trigger] final(self).occ(r, 0)),
    {
        let ghost m = self.occupied.0;
        proof {
            use_type_invariant(&*self);
            lemma_board_rotate_180(m);
        }
        let t = self.occupied.rotate_180();
        self.occupied = Bitboard(t.0 >> 7);
        proof {
            assert forall|r: u64, c: u64| r < 7 && 1 <= c && c < 8 implies #[trigger] self.occ(r, c)
                == cell(m, (6 - r) as u64, (8 - c) as u64) by {
                assert(cell(board_rotate_180_mask(m), r, c) == cell(
                    m,
                    (6 - r) as u64,
                    (8 - c) as u64,
                ));
            }
            assert forall|c: u64| c < 8 implies !(#[trigger] self.occ(7, c)) by {
                assert(!cell(board_rotate_180_mask(m), 7, c));
            }
            assert forall|r: u64| r < 8 implies !(#[trigger] self.occ(r, 0)) by {
                assert(!cell(board_rotate_180_mask(m), r, 0));
            }
        }
    }

    /// Rotates the board a quarter turn counterclockwise: within the
    /// board's window, the cell at rank `r` and file `c` comes from rank
    /// `7 - c` and file `r + 1`.
    pub fn rotate_270(&mut self)
        ensures
            final(self).bits() == board_rotate_270_mask(old(self).bits()),
            forall|r: u64, c: u64|
                r < 7 && 1 <= c && c < 8 ==> #[trigger] final(self).occ(r, c) == old(self).occ(
                    (7 - c) as u64,
                    (r + 1) as u64,
                ),
            forall|c: u64| c < 8 ==> !(#[trigger] final(self).occ(7, c)),
            forall|r: u64| r < 8 ==> !(#[trigger] final(self).occ(r, 0)),
    {
        let ghost m = self.occupied.0;
        proof {
            use_type_invariant(&*self);
            lemma_board_rotate_270(m);
        }
        let t = self.occupied.rotate_270();
        self.occupied = Bitboard(t.0 >> 8);
        proof {
            assert forall|r: u64, c: u64| r < 7 && 1 <= c && c < 8 implies #[trigger] self.occ(r, c)
                == cell(m, (7 - c) as u64, (r + 1) as u64) by {
                assert(cell(board_rotate_270_mask(m), r, c) == cell(
                    m,
                    (7 - c) as u64,
                    (r + 1) as u64,
                ));
            }
            assert forall|c: u64| c < 8 implies !(#[trigger] self.occ(7, c)) by {
                assert(!cell(board_rotate_270_mask(m), 7, c));
            }
            assert forall|r: u64| r < 8 implies !(#[trigger] self.occ(r, 0)) by {
                assert(!cell(board_rotate_270_mask(m), r, 0));
            }
        }
    }

    /// A line-based picture of the board, one byte per mark: eight lines
    /// of sixteen bytes, ranks from the top of the grid down, files left to
    /// right, an occupied mark (`o`) or an empty mark (`.`) for each cell,
    /// a blank between cells and a line break after the last file.
    pub fn render(&self) -> (out: Vec<u8>)
        ensures
            out@.len() == 128,
            forall|k: int| 0 <= k < 128 ==> out@[k] == render_byte(*self, k),
    {
        let mut out: Vec<u8> = Vec::new();
        let mut row: u8 = 0;
        while row < 8
            invariant
                row <= 8,
                out@.len() == 16 * (row as int),
                forall|k: int| 0 <= k < out@.len() ==> out@[k] == render_byte(*self, k),
            decreases 8 - row,
        {
            let mut file: u8 = 0;
            while file < 8
                invariant
                    row < 8,
                    file <= 8,
                    out@.len() == 16 * (row as int) + 2 * (file as int),
                    forall|k: int| 0 <= k < out@.len() ==> out@[k] == render_byte(*self, k),
                decreases 8 - file,
            {
                let ghost k = 16 * (row as int) + 2 * (file as int);
                proof {
                    assert(k / 16 == row as int && k % 16 == 2 * (file as int) && (k + 1) / 16
                        == row as int && (k + 1) % 16 == 2 * (file as int) + 1) by (nonlinear_arith)
                        requires
                            k == 16 * (row as int) + 2 * (file as int),
                            row < 8,
                            file < 8,
                    ;
                }
                let sq = Square::from_coords(file, 7 - row);
                if self.occupied_at(sq) {
                    out.push(PEG_MARK);
                } else {
                    out.push(HOLE_MARK);
                }
                if file == 7 {
                    out.push(LINE_MARK);
                } else {
                    out.push(GAP_MARK);
                }
                file = file + 1;
            }
            row = row + 1;
        }
        out
    }
}

/// The byte at offset `k` of a rendering: the line `k / 16` shows rank
/// `7 - k / 16`; within a line, even offsets carry the cell marks and odd
/// offsets the separators.
pub open spec fn render_byte(b: Board, k: int) -> u8 {
    let pos = k % 16;
    if pos % 2 == 0 {
        if b.occ((7 - k / 16) as u64, (pos / 2) as u64) {
            PEG_MARK
        } else {
            HOLE_MARK
        }
    } else if pos == 15 {
        LINE_MARK
    } else {
        GAP_MARK
    }
}

/// The byte that marks an occupied cell in a rendering: `o`.
pub const PEG_MARK: u8 = 111;

/// The byte that marks an empty cell in a rendering: `.`.
pub const HOLE_MARK: u8 = 46;

/// The byte between two cells of one rank in a rendering: a blank.
pub const GAP_MARK: u8 = 32;

/// The byte after the last cell of a rank in a rendering: a line break.
pub const LINE_MARK: u8 = 10;

impl Default for Board {
    /// The starting layout, as `new` builds it.
    fn default() -> (b: Board)
        ensures
            b.bits() == START_MASK,
    {
        Board::new()
    }
}

/// The vertical mirror of the board: the plane's vertical flip, re-anchored
/// one rank down so the mirrored region lands back on its own window.
pub open spec fn board_flip_vertical_mask(m: u64) -> u64 {
    flip_vertical_mask(m) >> 8
}

/// The horizontal mirror of the board: the plane's horizontal flip,
/// re-anchored one file up so the mirrored region lands back on its own
/// window.
pub open spec fn board_flip_horizontal_mask(m: u64) -> u64 {
    flip_horizontal_mask(m) << 1
}

/// The main-diagonal mirror of the board: the plane's transpose,
/// re-anchored by one rank down and one file up in a single shift.
pub open spec fn board_flip_diagonal_mask(m: u64) -> u64 {
    flip_diagonal_mask(m) >> 7
}

/// The anti-diagonal mirror of the board: the region's window is symmetric
/// under this reflection, so no corrective shift is needed.
pub open spec fn board_flip_anti_diagonal_mask(m: u64) -> u64 {
    flip_anti_diagonal_mask(m)
}

/// The quarter turn clockwise of the board, re-anchored one file up.
pub open spec fn board_rotate_90_mask(m: u64) -> u64 {
    rotate_90_mask(m) << 1
}

/// The half turn of the board, re-anchored one rank down and one file up.
pub open spec fn board_rotate_180_mask(m: u64) -> u64 {
    rotate_180_mask(m) >> 7
}

/// The quarter turn counterclockwise of the board, re-anchored one rank
/// down.
pub open spec fn board_rotate_270_mask(m: u64) -> u64 {
    rotate_270_mask(m) >> 8
}

/// The re-anchored vertical flip stays inside the region and sends the cell
/// at rank `r` to rank `6 - r` within the board's window.
proof fn lemma_board_flip_vertical(m: u64)
    by (bit_vector)
    requires
        m & !REGION_MASK == 0,
    ensures
        board_flip_vertical_mask(m) & !REGION_MASK == 0,
        forall|r: u64, c: u64|
            r < 7 && c < 8 ==> #[trigger] cell(board_flip_vertical_mask(m), r, c) == cell(
                m,
                (6 - r) as u64,
                c,
            ),
        forall|c: u64| c < 8 ==> !(#[trigger] cell(board_flip_vertical_mask(m), 7, c)),
{
}

/// The re-anchored horizontal flip stays inside the region and sends the
/// cell at file `c` to file `8 - c` within the board's window.
proof fn lemma_board_flip_horizontal(m: u64)
    by (bit_vector)
    requires
        m & !REGION_MASK == 0,
    ensures
        board_flip_horizontal_mask(m) & !REGION_MASK == 0,
        forall|r: u64, c: u64|
            r < 8 && 1 <= c && c < 8 ==> #[trigger] cell(board_flip_horizontal_mask(m), r, c)
                == cell(m, r, (8 - c) as u64),
        forall|r: u64| r < 8 ==> !(#[trigger] cell(board_flip_horizontal_mask(m), r, 0)),
{
}

/// The re-anchored transpose stays inside the region and trades rank and
/// file within the board's window.
proof fn lemma_board_flip_diagonal(m: u64)
    by (bit_vector)
    requires
        m & !REGION_MASK == 0,
    ensures
        board_flip_diagonal_mask(m) & !REGION_MASK == 0,
        forall|r: u64, c: u64|
            r < 7 && 1 <= c && c < 8 ==> #[trigger] cell(board_flip_diagonal_mask(m), r, c) == cell(
                m,
                (c - 1) as u64,
                (r + 1) as u64,
            ),
        forall|c: u64| c < 8 ==> !(#[trigger] cell(board_flip_diagonal_mask(m), 7, c)),
        forall|r: u64| r < 8 ==> !(#[trigger] cell(board_flip_diagonal_mask(m), r, 0)),
{
}

/// The anti-diagonal flip stays inside the region and reflects the board's
/// window onto itself with no shift.
proof fn lemma_board_flip_anti_diagonal(m: u64)
    by (bit_vector)
    requires
        m & !REGION_MASK == 0,
    ensures
        board_flip_anti_diagonal_mask(m) & !REGION_MASK == 0,
        forall|r: u64, c: u64|
            r < 8 && c < 8 ==> #[trigger] cell(board_flip_anti_diagonal_mask(m), r, c) == cell(
                m,
                (7 - c) as u64,
                (7 - r) as u64,
            ),
{
}

/// The re-anchored quarter turn clockwise stays inside the region; the cell
/// at rank `r` and file `c` comes from rank `c - 1` and file `7 - r`.
proof fn lemma_board_rotate_90(m: u64)
    by (bit_vector)
    requires
        m & !REGION_MASK == 0,
    ensures
        board_rotate_90_mask(m) & !REGION_MASK == 0,
        forall|r: u64, c: u64|
            r < 8 && 1 <= c && c < 8 ==> #[trigger] cell(board_rotate_90_mask(m), r, c) == cell(
                m,
                (c - 1) as u64,
                (7 - r) as u64,
            ),
        forall|r: u64| r < 8 ==> !(#[trigger] cell(board_rotate_90_mask(m), r, 0)),
{
}

/// The re-anchored half turn stays inside the region; the cell at rank `r`
/// and file `c` comes from rank `6 - r` and file `8 - c`.
proof fn lemma_board_rotate_180(m: u64)
    by (bit_vector)
    requires
        m & !REGION_MASK == 0,
    ensures
        board_rotate_180_mask(m) & !REGION_MASK == 0,
        forall|r: u64, c: u64|
            r < 7 && 1 <= c && c < 8 ==> #[trigger] cell(board_rotate_180_mask(m), r, c) == cell(
                m,
                (6 - r) as u64,
                (8 - c) as u64,
            ),
        forall|c: u64| c < 8 ==> !(#[trigger] cell(board_rotate_180_mask(m), 7, c)),
        forall|r: u64| r < 8 ==> !(#[trigger] cell(board_rotate_180_mask(m), r, 0)),
{
}

/// The re-anchored quarter turn counterclockwise stays inside the region;
/// the cell at rank `r` and file `c` comes from rank `7 - c` and file
/// `r + 1`.
proof fn lemma_board_rotate_270(m: u64)
    by (bit_vector)
    requires
        m & !REGION_MASK == 0,
    ensures
        board_rotate_270_mask(m) & !REGION_MASK == 0,
        forall|r: u64, c: u64|
            r < 7 && 1 <= c && c < 8 ==> #[trigger] cell(board_rotate_270_mask(m), r, c) == cell(
                m,
                (7 - c) as u64,
                (r + 1) as u64,
            ),
        forall|c: u64| c < 8 ==> !(#[trigger] cell(board_rotate_270_mask(m), 7, c)),
        forall|r: u64| r < 8 ==> !(#[trigger] cell(board_rotate_270_mask(m), r, 0)),
{
}

/// Clearing a cell twice leaves the same board as clearing it once.
pub proof fn lemma_discard_at_idempotent(b: Board, b1: Board, b2: Board, sq: Square)
    requires
        b1.bits() == b.bits() & !(1u64 << sq.spec_index()),
        b2.bits() == b1.bits() & !(1u64 << sq.spec_index()),
    ensures
        b2 == b1,
{
    let m = b.bits();
    let i = sq.spec_index();
    assert((m & !(1u64 << i)) & !(1u64 << i) == m & !(1u64 << i)) by (bit_vector);
    lemma_same_bits_same_board(b1, b2);
}

/// Mirroring the board vertically twice restores it exactly.
pub proof fn lemma_flip_vertical_round_trip(b: Board, b1: Board, b2: Board)
    requires
        b.wf(),
        b1.bits() == board_flip_vertical_mask(b.bits()),
        b2.bits() == board_flip_vertical_mask(b1.bits()),
    ensures
        b2 == b,
{
    let m = b.bits();
    let m1 = b1.bits();
    assert(board_flip_vertical_mask(m1) == m) by (bit_vector)
        requires
            m & !REGION_MASK == 0,
            m1 == board_flip_vertical_mask(m),
    ;
    lemma_same_bits_same_board(b, b2);
}

/// Mirroring the board horizontally twice restores it exactly.
pub proof fn lemma_flip_horizontal_round_trip(b: Board, b1: Board, b2: Board)
    requires
        b.wf(),
        b1.bits() == board_flip_horizontal_mask(b.bits()),
        b2.bits() == board_flip_horizontal_mask(b1.bits()),
    ensures
        b2 == b,
{
    let m = b.bits();
    let m1 = b1.bits();
    assert(board_flip_horizontal_mask(m1) == m) by (bit_vector)
        requires
            m & !REGION_MASK == 0,
            m1 == board_flip_horizontal_mask(m),
    ;
    lemma_same_bits_same_board(b, b2);
}

/// Mirroring the board at its main diagonal twice restores it exactly.
pub proof fn lemma_flip_diagonal_round_trip(b: Board, b1: Board, b2: Board)
    requires
        b.wf(),
        b1.bits() == board_flip_diagonal_mask(b.bits()),
        b2.bits() == board_flip_diagonal_mask(b1.bits()),
    ensures
        b2 == b,
{
    let m = b.bits();
    let m1 = b1.bits();
    assert(board_flip_diagonal_mask(m1) == m) by (bit_vector)
        requires
            m & !REGION_MASK == 0,
            m1 == board_flip_diagonal_mask(m),
    ;
    lemma_same_bits_same_board(b, b2);
}

/// Mirroring the board at its anti-diagonal twice restores it exactly.
pub proof fn lemma_flip_anti_diagonal_round_trip(b: Board, b1: Board, b2: Board)
    requires
        b.wf(),
        b1.bits() == board_flip_anti_diagonal_mask(b.bits()),
        b2.bits() == board_flip_anti_diagonal_mask(b1.bits()),
    ensures
        b2 == b,
{
    let m = b.bits();
    let m1 = b1.bits();
    assert(board_flip_anti_diagonal_mask(m1) == m) by (bit_vector)
        requires
            m & !REGION_MASK == 0,
            m1 == board_flip_anti_diagonal_mask(m),
    ;
    lemma_same_bits_same_board(b, b2);
}

/// A quarter turn clockwise undone by a quarter turn counterclockwise
/// restores the board exactly, and the other way around.
pub proof fn lemma_rotate_quarter_round_trip(b: Board, b1: Board, b2: Board, b3: Board, b4: Board)
    requires
        b.wf(),
        b1.bits() == board_rotate_90_mask(b.bits()),
        b2.bits() == board_rotate_270_mask(b1.bits()),
        b3.bits() == board_rotate_270_mask(b.bits()),
        b4.bits() == board_rotate_90_mask(b3.bits()),
    ensures
        b2 == b,
        b4 == b,
{
    let m = b.bits();
    let m1 = b1.bits();
    let m3 = b3.bits();
    assert(board_rotate_270_mask(m1) == m && board_rotate_90_mask(m3) == m) by (bit_vector)
        requires
            m & !REGION_MASK == 0,
            m1 == board_rotate_90_mask(m),
            m3 == board_rotate_270_mask(m),
    ;
    lemma_same_bits_same_board(b, b2);
    lemma_same_bits_same_board(b, b4);
}

/// Rotating the board a half turn twice restores it exactly.
pub proof fn lemma_rotate_180_round_trip(b: Board, b1: Board, b2: Board)
    requires
        b.wf(),
        b1.bits() == board_rotate_180_mask(b.bits()),
        b2.bits() == board_rotate_180_mask(b1.bits()),
    ensures
        b2 == b,
{
    let m = b.bits();
    let m1 = b1.bits();
    assert(board_rotate_180_mask(m1) == m) by (bit_vector)
        requires
            m & !REGION_MASK == 0,
            m1 == board_rotate_180_mask(m),
    ;
    lemma_same_bits_same_board(b, b2);
}

/// Two quarter turns clockwise give exactly the half turn.
pub proof fn lemma_rotate_90_twice_is_rotate_180(b: Board, b1: Board, b2: Board, b3: Board)
    requires
        b.wf(),
        b1.bits() == board_rotate_90_mask(b.bits()),
        b2.bits() == board_rotate_90_mask(b1.bits()),
        b3.bits() == board_rotate_180_mask(b.bits()),
    ensures
        b2 == b3,
{
    let m = b.bits();
    let m1 = b1.bits();
    assert(board_rotate_90_mask(m1) == board_rotate_180_mask(m)) by (bit_vector)
        requires
            m & !REGION_MASK == 0,
            m1 == board_rotate_90_mask(m),
    ;
    lemma_same_bits_same_board(b2, b3);
}

/// Boards are nothing but their bit-planes: equal masks, equal boards.
proof fn lemma_same_bits_same_board(x: Board, y: Board)
    requires
        x.bits() == y.bits(),
    ensures
        x == y,
{
    assert(x.occupied == y.occupied);
}

} // verus!
