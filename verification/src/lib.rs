//! A peg-solitaire playing surface held as a packed 64-bit plane over an
//! 8x8 grid, with the eight symmetries of the square (mirrors and rotations)
//! defined so that the playable cross-shaped region stays aligned with its
//! own coordinate frame.

pub mod bitboard;
pub mod board;
pub mod square;

pub use bitboard::Bitboard;
pub use board::Board;
pub use square::Square;
