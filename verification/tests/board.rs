use soliboard::Bitboard;
use soliboard::Board;
use soliboard::Square;

/// The cell at the given file (column) and rank (row), both counted from 0.
fn sq(file: u8, rank: u8) -> Square {
    Square::from_coords(file, rank)
}

/// Whether the cell at rank `r` and file `c` lies in the playable region.
fn region_has(r: u8, c: u8) -> bool {
    (2 <= r && r <= 4 && 1 <= c && c <= 7)
        || ((r == 1 || r == 5) && 2 <= c && c <= 6)
        || ((r == 0 || r == 6) && 3 <= c && c <= 5)
}

#[test]
fn test_piece_at() {
    let board = Board::new();
    assert!(!board.occupied_at(sq(0, 0)));
    assert!(!board.occupied_at(sq(0, 1)));
    assert!(!board.occupied_at(sq(0, 2)));
    assert!(!board.occupied_at(sq(0, 3)));
    assert!(!board.occupied_at(sq(0, 4)));
    assert!(!board.occupied_at(sq(0, 5)));
    assert!(!board.occupied_at(sq(0, 6)));
    assert!(!board.occupied_at(sq(0, 7)));
    assert!(!board.occupied_at(sq(1, 0)));
    assert!(!board.occupied_at(sq(1, 1)));
    assert!(!board.occupied_at(sq(2, 0)));
    assert!(!board.occupied_at(sq(2, 0)));
    assert!(board.occupied_at(sq(2, 1)));
    assert!(board.occupied_at(sq(3, 0)));
    assert!(board.occupied_at(sq(3, 1)));
}

#[test]
fn test_set_piece_at() {
    let mut board = Board::new();
    board.occupy(sq(3, 2));
    assert!(board.occupied_at(sq(3, 2)));
}

#[test]
fn test_board_transformation() {
    let compare_trans = |board1: &Board, trans: &dyn Fn(&mut Board), board2: &Board| {
        let mut board_trans = board1.clone();
        trans(&mut board_trans);
        assert_eq!(board_trans, board2.clone());
    };

    let mut board1: Board = Board::new();
    board1.remove_at(sq(3, 3));
    board1.remove_at(sq(3, 2));
    let mut board2: Board = Board::new();
    board2.remove_at(sq(3, 3));
    board2.remove_at(sq(3, 4));
    compare_trans(&board1, &Board::flip_vertical, &board2);

    let mut board1: Board = Board::new();
    board1.remove_at(sq(3, 3));
    board1.remove_at(sq(4, 3));
    let mut board2: Board = Board::new();
    board2.remove_at(sq(4, 3));
    board2.remove_at(sq(5, 3));
    compare_trans(&board1, &Board::flip_horizontal, &board2);

    let mut board1: Board = Board::new();
    board1.remove_at(sq(3, 3));
    board1.remove_at(sq(4, 4));
    let mut board2: Board = Board::new();
    board2.remove_at(sq(4, 2));
    board2.remove_at(sq(5, 3));
    compare_trans(&board1, &Board::flip_diagonal, &board2);

    let mut board1: Board = Board::new();
    board1.remove_at(sq(3, 3));
    board1.remove_at(sq(4, 2));
    let mut board2: Board = Board::new();
    board2.remove_at(sq(5, 3));
    board2.remove_at(sq(4, 4));
    compare_trans(&board1, &Board::flip_anti_diagonal, &board2);

    let mut board1: Board = Board::new();
    board1.remove_at(sq(3, 3));
    board1.remove_at(sq(3, 4));
    let mut board2: Board = Board::new();
    board2.remove_at(sq(4, 4));
    board2.remove_at(sq(5, 4));
    compare_trans(&board1, &Board::rotate_90, &board2);

    let mut board2: Board = Board::new();
    board2.remove_at(sq(5, 3));
    board2.remove_at(sq(5, 2));
    compare_trans(&board1, &Board::rotate_180, &board2);

    let mut board2: Board = Board::new();
    board2.remove_at(sq(4, 2));
    board2.remove_at(sq(3, 2));
    compare_trans(&board1, &Board::rotate_270, &board2);
}

#[test]
fn test_starting_layout() {
    let board = Board::new();
    for r in 0..8u8 {
        for c in 0..8u8 {
            let expected = region_has(r, c) && !(r == 3 && c == 4);
            assert_eq!(board.occupied_at(sq(c, r)), expected);
        }
    }
}

#[test]
fn test_empty_board() {
    let board = Board::empty();
    for r in 0..8u8 {
        for c in 0..8u8 {
            assert!(!board.occupied_at(sq(c, r)));
        }
    }
}

#[test]
fn test_occupy_outside_region_is_noop() {
    for r in 0..8u8 {
        for c in 0..8u8 {
            if region_has(r, c) {
                continue;
            }
            let mut full = Board::new();
            let before = full.clone();
            assert!(!full.occupied_at(sq(c, r)));
            full.occupy(sq(c, r));
            assert!(!full.occupied_at(sq(c, r)));
            assert_eq!(full, before);

            let mut blank = Board::empty();
            let before = blank.clone();
            assert!(!blank.occupied_at(sq(c, r)));
            blank.occupy(sq(c, r));
            assert!(!blank.occupied_at(sq(c, r)));
            assert_eq!(blank, before);
        }
    }
}

#[test]
fn test_occupy_region_cell() {
    let mut board = Board::empty();
    board.occupy(sq(3, 3));
    assert!(board.occupied_at(sq(3, 3)));
    let once = board.clone();
    board.occupy(sq(3, 3));
    assert!(board.occupied_at(sq(3, 3)));
    assert_eq!(board, once);
}

#[test]
fn test_remove_at_reports_and_clears() {
    let mut board = Board::new();
    assert!(board.occupied_at(sq(3, 3)));
    assert!(board.remove_at(sq(3, 3)));
    assert!(!board.occupied_at(sq(3, 3)));
    let cleared = board.clone();
    assert!(!board.remove_at(sq(3, 3)));
    assert!(!board.occupied_at(sq(3, 3)));
    assert_eq!(board, cleared);
    assert!(!board.remove_at(sq(0, 0)));
}

#[test]
fn test_discard_at_idempotent() {
    let mut board = Board::new();
    board.discard_at(sq(4, 2));
    assert!(!board.occupied_at(sq(4, 2)));
    let once = board.clone();
    board.discard_at(sq(4, 2));
    assert_eq!(board, once);
}

#[test]
fn test_transform_round_trips() {
    let mut base = Board::new();
    base.remove_at(sq(3, 3));
    base.remove_at(sq(2, 2));

    let mut board = base.clone();
    board.flip_vertical();
    board.flip_vertical();
    assert_eq!(board, base);

    let mut board = base.clone();
    board.flip_horizontal();
    board.flip_horizontal();
    assert_eq!(board, base);

    let mut board = base.clone();
    board.flip_diagonal();
    board.flip_diagonal();
    assert_eq!(board, base);

    let mut board = base.clone();
    board.flip_anti_diagonal();
    board.flip_anti_diagonal();
    assert_eq!(board, base);

    let mut board = base.clone();
    board.rotate_90();
    board.rotate_270();
    assert_eq!(board, base);

    let mut board = base.clone();
    board.rotate_270();
    board.rotate_90();
    assert_eq!(board, base);

    let mut board = base.clone();
    board.rotate_180();
    board.rotate_180();
    assert_eq!(board, base);
}

#[test]
fn test_rotate_90_twice_matches_rotate_180() {
    let mut base = Board::new();
    base.remove_at(sq(1, 3));
    base.remove_at(sq(4, 5));

    let mut twice = base.clone();
    twice.rotate_90();
    twice.rotate_90();
    let mut half = base.clone();
    half.rotate_180();
    assert_eq!(twice, half);
}

#[test]
fn test_render_starting_layout() {
    let board = Board::new();
    let expected: Vec<u8> = b". . . . . . . .\n\
                              . . . o o o . .\n\
                              . . o o o o o .\n\
                              . o o o o o o o\n\
                              . o o o . o o o\n\
                              . o o o o o o o\n\
                              . . o o o o o .\n\
                              . . . o o o . .\n"
        .to_vec();
    assert_eq!(board.render(), expected);
}

#[test]
fn test_bitboard_membership() {
    let mut plane = Bitboard(0);
    assert!(!plane.contains(sq(6, 1)));
    plane.toggle(sq(6, 1));
    assert!(plane.contains(sq(6, 1)));
    plane.toggle(sq(6, 1));
    assert!(!plane.contains(sq(6, 1)));
    plane.toggle(sq(6, 1));
    plane.discard(sq(6, 1));
    assert!(!plane.contains(sq(6, 1)));
    plane.discard(sq(6, 1));
    assert!(!plane.contains(sq(6, 1)));
}

#[test]
fn test_bitboard_transforms() {
    let mut plane = Bitboard(0);
    plane.toggle(sq(3, 5));

    let flipped = plane.flip_vertical();
    assert!(flipped.contains(sq(3, 2)));
    assert!(!flipped.contains(sq(3, 5)));

    let mirrored = plane.flip_horizontal();
    assert!(mirrored.contains(sq(4, 5)));

    let transposed = plane.flip_diagonal();
    assert!(transposed.contains(sq(5, 3)));

    let anti = plane.flip_anti_diagonal();
    assert!(anti.contains(sq(2, 4)));

    let quarter = plane.rotate_90();
    assert!(quarter.contains(sq(5, 4)));

    let half = plane.rotate_180();
    assert!(half.contains(sq(4, 2)));

    let back = plane.rotate_270();
    assert!(back.contains(sq(2, 3)));
}

#[test]
fn test_square_coords() {
    let cell = sq(6, 2);
    assert_eq!(cell.file(), 6);
    assert_eq!(cell.rank(), 2);
    assert_eq!(cell.index(), 22);
}

#[test]
fn test_default_is_starting_layout() {
    assert_eq!(Board::default(), Board::new());
}
