use bitboard::board::Board;

#[test]
fn test_start_layout_all_squares() {
    let board = Board::new();
    let expected: Vec<char> =
        "RNBQKBNRPPPPPPPP................................pppppppprnbqkbnr".chars().collect();
    for square in 0..64 {
        assert_eq!(
            board.piece_at(square),
            expected[square],
            "wrong piece on square {}",
            square
        );
    }
}

#[test]
fn test_start_empty_has_32_squares() {
    let board = Board::new();
    let empty = board.empty();
    assert_eq!(empty.count_ones(), 32);
    // the four middle ranks, squares 16..48
    assert_eq!(empty, 0x0000FFFFFFFF0000);
}

#[test]
fn test_single_push_blocked_by_black_piece() {
    let mut board = Board::new();
    let pawn: u64 = 1 << 12; // e2
    board.white.pawns |= pawn;
    board.black.knights |= 1 << 20; // black piece on e3

    assert!(!board.white_pawn_legal(pawn, 1 << 20), "square ahead is occupied by black");
}

#[test]
fn test_double_push_blocked_at_destination() {
    let mut board = Board::new();
    let pawn: u64 = 1 << 12; // e2
    board.white.pawns |= pawn;
    board.black.knights |= 1 << 28; // black piece on e4

    assert!(board.white_pawn_legal(pawn, 1 << 20), "e3 is still free");
    assert!(!board.white_pawn_legal(pawn, 1 << 28), "the destination square is occupied");
}

#[test]
fn test_double_push_only_from_home_rank() {
    let mut board = Board::new();
    let pawn: u64 = 1 << 28; // e4, off the home rank
    board.white.pawns |= pawn;

    // both squares ahead (e5, e6) are empty, yet the two-rank jump is illegal
    assert!(board.white_pawn_legal(pawn, 1 << 36), "single push stays legal");
    assert!(!board.white_pawn_legal(pawn, 1 << 44), "no double push off the home rank");
}

#[test]
fn test_capture_toward_both_files() {
    let mut board = Board::new();
    let pawn: u64 = 1 << 28; // e4
    board.white.pawns |= pawn;
    board.black.rooks |= 1 << 37; // f5
    board.black.rooks |= 1 << 35; // d5

    assert!(board.white_pawn_legal(pawn, 1 << 37), "capture toward the h-file");
    assert!(board.white_pawn_legal(pawn, 1 << 35), "capture toward the a-file");
}

#[test]
fn test_no_capture_on_own_piece() {
    let mut board = Board::new();
    let pawn: u64 = 1 << 28; // e4
    board.white.pawns |= pawn;
    board.white.knights |= 1 << 37; // own piece on f5

    assert!(!board.white_pawn_legal(pawn, 1 << 37), "a diagonal square with an own piece");
}

#[test]
fn test_no_wrap_from_h_file() {
    let mut board = Board::new();
    let pawn: u64 = 1 << 31; // h4
    board.white.pawns |= pawn;
    board.black.rooks |= 1 << 40; // a6, the square a shift overflow would reach

    assert!(!board.white_pawn_legal(pawn, 1 << 40), "no capture from the h-file onto the a-file");
}

#[test]
fn test_no_wrap_from_a_file() {
    let mut board = Board::new();
    let pawn: u64 = 1 << 24; // a4
    board.white.pawns |= pawn;
    board.black.rooks |= 1 << 31; // h4, the square a shift underflow would reach

    assert!(!board.white_pawn_legal(pawn, 1 << 31), "no capture from the a-file onto the h-file");
}

#[test]
fn test_no_sideways_or_backward_moves() {
    let mut board = Board::new();
    let pawn: u64 = 1 << 28; // e4
    board.white.pawns |= pawn;

    assert!(!board.white_pawn_legal(pawn, 1 << 27), "sideways toward the a-file");
    assert!(!board.white_pawn_legal(pawn, 1 << 29), "sideways toward the h-file");
    assert!(!board.white_pawn_legal(pawn, 1 << 20), "straight backward");
    assert!(!board.white_pawn_legal(pawn, 1 << 19), "diagonally backward");
}

#[test]
fn test_missing_pawn_is_never_legal() {
    let board = Board::new();
    let pawn: u64 = 1 << 28; // e4 holds no white pawn in the starting position

    assert!(!board.white_pawn_legal(pawn, 1 << 36), "no white pawn stands on the queried square");
}
