use bitboard::board::Board;

#[test]
fn test_knight_jumps_from_start() {
    let board = Board::new();
    let knight: u64 = 1 << 1; // b1

    assert!(board.white_knight_legal(knight, 1 << 16), "b1 to a3");
    assert!(board.white_knight_legal(knight, 1 << 18), "b1 to c3");
    assert!(!board.white_knight_legal(knight, 1 << 11), "d2 holds an own pawn");
    assert!(!board.white_knight_legal(knight, 1 << 17), "b3 is no knight jump");
}

#[test]
fn test_knight_no_wrap_at_board_edge() {
    let mut board = Board::new();
    board.white.knights |= 1 << 31; // h4

    assert!(board.white_knight_legal(1 << 31, 1 << 46), "h4 to g6");
    // index distance 10 from h4 lands on b6, across the board edge
    assert!(!board.white_knight_legal(1 << 31, 1 << 41), "no jump from the h-file to the b-file");
}

#[test]
fn test_knight_absent_square() {
    let board = Board::new();

    assert!(!board.white_knight_legal(1 << 20, 1 << 35), "no white knight stands on e3");
}

#[test]
fn test_king_steps() {
    let mut board = Board::new();
    board.white.king = 1 << 28; // e4

    assert!(board.white_king_legal(1 << 28, 1 << 36), "e4 to e5");
    assert!(board.white_king_legal(1 << 28, 1 << 27), "e4 to d4");
    assert!(board.white_king_legal(1 << 28, 1 << 37), "e4 to f5");
    assert!(!board.white_king_legal(1 << 28, 1 << 44), "e6 is two ranks away");
}

#[test]
fn test_king_blocked_by_own_piece() {
    let board = Board::new();
    let king: u64 = 1 << 4; // e1

    assert!(!board.white_king_legal(king, 1 << 12), "e2 holds an own pawn");
    assert!(!board.white_king_legal(king, 1 << 3), "d1 holds the own queen");
}

#[test]
fn test_rook_slides_and_captures() {
    let mut board = Board::new();
    board.white.rooks |= 1 << 24; // a4

    assert!(board.white_rook_legal(1 << 24, 1 << 40), "a4 to a6 over the empty a5");
    assert!(board.white_rook_legal(1 << 24, 1 << 31), "a4 to h4 along the empty rank");
    assert!(board.white_rook_legal(1 << 24, 1 << 48), "a4 takes the black pawn on a7");
    assert!(!board.white_rook_legal(1 << 24, 1 << 56), "a8 lies behind the black pawn on a7");
    assert!(!board.white_rook_legal(1 << 24, 1 << 8), "a2 holds an own pawn");
    assert!(!board.white_rook_legal(1 << 24, 1 << 33), "b5 is on no rook line");
}

#[test]
fn test_rook_blocked_on_rank() {
    let mut board = Board::new();
    board.white.rooks |= 1 << 24; // a4
    board.white.knights |= 1 << 26; // c4

    assert!(!board.white_rook_legal(1 << 24, 1 << 28), "e4 lies behind the own knight on c4");
    assert!(board.white_rook_legal(1 << 24, 1 << 25), "b4 is still reachable");
}

#[test]
fn test_bishop_slides_and_captures() {
    let mut board = Board::new();
    board.white.bishops |= 1 << 28; // e4

    assert!(board.white_bishop_legal(1 << 28, 1 << 46), "e4 to g6 over the empty f5");
    assert!(board.white_bishop_legal(1 << 28, 1 << 55), "e4 takes the black pawn on h7");
    assert!(board.white_bishop_legal(1 << 28, 1 << 42), "e4 to c6 over the empty d5");
    assert!(!board.white_bishop_legal(1 << 28, 1 << 56), "a8 lies behind the black pawn on b7");
    assert!(!board.white_bishop_legal(1 << 28, 1 << 29), "f4 is on no diagonal");
}

#[test]
fn test_queen_slides_in_all_directions() {
    let mut board = Board::new();
    board.white.queens |= 1 << 28; // e4

    assert!(board.white_queen_legal(1 << 28, 1 << 20), "e4 back to e3 along the file");
    assert!(board.white_queen_legal(1 << 28, 1 << 30), "e4 to g4 along the rank");
    assert!(board.white_queen_legal(1 << 28, 1 << 49), "e4 takes the black pawn on b7");
    assert!(board.white_queen_legal(1 << 28, 1 << 19), "e4 to d3 along the diagonal");
    assert!(!board.white_queen_legal(1 << 28, 1 << 60), "e8 lies behind the black pawn on e7");
    assert!(!board.white_queen_legal(1 << 28, 1 << 45), "f6 is a knight jump, no queen line");
    assert!(!board.white_queen_legal(1 << 28, 1 << 12), "e2 holds an own pawn");
}

#[test]
fn test_black_pawn_pushes() {
    let board = Board::new();
    let pawn: u64 = 1 << 52; // e7

    assert!(board.black_pawn_legal(pawn, 1 << 44), "e7 down to e6");
    assert!(board.black_pawn_legal(pawn, 1 << 36), "e7 double push to e5");
    assert!(!board.black_pawn_legal(pawn, 1 << 60), "a pawn never moves backward");
}

#[test]
fn test_black_pawn_double_push_blocked() {
    let mut board = Board::new();
    let pawn: u64 = 1 << 52; // e7
    board.white.knights |= 1 << 44; // white piece on e6

    assert!(!board.black_pawn_legal(pawn, 1 << 44), "e6 is occupied");
    assert!(!board.black_pawn_legal(pawn, 1 << 36), "the double push runs through e6");
}

#[test]
fn test_black_pawn_captures() {
    let mut board = Board::new();
    let pawn: u64 = 1 << 36; // e5
    board.black.pawns |= pawn;
    board.white.rooks |= 1 << 27; // d4

    assert!(board.black_pawn_legal(pawn, 1 << 27), "e5 takes on d4");
    assert!(!board.black_pawn_legal(pawn, 1 << 29), "f4 is empty, no capture");
}

#[test]
fn test_black_pawn_no_wrap_from_a_file() {
    let mut board = Board::new();
    let pawn: u64 = 1 << 32; // a5
    board.black.pawns |= pawn;
    board.white.rooks |= 1 << 23; // h3, the square a shift overflow would reach

    assert!(!board.black_pawn_legal(pawn, 1 << 23), "no capture from the a-file onto the h-file");
}

#[test]
fn test_black_pieces_move_like_white_ones() {
    let mut board = Board::new();
    board.black.knights |= 1 << 36; // e5
    board.black.rooks |= 1 << 32; // a5
    board.black.king = 1 << 35; // d5
    board.black.bishops |= 1 << 26; // c4
    board.black.queens |= 1 << 31; // h4

    assert!(board.black_knight_legal(1 << 36, 1 << 21), "knight e5 to f3");
    assert!(!board.black_knight_legal(1 << 36, 1 << 51), "d7 holds an own pawn");
    assert!(board.black_rook_legal(1 << 32, 1 << 8), "rook a5 takes the white pawn on a2");
    assert!(!board.black_rook_legal(1 << 32, 1 << 0), "a1 lies behind the white pawn on a2");
    assert!(board.black_king_legal(1 << 35, 1 << 28), "king d5 to e4");
    assert!(!board.black_king_legal(1 << 35, 1 << 32), "a5 is no king step away");
    assert!(board.black_bishop_legal(1 << 26, 1 << 12), "bishop c4 takes the white pawn on e2");
    assert!(!board.black_bishop_legal(1 << 26, 1 << 5), "f1 lies behind the white pawn on e2");
    assert!(board.black_queen_legal(1 << 31, 1 << 15), "queen h4 takes the white pawn on h2");
    assert!(!board.black_queen_legal(1 << 31, 1 << 7), "h1 lies behind the white pawn on h2");
}
