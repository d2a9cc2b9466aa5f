use bitboard::board::Board;

#[test]
fn test_white_pawn_single_push() {
    // Create a new board where the pawn is on the 2nd rank (e2)
    let mut board = Board::new();
    let pawn: u64 = 1 << 12; // Pawn at e2 (bit 12)
    board.white.pawns |= pawn; // Place the white pawn on e2

    // The target square is e3 (bit 20)
    let target_e3: u64 = 1 << 20;

    assert!(board.white_pawn_legal(pawn, target_e3), "Pawn should be able to move to e3");
}

#[test]
fn test_white_pawn_double_push() {
    // Create a new board where the pawn is on the 2nd rank (e2)
    let mut board = Board::new();
    let pawn: u64 = 1 << 12; // Pawn at e2 (bit 12)
    board.white.pawns |= pawn; // Place the white pawn on e2

    // The target square is e4 (bit 28)
    let target_e4: u64 = 1 << 28;

    assert!(board.white_pawn_legal(pawn, target_e4), "Pawn should be able to double push to e4");
}

#[test]
fn test_white_pawn_attack() {
    // Create a new board where the pawn is on the 5th rank (e5)
    let mut board = Board::new();
    let pawn: u64 = 1 << 28; // Pawn at e5 (bit 28)
    let black_piece: u64 = 1 << 35; // Black piece at f6 (bit 35)
    board.white.pawns |= pawn; // Place the white pawn on e5
    board.black.pawns |= black_piece; // Place a black piece on f6

    // The target square is f6 (bit 35)
    let target_f6: u64 = 1 << 35;

    assert!(board.white_pawn_legal(pawn, target_f6), "Pawn should be able to capture on f6");
}

#[test]
fn test_white_pawn_blocked_single_push() {
    // Create a new board where the pawn is on the 2nd rank (e2)
    let mut board = Board::new();
    let pawn: u64 = 1 << 12; // Pawn at e2 (bit 12)
    let blocking_piece: u64 = 1 << 20; // Another piece is blocking at e3 (bit 20)
    board.white.pawns |= pawn; // Place the white pawn on e2
    board.white.pawns |= blocking_piece; // Place a white piece on e3

    // The target square is e3 (bit 20)
    let target_e3: u64 = 1 << 20;

    assert!(
        !board.white_pawn_legal(pawn, target_e3),
        "Pawn should NOT be able to move to e3 because it's blocked"
    );
}

#[test]
fn test_white_pawn_blocked_double_push() {
    // Create a new board where the pawn is on the 2nd rank (e2)
    let mut board = Board::new();
    let pawn: u64 = 1 << 12; // Pawn at e2 (bit 12)
    let blocking_piece: u64 = 1 << 20; // Another piece is blocking at e3 (bit 20)
    board.white.pawns |= pawn; // Place the white pawn on e2
    board.white.pawns |= blocking_piece; // Place a white piece on e3

    // The target square is e4 (bit 28)
    let target_e4: u64 = 1 << 28;

    assert!(
        !board.white_pawn_legal(pawn, target_e4),
        "Pawn should NOT be able to double push to e4 because it's blocked"
    );
}

#[test]
fn test_white_pawn_invalid_attack() {
    // Create a new board where the pawn is on the 5th rank (e5)
    let mut board = Board::new();
    let pawn: u64 = 1 << 28; // Pawn at e5 (bit 28)
    let black_piece: u64 = 1 << 36; // Black piece at g6 (bit 36)
    board.white.pawns |= pawn; // Place the white pawn on e5
    board.black.pawns |= black_piece; // Place a black piece on g6

    // The target square is f6 (bit 35), but no black piece is there
    let target_f6: u64 = 1 << 35;

    assert!(
        !board.white_pawn_legal(pawn, target_f6),
        "Pawn should NOT be able to capture on f6 because no black piece is there"
    );
}

#[test]
fn test_white_pawn_illegal_move() {
    // Create a new board where the pawn is on the 5th rank (e5)
    let mut board = Board::new();
    let pawn: u64 = 1 << 28; // Pawn at e5 (bit 28)
    board.white.pawns |= pawn; // Place the white pawn on e5

    // The target square is f5 (bit 29), which is an illegal move as it's not a valid forward move or capture
    let target_f5: u64 = 1 << 29;

    assert!(!board.white_pawn_legal(pawn, target_f5), "Pawn should NOT be able to move to f5");
}
