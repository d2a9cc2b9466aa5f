//! The rules that the starting position and the pawn predicates obey,
//! stated over the square-level specification that `Board`'s contracts
//! use, and proved once for every position and square.

use vstd::prelude::*;

use crate::bits::sq_bit;
use crate::board::{
    Board, black_at, black_pawn_capture_ok, black_pawn_move_ok, black_pawn_push_ok, empty_at,
    file_of, on_black_home_rank, on_home_rank, pawn_capture_ok, pawn_push_ok, piece_char, rank_of,
    start_position, white_at, white_pawn_move_ok,
};

verus! {

/// The letter that the standard starting layout puts on square `s`.
pub open spec fn start_piece(s: u64) -> char
    recommends
        s < 64,
{
    if s == 0 || s == 7 {
        'R'
    } else if s == 1 || s == 6 {
        'N'
    } else if s == 2 || s == 5 {
        'B'
    } else if s == 3 {
        'Q'
    } else if s == 4 {
        'K'
    } else if 8 <= s && s < 16 {
        'P'
    } else if 48 <= s && s < 56 {
        'p'
    } else if s == 56 || s == 63 {
        'r'
    } else if s == 57 || s == 62 {
        'n'
    } else if s == 58 || s == 61 {
        'b'
    } else if s == 59 {
        'q'
    } else if s == 60 {
        'k'
    } else {
        '.'
    }
}

/// Which squares each mask of the starting position occupies.
proof fn lemma_start_masks(s: u64)
    by (bit_vector)
    requires
        s < 64,
    ensures
        sq_bit(0x000000000000FF00u64, s) == (8 <= s && s < 16),
        sq_bit(0x0000000000000042u64, s) == (s == 1 || s == 6),
        sq_bit(0x0000000000000024u64, s) == (s == 2 || s == 5),
        sq_bit(0x0000000000000081u64, s) == (s == 0 || s == 7),
        sq_bit(0x0000000000000008u64, s) == (s == 3),
        sq_bit(0x0000000000000010u64, s) == (s == 4),
        sq_bit(0x00FF000000000000u64, s) == (48 <= s && s < 56),
        sq_bit(0x4200000000000000u64, s) == (s == 57 || s == 62),
        sq_bit(0x2400000000000000u64, s) == (s == 58 || s == 61),
        sq_bit(0x8100000000000000u64, s) == (s == 56 || s == 63),
        sq_bit(0x0800000000000000u64, s) == (s == 59),
        sq_bit(0x1000000000000000u64, s) == (s == 60),
{
}

/// Law: every square of the starting position shows exactly the standard
/// chess starting layout.
pub proof fn lemma_start_layout()
    ensures
        forall|s: u64| s < 64 ==> #[trigger] piece_char(start_position(), s) == start_piece(s),
{
    assert forall|s: u64|
        s < 64 implies #[trigger] piece_char(start_position(), s) == start_piece(s) by {
        lemma_start_masks(s);
    }
}

/// Law: in the starting position exactly the squares of the four middle
/// ranks are empty — 32 of the 64 squares.
pub proof fn lemma_start_empty_squares()
    ensures
        forall|s: u64| s < 64 ==> #[trigger] empty_at(start_position(), s) == (16 <= s && s < 48),
{
    assert forall|s: u64|
        s < 64 implies #[trigger] empty_at(start_position(), s) == (16 <= s && s < 48) by {
        lemma_start_masks(s);
    }
}

/// Law: a pawn on its home rank can make the single push exactly when the
/// square directly ahead holds no piece of either side.
pub proof fn lemma_single_push_iff_empty(b: Board, s: u64)
    requires
        on_home_rank(s),
        sq_bit(b.white.pawns, s),
    ensures
        white_pawn_move_ok(b, s, (s + 8) as u64) == empty_at(b, (s + 8) as u64),
{
}

/// Law: a pawn on its home rank can make the double push exactly when both
/// the intermediate and the destination square are empty.
pub proof fn lemma_double_push_iff_clear(b: Board, s: u64)
    requires
        on_home_rank(s),
        sq_bit(b.white.pawns, s),
    ensures
        white_pawn_move_ok(b, s, (s + 16) as u64) == (empty_at(b, (s + 8) as u64) && empty_at(
            b,
            (s + 16) as u64,
        )),
{
}

/// Law: off the home rank the two-rank jump is never legal, whatever the
/// occupancy of the squares ahead.
pub proof fn lemma_no_double_push_off_home(b: Board, s: u64, t: u64)
    requires
        s < 64,
        t < 64,
        !on_home_rank(s),
        t == s + 16,
    ensures
        !white_pawn_move_ok(b, s, t),
{
}

/// Law: a diagonally-forward square is reachable exactly when a black piece
/// stands on it; an empty square there, or one holding a white piece, is
/// never a capture square.
pub proof fn lemma_capture_iff_opponent(b: Board, s: u64)
    requires
        s < 64,
        sq_bit(b.white.pawns, s),
    ensures
        file_of(s) != 7 && s + 9 < 64 ==> white_pawn_move_ok(b, s, (s + 9) as u64) == black_at(
            b,
            (s + 9) as u64,
        ),
        file_of(s) != 0 && s + 7 < 64 ==> white_pawn_move_ok(b, s, (s + 7) as u64) == black_at(
            b,
            (s + 7) as u64,
        ),
{
}

/// Law: the diagonal shifts never carry a move across the board edge — a
/// pawn on the h-file has no capture toward the h-side wrap square, and a
/// pawn on the a-file none toward the a-side wrap square, whatever stands
/// anywhere on the board.
pub proof fn lemma_no_edge_wrap(b: Board, s: u64)
    requires
        s < 64,
    ensures
        file_of(s) == 7 ==> !white_pawn_move_ok(b, s, (s + 9) as u64),
        file_of(s) == 0 ==> !white_pawn_move_ok(b, s, (s + 7) as u64),
{
}

/// Law: a target on the pawn's own rank or on a rank behind it is never
/// reachable, whatever the occupancy.
pub proof fn lemma_no_sideways_or_backward(b: Board, s: u64, t: u64)
    requires
        s < 64,
        t < 64,
        rank_of(t) <= rank_of(s),
    ensures
        !white_pawn_move_ok(b, s, t),
{
    assert((t == s + 8 || t == s + 16 || t == s + 9 || (s % 8 != 0 && t == s + 7)) ==> t / 8 > s
        / 8)
        by (bit_vector)
        requires
            s < 64,
            t < 64,
    ;
    assert(!pawn_push_ok(b, s, t));
    assert(!pawn_capture_ok(b, s, t));
}

/// Law: a black pawn on its home rank can make the single push exactly
/// when the square directly below holds no piece of either side.
pub proof fn lemma_black_single_push_iff_empty(b: Board, s: u64)
    requires
        on_black_home_rank(s),
        sq_bit(b.black.pawns, s),
    ensures
        black_pawn_move_ok(b, s, (s - 8) as u64) == empty_at(b, (s - 8) as u64),
{
}

/// Law: a black pawn on its home rank can make the double push exactly
/// when both the intermediate and the destination square are empty.
pub proof fn lemma_black_double_push_iff_clear(b: Board, s: u64)
    requires
        on_black_home_rank(s),
        sq_bit(b.black.pawns, s),
    ensures
        black_pawn_move_ok(b, s, (s - 16) as u64) == (empty_at(b, (s - 8) as u64) && empty_at(
            b,
            (s - 16) as u64,
        )),
{
}

/// Law: off its home rank the black two-rank jump is never legal,
/// whatever the occupancy of the squares below.
pub proof fn lemma_black_no_double_push_off_home(b: Board, s: u64, t: u64)
    requires
        s < 64,
        t < 64,
        !on_black_home_rank(s),
        t + 16 == s,
    ensures
        !black_pawn_move_ok(b, s, t),
{
}

/// Law: a diagonally-downward square is reachable for a black pawn
/// exactly when a white piece stands on it.
pub proof fn lemma_black_capture_iff_opponent(b: Board, s: u64)
    requires
        s < 64,
        sq_bit(b.black.pawns, s),
    ensures
        file_of(s) != 0 && s >= 9 ==> black_pawn_move_ok(b, s, (s - 9) as u64) == white_at(
            b,
            (s - 9) as u64,
        ),
        file_of(s) != 7 && s >= 7 ==> black_pawn_move_ok(b, s, (s - 7) as u64) == white_at(
            b,
            (s - 7) as u64,
        ),
{
}

/// Law: the black diagonal shifts never carry a move across the board
/// edge, whatever stands anywhere on the board.
pub proof fn lemma_black_no_edge_wrap(b: Board, s: u64)
    requires
        s < 64,
    ensures
        file_of(s) == 0 && s >= 9 ==> !black_pawn_move_ok(b, s, (s - 9) as u64),
        file_of(s) == 7 && s >= 7 ==> !black_pawn_move_ok(b, s, (s - 7) as u64),
{
}

/// Law: a target on the black pawn's own rank or on a rank above it is
/// never reachable, whatever the occupancy.
pub proof fn lemma_black_no_sideways_or_backward(b: Board, s: u64, t: u64)
    requires
        s < 64,
        t < 64,
        rank_of(t) >= rank_of(s),
    ensures
        !black_pawn_move_ok(b, s, t),
{
    assert((t + 8 == s || t + 16 == s || t + 9 == s || (s % 8 != 7 && t + 7 == s)) ==> t / 8 < s
        / 8)
        by (bit_vector)
        requires
            s < 64,
            t < 64,
    ;
    assert(!black_pawn_push_ok(b, s, t));
    assert(!black_pawn_capture_ok(b, s, t));
}

} // verus!
