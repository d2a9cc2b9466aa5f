//! The position itself: six occupancy masks per side, derived occupancy,
//! and the pseudo-legal move predicate of each piece kind for both sides.

use vstd::prelude::*;

use crate::bits::{sq_bit, is_single_bit, square_of, lemma_mask_test};

verus! {

/// Mask of the fourth rank, the only rank a white pawn can reach by a
/// double push.
pub const RANK_4_MASK: u64 = 0x00000000FF000000;

/// Mask of the fifth rank, the only rank a black pawn can reach by a
/// double push.
pub const RANK_5_MASK: u64 = 0x000000FF00000000;

/// Mask of every square outside the a-file. Applied after the shift that
/// moves one rank up and one file toward the h-file, it removes results
/// that wrapped from the h-file onto the a-file.
pub const NOT_A_FILE: u64 = 0xFEFEFEFEFEFEFEFE;

/// Mask of every square outside the h-file. Applied after the shift that
/// moves one rank up and one file toward the a-file, it removes results
/// that wrapped from the a-file onto the h-file.
pub const NOT_H_FILE: u64 = 0x7F7F7F7F7F7F7F7F;

/// Mask of every square outside the a- and b-files. Applied after a shift
/// that moves two files toward the h-file.
pub const NOT_AB_FILES: u64 = 0xFCFCFCFCFCFCFCFC;

/// Mask of every square outside the g- and h-files. Applied after a shift
/// that moves two files toward the a-file.
pub const NOT_GH_FILES: u64 = 0x3F3F3F3F3F3F3F3F;

/// The rank (0-based, rank 1 of the board is 0) of a square index.
pub open spec fn rank_of(s: u64) -> u64 {
    s / 8
}

/// The file (0-based, 0 = a-file) of a square index.
pub open spec fn file_of(s: u64) -> u64 {
    s % 8
}

/// Whether `s` lies on the second rank, where every white pawn starts;
/// only from there may a pawn advance two ranks at once.
pub open spec fn on_home_rank(s: u64) -> bool {
    8 <= s && s < 16
}

/// Whether `s` lies on the seventh rank, where every black pawn starts.
pub open spec fn on_black_home_rank(s: u64) -> bool {
    48 <= s && s < 56
}

/// The occupancy of one side: one mask per piece kind.
pub struct Pieces {
    pub pawns: u64,
    pub king: u64,
    pub queens: u64,
    pub knights: u64,
    pub rooks: u64,
    pub bishops: u64,
}

/// A chess position: the occupancy masks of both sides.
pub struct Board {
    pub white: Pieces,
    pub black: Pieces,
}

/// The distance between two ranks or two files.
pub open spec fn dist(a: u64, b: u64) -> int {
    if a < b {
        b - a
    } else {
        a - b
    }
}

/// Whether any of the six masks of one side occupies square `s`.
pub open spec fn side_at(p: Pieces, s: u64) -> bool {
    sq_bit(p.pawns, s) || sq_bit(p.knights, s) || sq_bit(p.bishops, s) || sq_bit(p.rooks, s)
        || sq_bit(p.queens, s) || sq_bit(p.king, s)
}

/// Whether a white piece stands on square `s`.
pub open spec fn white_at(b: Board, s: u64) -> bool {
    side_at(b.white, s)
}

/// Whether a black piece stands on square `s`.
pub open spec fn black_at(b: Board, s: u64) -> bool {
    side_at(b.black, s)
}

/// Whether square `s` holds no piece of either side.
pub open spec fn empty_at(b: Board, s: u64) -> bool {
    !white_at(b, s) && !black_at(b, s)
}

/// The standard starting position as fixed masks.
pub open spec fn start_position() -> Board {
    Board {
        white: Pieces {
            pawns: 0x000000000000FF00u64,
            king: 0x0000000000000010u64,
            queens: 0x0000000000000008u64,
            knights: 0x0000000000000042u64,
            rooks: 0x0000000000000081u64,
            bishops: 0x0000000000000024u64,
        },
        black: Pieces {
            pawns: 0x00FF000000000000u64,
            king: 0x1000000000000000u64,
            queens: 0x0800000000000000u64,
            knights: 0x4200000000000000u64,
            rooks: 0x8100000000000000u64,
            bishops: 0x2400000000000000u64,
        },
    }
}

/// The letter shown for square `s` of position `b`: upper case for white,
/// lower case for black, a dot for an empty square, each side checked in
/// the fixed order pawns, knights, bishops, rooks, queens, king.
pub open spec fn piece_char(b: Board, s: u64) -> char
    recommends
        s < 64,
{
    if sq_bit(b.white.pawns, s) {
        'P'
    } else if sq_bit(b.white.knights, s) {
        'N'
    } else if sq_bit(b.white.bishops, s) {
        'B'
    } else if sq_bit(b.white.rooks, s) {
        'R'
    } else if sq_bit(b.white.queens, s) {
        'Q'
    } else if sq_bit(b.white.king, s) {
        'K'
    } else if sq_bit(b.black.pawns, s) {
        'p'
    } else if sq_bit(b.black.knights, s) {
        'n'
    } else if sq_bit(b.black.bishops, s) {
        'b'
    } else if sq_bit(b.black.rooks, s) {
        'r'
    } else if sq_bit(b.black.queens, s) {
        'q'
    } else if sq_bit(b.black.king, s) {
        'k'
    } else {
        '.'
    }
}

/// Whether the push mask derived from `empty` reaches square `t` for a
/// white pawn standing on square `s`: one rank ahead onto an empty square,
/// or two ranks ahead from the home rank with both squares empty.
pub open spec fn push_target(s: u64, empty: u64, t: u64) -> bool
    recommends
        s < 64,
        t < 64,
{
    sq_bit(empty, t) && (t == s + 8 || (on_home_rank(s) && t == s + 16 && sq_bit(
        empty,
        (s + 8) as u64,
    )))
}

/// Whether the capture mask derived from `black` reaches square `t` for a
/// white pawn standing on square `s`: one rank ahead and one file aside,
/// never across the board edge, and only onto a black piece.
pub open spec fn capture_target(s: u64, black: u64, t: u64) -> bool
    recommends
        s < 64,
        t < 64,
{
    sq_bit(black, t) && ((file_of(s) != 7 && t == s + 9) || (file_of(s) != 0 && t == s + 7))
}

/// Whether a white pawn standing on square `s` of position `b` may push to
/// square `t`.
pub open spec fn pawn_push_ok(b: Board, s: u64, t: u64) -> bool {
    t < 64 && empty_at(b, t) && (t == s + 8 || (on_home_rank(s) && t == s + 16 && empty_at(
        b,
        (s + 8) as u64,
    )))
}

/// Whether a white pawn standing on square `s` of position `b` may capture
/// on square `t`.
pub open spec fn pawn_capture_ok(b: Board, s: u64, t: u64) -> bool {
    t < 64 && black_at(b, t) && ((file_of(s) != 7 && t == s + 9) || (file_of(s) != 0 && t == s
        + 7))
}

/// Whether the move from square `s` to square `t` is pseudo-legal for a
/// white pawn in position `b`: a white pawn stands on `s`, and `t` is a
/// push or a capture square for it.
pub open spec fn white_pawn_move_ok(b: Board, s: u64, t: u64) -> bool {
    sq_bit(b.white.pawns, s) && (pawn_push_ok(b, s, t) || pawn_capture_ok(b, s, t))
}

/// Whether the push mask derived from `empty` reaches square `t` for a
/// black pawn standing on square `s`: one rank down onto an empty square,
/// or two ranks down from the seventh rank with both squares empty.
pub open spec fn black_push_target(s: u64, empty: u64, t: u64) -> bool
    recommends
        s < 64,
        t < 64,
{
    sq_bit(empty, t) && (t + 8 == s || (on_black_home_rank(s) && t + 16 == s && sq_bit(
        empty,
        (t + 8) as u64,
    )))
}

/// Whether the capture mask derived from `white` reaches square `t` for a
/// black pawn standing on square `s`: one rank down and one file aside,
/// never across the board edge, and only onto a white piece.
pub open spec fn black_capture_target(s: u64, white: u64, t: u64) -> bool
    recommends
        s < 64,
        t < 64,
{
    sq_bit(white, t) && ((file_of(s) != 0 && t + 9 == s) || (file_of(s) != 7 && t + 7 == s))
}

/// Whether a black pawn standing on square `s` of position `b` may push to
/// square `t`: one rank down onto an empty square, or two ranks down from
/// the seventh rank with both squares empty.
pub open spec fn black_pawn_push_ok(b: Board, s: u64, t: u64) -> bool {
    t < 64 && empty_at(b, t) && (t + 8 == s || (on_black_home_rank(s) && t + 16 == s && empty_at(
        b,
        (t + 8) as u64,
    )))
}

/// Whether a black pawn standing on square `s` of position `b` may capture
/// on square `t`: one rank down and one file aside, never across the board
/// edge, and only onto a white piece.
pub open spec fn black_pawn_capture_ok(b: Board, s: u64, t: u64) -> bool {
    t < 64 && white_at(b, t) && ((file_of(s) != 0 && t + 9 == s) || (file_of(s) != 7 && t + 7
        == s))
}

/// Whether the move from square `s` to square `t` is pseudo-legal for a
/// black pawn in position `b`.
pub open spec fn black_pawn_move_ok(b: Board, s: u64, t: u64) -> bool {
    sq_bit(b.black.pawns, s) && (black_pawn_push_ok(b, s, t) || black_pawn_capture_ok(b, s, t))
}

/// Whether squares `s` and `t` lie a knight's jump apart: two ranks and
/// one file, or one rank and two files.
pub open spec fn knight_jump(s: u64, t: u64) -> bool {
    (dist(rank_of(s), rank_of(t)) == 2 && dist(file_of(s), file_of(t)) == 1) || (dist(
        rank_of(s),
        rank_of(t),
    ) == 1 && dist(file_of(s), file_of(t)) == 2)
}

/// Whether squares `s` and `t` lie a king's step apart: distinct, and at
/// most one rank and one file away.
pub open spec fn king_step(s: u64, t: u64) -> bool {
    s != t && dist(rank_of(s), rank_of(t)) <= 1 && dist(file_of(s), file_of(t)) <= 1
}

/// Whether the move from square `s` to square `t` is pseudo-legal for a
/// white knight in position `b`: a white knight stands on `s`, `t` lies a
/// knight's jump away, and no white piece stands on `t`.
pub open spec fn white_knight_move_ok(b: Board, s: u64, t: u64) -> bool {
    sq_bit(b.white.knights, s) && t < 64 && knight_jump(s, t) && !white_at(b, t)
}

/// Whether the move from square `s` to square `t` is pseudo-legal for the
/// white king in position `b`: the white king stands on `s`, `t` lies one
/// step away, and no white piece stands on `t`.
pub open spec fn white_king_move_ok(b: Board, s: u64, t: u64) -> bool {
    sq_bit(b.white.king, s) && t < 64 && king_step(s, t) && !white_at(b, t)
}

/// The union of the six piece masks of one side sets exactly the bits of
/// the squares that one of them occupies.
proof fn lemma_union_bits(p: u64, n: u64, b: u64, r: u64, q: u64, k: u64, s: u64)
    by (bit_vector)
    requires
        s < 64,
    ensures
        sq_bit(p | n | b | r | q | k, s) == (sq_bit(p, s) || sq_bit(n, s) || sq_bit(b, s)
            || sq_bit(r, s) || sq_bit(q, s) || sq_bit(k, s)),
{
}

/// Complementing the union of the twelve piece masks sets exactly the bits
/// of the squares that no mask occupies.
proof fn lemma_empty_bits(
    wb: u64,
    wk: u64,
    wn: u64,
    wp: u64,
    wq: u64,
    wr: u64,
    bb: u64,
    bk: u64,
    bn: u64,
    bp: u64,
    bq: u64,
    br: u64,
    s: u64,
)
    by (bit_vector)
    requires
        s < 64,
    ensures
        sq_bit(!(wb | wk | wn | wp | wq | wr | bb | bk | bn | bp | bq | br), s) == !(sq_bit(wp, s)
            || sq_bit(wn, s) || sq_bit(wb, s) || sq_bit(wr, s) || sq_bit(wq, s) || sq_bit(wk, s)
            || sq_bit(bp, s) || sq_bit(bn, s) || sq_bit(bb, s) || sq_bit(br, s) || sq_bit(bq, s)
            || sq_bit(bk, s)),
{
}

/// The bit layout of the white push mask, square by square, for a pawn
/// standing on square `s` with empty-square mask `e`.
proof fn lemma_push_bits(s: u64, e: u64, t: u64)
    by (bit_vector)
    requires
        s < 64,
        t < 64,
    ensures
        sq_bit(
            (((1u64 << s) << 8) & e) | (((((1u64 << s) << 8) & e) << 8) & e & RANK_4_MASK),
            t,
        ) == (sq_bit(e, t) && (t == s + 8 || (on_home_rank(s) && t == s + 16 && sq_bit(
            e,
            (s + 8) as u64,
        )))),
{
}

/// The bit layout of the white capture mask, square by square, for a pawn
/// standing on square `s` with black occupancy `blk`.
proof fn lemma_attack_bits(s: u64, blk: u64, t: u64)
    by (bit_vector)
    requires
        s < 64,
        t < 64,
    ensures
        sq_bit(
            ((((1u64 << s) << 9) & NOT_A_FILE) | (((1u64 << s) << 7) & NOT_H_FILE)) & blk,
            t,
        ) == (sq_bit(blk, t) && ((file_of(s) != 7 && t == s + 9) || (file_of(s) != 0 && t == s
            + 7))),
{
}

/// Whether `s` and `t` share a rank or a file — the lines a rook slides
/// along.
pub open spec fn rook_line(s: u64, t: u64) -> bool {
    s != t && (rank_of(s) == rank_of(t) || file_of(s) == file_of(t))
}

/// Whether `s` and `t` share a diagonal — the lines a bishop slides along.
pub open spec fn bishop_line(s: u64, t: u64) -> bool {
    s != t && dist(rank_of(s), rank_of(t)) == dist(file_of(s), file_of(t))
}

/// The index distance between neighbouring squares on the line through `s`
/// and `t`: 1 along a rank, 8 along a file, 9 or 7 along a diagonal.
pub open spec fn line_step(s: u64, t: u64) -> u64 {
    let lo = if s < t {
        s
    } else {
        t
    };
    let hi = if s < t {
        t
    } else {
        s
    };
    if rank_of(lo) == rank_of(hi) {
        1
    } else if file_of(lo) == file_of(hi) {
        8
    } else if file_of(lo) < file_of(hi) {
        9
    } else {
        7
    }
}

/// Whether every square strictly between `lo` and `hi` that lies `step`,
/// two `step`s, ... above `lo` is empty.
pub open spec fn span_empty(b: Board, lo: u64, hi: u64, step: u64) -> bool {
    forall|v: u64| lo < v < hi && ((v - lo) as u64) % step == 0 ==> empty_at(b, v)
}

/// Whether every square strictly between `s` and `t` on their common line
/// is empty: a sliding piece walks from `s` toward `t` and is stopped by
/// the first occupied square on the way.
pub open spec fn ray_clear(b: Board, s: u64, t: u64) -> bool {
    let lo = if s < t {
        s
    } else {
        t
    };
    let hi = if s < t {
        t
    } else {
        s
    };
    span_empty(b, lo, hi, line_step(s, t))
}

/// Whether the move from square `s` to square `t` is pseudo-legal for a
/// white rook in position `b`: a white rook stands on `s`, `t` lies on one
/// of its lines with every square between them empty, and no white piece
/// stands on `t`.
pub open spec fn white_rook_move_ok(b: Board, s: u64, t: u64) -> bool {
    sq_bit(b.white.rooks, s) && t < 64 && rook_line(s, t) && ray_clear(b, s, t) && !white_at(b, t)
}

/// Whether the move from square `s` to square `t` is pseudo-legal for a
/// white bishop in position `b`.
pub open spec fn white_bishop_move_ok(b: Board, s: u64, t: u64) -> bool {
    sq_bit(b.white.bishops, s) && t < 64 && bishop_line(s, t) && ray_clear(b, s, t) && !white_at(
        b,
        t,
    )
}

/// Whether the move from square `s` to square `t` is pseudo-legal for a
/// white queen in position `b`: a rook's or a bishop's line, clear between
/// the two squares, onto a square free of white pieces.
pub open spec fn white_queen_move_ok(b: Board, s: u64, t: u64) -> bool {
    sq_bit(b.white.queens, s) && t < 64 && (rook_line(s, t) || bishop_line(s, t)) && ray_clear(
        b,
        s,
        t,
    ) && !white_at(b, t)
}

/// Whether the move from square `s` to square `t` is pseudo-legal for a
/// black knight in position `b`.
pub open spec fn black_knight_move_ok(b: Board, s: u64, t: u64) -> bool {
    sq_bit(b.black.knights, s) && t < 64 && knight_jump(s, t) && !black_at(b, t)
}

/// Whether the move from square `s` to square `t` is pseudo-legal for the
/// black king in position `b`.
pub open spec fn black_king_move_ok(b: Board, s: u64, t: u64) -> bool {
    sq_bit(b.black.king, s) && t < 64 && king_step(s, t) && !black_at(b, t)
}

/// Whether the move from square `s` to square `t` is pseudo-legal for a
/// black rook in position `b`.
pub open spec fn black_rook_move_ok(b: Board, s: u64, t: u64) -> bool {
    sq_bit(b.black.rooks, s) && t < 64 && rook_line(s, t) && ray_clear(b, s, t) && !black_at(b, t)
}

/// Whether the move from square `s` to square `t` is pseudo-legal for a
/// black bishop in position `b`.
pub open spec fn black_bishop_move_ok(b: Board, s: u64, t: u64) -> bool {
    sq_bit(b.black.bishops, s) && t < 64 && bishop_line(s, t) && ray_clear(b, s, t) && !black_at(
        b,
        t,
    )
}

/// Whether the move from square `s` to square `t` is pseudo-legal for a
/// black queen in position `b`.
pub open spec fn black_queen_move_ok(b: Board, s: u64, t: u64) -> bool {
    sq_bit(b.black.queens, s) && t < 64 && (rook_line(s, t) || bishop_line(s, t)) && ray_clear(
        b,
        s,
        t,
    ) && !black_at(b, t)
}

/// Two squares with the same rank and the same file are the same square.
proof fn lemma_square_from_rank_file(s: u64, t: u64)
    by (bit_vector)
    requires
        s < 64,
        t < 64,
        s / 8 == t / 8,
        s % 8 == t % 8,
    ensures
        s == t,
{
}

/// Two distinct squares of one file span a whole number of rank steps.
proof fn lemma_file_span(lo: u64, hi: u64)
    by (bit_vector)
    requires
        lo < hi,
        hi < 64,
        lo % 8 == hi % 8,
    ensures
        ((hi - lo) as u64) % 8 == 0,
{
}

/// Two squares of one diagonal span a whole number of diagonal steps: 9
/// per step when the file grows toward `hi`, 7 when it shrinks.
proof fn lemma_diagonal_span(lo: u64, hi: u64)
    by (bit_vector)
    requires
        lo < hi,
        hi < 64,
        hi / 8 + lo % 8 == lo / 8 + hi % 8 || hi / 8 + hi % 8 == lo / 8 + lo % 8,
    ensures
        lo % 8 != hi % 8,
        lo % 8 < hi % 8 ==> ((hi - lo) as u64) % 9 == 0,
        lo % 8 > hi % 8 ==> ((hi - lo) as u64) % 7 == 0,
{
}

/// Within one step above a multiple of the step, that multiple is the only
/// one.
proof fn lemma_one_multiple_per_step(lo: u64, v: u64, u: u64, step: u64)
    requires
        lo <= v,
        v <= u,
        u < v + step,
        step == 1 || step == 7 || step == 8 || step == 9,
        v < 64,
        u < 64,
        ((v - lo) as u64) % step == 0,
        ((u - lo) as u64) % step == 0,
    ensures
        u == v,
{
    let a = ((v - lo) as u64);
    let b = ((u - lo) as u64);
    assert(a == v - lo && b == u - lo);
    assert(b == a) by (nonlinear_arith)
        requires
            a % step == 0,
            b % step == 0,
            a <= b,
            b < a + step,
            step == 1 || step == 7 || step == 8 || step == 9,
    ;
}

/// Stepping below `hi` by a common multiple of `step` stays at or below
/// `hi`.
proof fn lemma_step_stays_below(lo: u64, v: u64, hi: u64, step: u64)
    requires
        lo <= v,
        v < hi,
        hi < 64,
        ((v - lo) as u64) % step == 0,
        ((hi - lo) as u64) % step == 0,
        step == 1 || step == 7 || step == 8 || step == 9,
    ensures
        v + step <= hi,
        ((v + step - lo) as u64) % step == 0,
{
    let a = ((v - lo) as u64);
    let c = ((hi - lo) as u64);
    assert(a == v - lo && c == hi - lo);
    assert(c >= a + step && (a + step) % (step as int) == 0) by (nonlinear_arith)
        requires
            a % step == 0,
            c % step == 0,
            a < c,
            step == 1 || step == 7 || step == 8 || step == 9,
    ;
    assert(((v + step - lo) as u64) == a + step);
}

/// The bit layout of the black push mask, square by square, for a pawn
/// standing on square `s` with empty-square mask `e`.
proof fn lemma_black_push_bits(s: u64, e: u64, t: u64)
    by (bit_vector)
    requires
        s < 64,
        t < 64,
    ensures
        sq_bit(
            (((1u64 << s) >> 8) & e) | (((((1u64 << s) >> 8) & e) >> 8) & e & RANK_5_MASK),
            t,
        ) == (sq_bit(e, t) && (t + 8 == s || (on_black_home_rank(s) && t + 16 == s && sq_bit(
            e,
            (t + 8) as u64,
        )))),
{
}

/// The bit layout of the black capture mask, square by square, for a pawn
/// standing on square `s` with white occupancy `wht`.
proof fn lemma_black_attack_bits(s: u64, wht: u64, t: u64)
    by (bit_vector)
    requires
        s < 64,
        t < 64,
    ensures
        sq_bit(
            ((((1u64 << s) >> 9) & NOT_H_FILE) | (((1u64 << s) >> 7) & NOT_A_FILE)) & wht,
            t,
        ) == (sq_bit(wht, t) && ((file_of(s) != 0 && t + 9 == s) || (file_of(s) != 7 && t + 7
            == s))),
{
}

/// The bit layout of the knight jump mask, square by square, for a knight
/// standing on square `s`: the eight L-shaped shifts, each with the file
/// mask that removes results wrapped across the board edge.
proof fn lemma_knight_bits(s: u64, t: u64)
    by (bit_vector)
    requires
        s < 64,
        t < 64,
    ensures
        sq_bit(
            (((1u64 << s) << 17) & NOT_A_FILE) | (((1u64 << s) << 15) & NOT_H_FILE) | (((1u64 << s)
                << 10) & NOT_AB_FILES) | (((1u64 << s) << 6) & NOT_GH_FILES) | (((1u64 << s) >> 17)
                & NOT_H_FILE) | (((1u64 << s) >> 15) & NOT_A_FILE) | (((1u64 << s) >> 10)
                & NOT_GH_FILES) | (((1u64 << s) >> 6) & NOT_AB_FILES),
            t,
        ) == knight_jump(s, t),
{
}

/// The bit layout of the king step mask, square by square, for a king
/// standing on square `s`: the eight one-square shifts, each sideways one
/// masked against wrapping across the board edge.
proof fn lemma_king_bits(s: u64, t: u64)
    by (bit_vector)
    requires
        s < 64,
        t < 64,
    ensures
        sq_bit(
            ((1u64 << s) << 8) | ((1u64 << s) >> 8) | (((1u64 << s) << 9) & NOT_A_FILE) | (((1u64
                << s) << 1) & NOT_A_FILE) | (((1u64 << s) >> 7) & NOT_A_FILE) | (((1u64 << s) << 7)
                & NOT_H_FILE) | (((1u64 << s) >> 1) & NOT_H_FILE) | (((1u64 << s) >> 9)
                & NOT_H_FILE),
            t,
        ) == king_step(s, t),
{
}

impl Board {
    /// The standard starting position.
    pub fn new() -> (b: Board)
        ensures
            b == start_position(),
    {
        Board {
            white: Pieces {
                pawns: 0x000000000000FF00,
                king: 0x0000000000000010,
                queens: 0x0000000000000008,
                knights: 0x0000000000000042,
                rooks: 0x0000000000000081,
                bishops: 0x0000000000000024,
            },
            black: Pieces {
                pawns: 0x00FF000000000000,
                king: 0x1000000000000000,
                queens: 0x0800000000000000,
                knights: 0x4200000000000000,
                rooks: 0x8100000000000000,
                bishops: 0x2400000000000000,
            },
        }
    }

    /// Mask of the squares that neither side occupies.
    pub fn empty(&self) -> (r: u64)
        ensures
            forall|s: u64| s < 64 ==> #[trigger] sq_bit(r, s) == empty_at(*self, s),
    {
        let r: u64 = !(self.white.bishops | self.white.king | self.white.knights
            | self.white.pawns | self.white.queens | self.white.rooks | self.black.bishops
            | self.black.king | self.black.knights | self.black.pawns | self.black.queens
            | self.black.rooks);
        proof {
            assert forall|s: u64| s < 64 implies #[trigger] sq_bit(r, s) == empty_at(*self, s) by {
                lemma_empty_bits(
                    self.white.bishops,
                    self.white.king,
                    self.white.knights,
                    self.white.pawns,
                    self.white.queens,
                    self.white.rooks,
                    self.black.bishops,
                    self.black.king,
                    self.black.knights,
                    self.black.pawns,
                    self.black.queens,
                    self.black.rooks,
                    s,
                );
            }
        }
        r
    }

    /// Mask of the squares that black occupies.
    pub fn black(&self) -> (r: u64)
        ensures
            forall|s: u64| s < 64 ==> #[trigger] sq_bit(r, s) == black_at(*self, s),
    {
        let r: u64 = self.black.pawns | self.black.knights | self.black.bishops
            | self.black.rooks | self.black.queens | self.black.king;
        proof {
            assert forall|s: u64| s < 64 implies #[trigger] sq_bit(r, s) == black_at(*self, s) by {
                lemma_union_bits(
                    self.black.pawns,
                    self.black.knights,
                    self.black.bishops,
                    self.black.rooks,
                    self.black.queens,
                    self.black.king,
                    s,
                );
            }
        }
        r
    }

    /// Mask of the squares that white occupies.
    pub fn white(&self) -> (r: u64)
        ensures
            forall|s: u64| s < 64 ==> #[trigger] sq_bit(r, s) == white_at(*self, s),
    {
        let r: u64 = self.white.pawns | self.white.knights | self.white.bishops
            | self.white.rooks | self.white.queens | self.white.king;
        proof {
            assert forall|s: u64| s < 64 implies #[trigger] sq_bit(r, s) == white_at(*self, s) by {
                lemma_union_bits(
                    self.white.pawns,
                    self.white.knights,
                    self.white.bishops,
                    self.white.rooks,
                    self.white.queens,
                    self.white.king,
                    s,
                );
            }
        }
        r
    }

    /// The push mask of the single pawn `pawn`, given the empty-square mask
    /// `empty`: one rank ahead when empty, and two ranks ahead when the pawn
    /// starts on its home rank and both squares are empty.
    pub fn white_pawn_pushes(pawn: u64, empty: u64) -> (r: u64)
        requires
            is_single_bit(pawn),
        ensures
            forall|t: u64|
                t < 64 ==> #[trigger] sq_bit(r, t) == push_target(square_of(pawn), empty, t),
    {
        let single: u64 = (pawn << 8) & empty;
        let double: u64 = (((single << 8) & empty) & RANK_4_MASK);
        let r: u64 = single | double;
        proof {
            let s = square_of(pawn);
            assert(s < 64 && pawn == (1u64 << s));
            assert forall|t: u64|
                t < 64 implies #[trigger] sq_bit(r, t) == push_target(s, empty, t) by {
                lemma_push_bits(s, empty, t);
            }
        }
        r
    }

    /// The capture mask of the single pawn `pawn`, given the black occupancy
    /// mask `black`: the two diagonally-forward squares, with shifts that
    /// wrapped across the board edge masked away, intersected with `black`.
    pub fn white_pawn_attack(pawn: u64, black: u64) -> (r: u64)
        requires
            is_single_bit(pawn),
        ensures
            forall|t: u64|
                t < 64 ==> #[trigger] sq_bit(r, t) == capture_target(square_of(pawn), black, t),
    {
        let toward_h: u64 = (pawn << 9) & NOT_A_FILE;
        let toward_a: u64 = (pawn << 7) & NOT_H_FILE;
        let r: u64 = (toward_h | toward_a) & black;
        proof {
            let s = square_of(pawn);
            assert(s < 64 && pawn == (1u64 << s));
            assert forall|t: u64|
                t < 64 implies #[trigger] sq_bit(r, t) == capture_target(s, black, t) by {
                lemma_attack_bits(s, black, t);
            }
        }
        r
    }

    /// Whether the white pawn standing on the square of the single-bit mask
    /// `pawn` can reach the square of the single-bit mask `target` with a
    /// pseudo-legal push or capture. False when no white pawn stands there.
    pub fn white_pawn_legal(&self, pawn: u64, target: u64) -> (r: bool)
        requires
            is_single_bit(pawn),
            is_single_bit(target),
        ensures
            r == white_pawn_move_ok(*self, square_of(pawn), square_of(target)),
    {
        proof {
            let s = square_of(pawn);
            assert(s < 64 && pawn == (1u64 << s));
            lemma_mask_test(self.white.pawns, s);
        }
        if pawn & self.white.pawns == 0 {
            return false;
        }
        let empty_mask = self.empty();
        let black_mask = self.black();
        let pushes = Board::white_pawn_pushes(pawn, empty_mask);
        let attacks = Board::white_pawn_attack(pawn, black_mask);
        let legal = (target & pushes) > 0 || (target & attacks) > 0;
        proof {
            let s = square_of(pawn);
            let t = square_of(target);
            assert(t < 64 && target == (1u64 << t));
            lemma_mask_test(pushes, t);
            lemma_mask_test(attacks, t);
        }
        legal
    }

    /// Whether the white knight standing on the square of the single-bit
    /// mask `piece` can reach the square of the single-bit mask `target`:
    /// a knight's jump onto any square free of white pieces. False when no
    /// white knight stands there.
    pub fn white_knight_legal(&self, piece: u64, target: u64) -> (r: bool)
        requires
            is_single_bit(piece),
            is_single_bit(target),
        ensures
            r == white_knight_move_ok(*self, square_of(piece), square_of(target)),
    {
        proof {
            let s = square_of(piece);
            assert(s < 64 && piece == (1u64 << s));
            lemma_mask_test(self.white.knights, s);
        }
        if piece & self.white.knights == 0 {
            return false;
        }
        let moves: u64 = ((piece << 17) & NOT_A_FILE) | ((piece << 15) & NOT_H_FILE) | ((piece
            << 10) & NOT_AB_FILES) | ((piece << 6) & NOT_GH_FILES) | ((piece >> 17) & NOT_H_FILE)
            | ((piece >> 15) & NOT_A_FILE) | ((piece >> 10) & NOT_GH_FILES) | ((piece >> 6)
            & NOT_AB_FILES);
        let own = self.white();
        let legal = (target & moves) != 0 && (target & own) == 0;
        proof {
            let s = square_of(piece);
            let t = square_of(target);
            assert(t < 64 && target == (1u64 << t));
            lemma_knight_bits(s, t);
            lemma_mask_test(moves, t);
            lemma_mask_test(own, t);
        }
        legal
    }

    /// Whether the white king standing on the square of the single-bit mask
    /// `piece` can reach the square of the single-bit mask `target`: one
    /// step in any direction onto a square free of white pieces. False when
    /// the white king does not stand there.
    pub fn white_king_legal(&self, piece: u64, target: u64) -> (r: bool)
        requires
            is_single_bit(piece),
            is_single_bit(target),
        ensures
            r == white_king_move_ok(*self, square_of(piece), square_of(target)),
    {
        proof {
            let s = square_of(piece);
            assert(s < 64 && piece == (1u64 << s));
            lemma_mask_test(self.white.king, s);
        }
        if piece & self.white.king == 0 {
            return false;
        }
        let moves: u64 = (piece << 8) | (piece >> 8) | ((piece << 9) & NOT_A_FILE) | ((piece << 1)
            & NOT_A_FILE) | ((piece >> 7) & NOT_A_FILE) | ((piece << 7) & NOT_H_FILE) | ((piece
            >> 1) & NOT_H_FILE) | ((piece >> 9) & NOT_H_FILE);
        let own = self.white();
        let legal = (target & moves) != 0 && (target & own) == 0;
        proof {
            let s = square_of(piece);
            let t = square_of(target);
            assert(t < 64 && target == (1u64 << t));
            lemma_king_bits(s, t);
            lemma_mask_test(moves, t);
            lemma_mask_test(own, t);
        }
        legal
    }

    /// Whether every square strictly between `lo` and `hi`, walking from
    /// `lo` in strides of `step`, holds no piece of either side.
    fn span_all_empty(&self, lo: u64, hi: u64, step: u64) -> (r: bool)
        requires
            lo < hi,
            hi < 64,
            step == 1 || step == 7 || step == 8 || step == 9,
            ((hi - lo) as u64) % step == 0,
        ensures
            r == span_empty(*self, lo, hi, step),
    {
        let em = self.empty();
        proof {
            lemma_step_stays_below(lo, lo, hi, step);
            assert forall|u: u64|
                lo < u < lo + step && ((u - lo) as u64) % step == 0 implies empty_at(
                *self,
                u,
            ) by {
                lemma_one_multiple_per_step(lo, lo, u, step);
            }
        }
        let mut v: u64 = lo + step;
        while v < hi
            invariant
                lo < v,
                v <= hi,
                lo < hi,
                hi < 64,
                step == 1 || step == 7 || step == 8 || step == 9,
                ((v - lo) as u64) % step == 0,
                ((hi - lo) as u64) % step == 0,
                forall|j: u64| j < 64 ==> #[trigger] sq_bit(em, j) == empty_at(*self, j),
                forall|u: u64|
                    lo < u < v && ((u - lo) as u64) % step == 0 ==> empty_at(*self, u),
            decreases hi - v,
        {
            proof {
                lemma_mask_test(em, v);
            }
            if em & (1u64 << v) == 0 {
                proof {
                    assert(!empty_at(*self, v));
                    assert(!span_empty(*self, lo, hi, step));
                }
                return false;
            }
            proof {
                lemma_step_stays_below(lo, v, hi, step);
                assert forall|u: u64|
                    lo < u < v + step && ((u - lo) as u64) % step == 0 implies empty_at(
                    *self,
                    u,
                ) by {
                    if u >= v {
                        lemma_one_multiple_per_step(lo, v, u, step);
                    }
                }
            }
            v = v + step;
        }
        true
    }

    /// Whether the white rook standing on the square of the single-bit mask
    /// `piece` can reach the square of the single-bit mask `target`: along
    /// its rank or file, over empty squares only, onto a square free of
    /// white pieces. False when no white rook stands there.
    pub fn white_rook_legal(&self, piece: u64, target: u64) -> (r: bool)
        requires
            is_single_bit(piece),
            is_single_bit(target),
        ensures
            r == white_rook_move_ok(*self, square_of(piece), square_of(target)),
    {
        proof {
            let s = square_of(piece);
            assert(s < 64 && piece == (1u64 << s));
            lemma_mask_test(self.white.rooks, s);
        }
        if piece & self.white.rooks == 0 {
            return false;
        }
        let s = crate::bits::square_index(piece);
        let t = crate::bits::square_index(target);
        let step: u64;
        if s / 8 == t / 8 {
            if s == t {
                return false;
            }
            step = 1;
        } else if s % 8 == t % 8 {
            step = 8;
        } else {
            return false;
        }
        let lo = if s < t {
            s
        } else {
            t
        };
        let hi = if s < t {
            t
        } else {
            s
        };
        proof {
            if step == 1 {
                assert(((hi - lo) as u64) % 1 == 0) by (bit_vector);
            } else {
                lemma_file_span(lo, hi);
            }
            assert(line_step(s, t) == step);
        }
        let clear = self.span_all_empty(lo, hi, step);
        let own = self.white();
        let legal = clear && (target & own) == 0;
        proof {
            lemma_mask_test(own, t);
            assert(ray_clear(*self, s, t) == span_empty(*self, lo, hi, step));
        }
        legal
    }

    /// Whether the white bishop standing on the square of the single-bit
    /// mask `piece` can reach the square of the single-bit mask `target`:
    /// along a diagonal, over empty squares only, onto a square free of
    /// white pieces. False when no white bishop stands there.
    pub fn white_bishop_legal(&self, piece: u64, target: u64) -> (r: bool)
        requires
            is_single_bit(piece),
            is_single_bit(target),
        ensures
            r == white_bishop_move_ok(*self, square_of(piece), square_of(target)),
    {
        proof {
            let s = square_of(piece);
            assert(s < 64 && piece == (1u64 << s));
            lemma_mask_test(self.white.bishops, s);
        }
        if piece & self.white.bishops == 0 {
            return false;
        }
        let s = crate::bits::square_index(piece);
        let t = crate::bits::square_index(target);
        let sr = s / 8;
        let sf = s % 8;
        let tr = t / 8;
        let tf = t % 8;
        let dr = if sr < tr {
            tr - sr
        } else {
            sr - tr
        };
        let df = if sf < tf {
            tf - sf
        } else {
            sf - tf
        };
        if dr != df || dr == 0 {
            proof {
                if dr == 0 && df == 0 {
                    lemma_square_from_rank_file(s, t);
                }
            }
            return false;
        }
        let lo = if s < t {
            s
        } else {
            t
        };
        let hi = if s < t {
            t
        } else {
            s
        };
        let step: u64 = if lo % 8 < hi % 8 {
            9
        } else {
            7
        };
        proof {
            assert(hi / 8 + lo % 8 == lo / 8 + hi % 8 || hi / 8 + hi % 8 == lo / 8 + lo % 8);
            lemma_diagonal_span(lo, hi);
            assert(line_step(s, t) == step);
        }
        let clear = self.span_all_empty(lo, hi, step);
        let own = self.white();
        let legal = clear && (target & own) == 0;
        proof {
            lemma_mask_test(own, t);
            assert(ray_clear(*self, s, t) == span_empty(*self, lo, hi, step));
        }
        legal
    }

    /// Whether the white queen standing on the square of the single-bit
    /// mask `piece` can reach the square of the single-bit mask `target`:
    /// along a rank, file or diagonal, over empty squares only, onto a
    /// square free of white pieces. False when no white queen stands there.
    pub fn white_queen_legal(&self, piece: u64, target: u64) -> (r: bool)
        requires
            is_single_bit(piece),
            is_single_bit(target),
        ensures
            r == white_queen_move_ok(*self, square_of(piece), square_of(target)),
    {
        proof {
            let s = square_of(piece);
            assert(s < 64 && piece == (1u64 << s));
            lemma_mask_test(self.white.queens, s);
        }
        if piece & self.white.queens == 0 {
            return false;
        }
        let s = crate::bits::square_index(piece);
        let t = crate::bits::square_index(target);
        if s == t {
            return false;
        }
        let step: u64;
        if s / 8 == t / 8 {
            step = 1;
        } else if s % 8 == t % 8 {
            step = 8;
        } else {
            let sr = s / 8;
            let sf = s % 8;
            let tr = t / 8;
            let tf = t % 8;
            let dr = if sr < tr {
                tr - sr
            } else {
                sr - tr
            };
            let df = if sf < tf {
                tf - sf
            } else {
                sf - tf
            };
            if dr != df {
                return false;
            }
            let lof = if s < t {
                sf
            } else {
                tf
            };
            let hif = if s < t {
                tf
            } else {
                sf
            };
            step = if lof < hif {
                9
            } else {
                7
            };
        }
        let lo = if s < t {
            s
        } else {
            t
        };
        let hi = if s < t {
            t
        } else {
            s
        };
        proof {
            if step == 1 {
                assert(((hi - lo) as u64) % 1 == 0) by (bit_vector);
            } else if step == 8 {
                lemma_file_span(lo, hi);
            } else {
                assert(hi / 8 + lo % 8 == lo / 8 + hi % 8 || hi / 8 + hi % 8 == lo / 8 + lo
                    % 8);
                lemma_diagonal_span(lo, hi);
            }
            assert(line_step(s, t) == step);
        }
        let clear = self.span_all_empty(lo, hi, step);
        let own = self.white();
        let legal = clear && (target & own) == 0;
        proof {
            lemma_mask_test(own, t);
            assert(ray_clear(*self, s, t) == span_empty(*self, lo, hi, step));
        }
        legal
    }

    /// The push mask of the single black pawn `pawn`, given the
    /// empty-square mask `empty`: one rank down when empty, and two ranks
    /// down when the pawn starts on the seventh rank and both squares are
    /// empty.
    pub fn black_pawn_pushes(pawn: u64, empty: u64) -> (r: u64)
        requires
            is_single_bit(pawn),
        ensures
            forall|t: u64|
                t < 64 ==> #[trigger] sq_bit(r, t) == black_push_target(square_of(pawn), empty, t),
    {
        let single: u64 = (pawn >> 8) & empty;
        let double: u64 = (((single >> 8) & empty) & RANK_5_MASK);
        let r: u64 = single | double;
        proof {
            let s = square_of(pawn);
            assert(s < 64 && pawn == (1u64 << s));
            assert forall|t: u64|
                t < 64 implies #[trigger] sq_bit(r, t) == black_push_target(s, empty, t) by {
                lemma_black_push_bits(s, empty, t);
            }
        }
        r
    }

    /// The capture mask of the single black pawn `pawn`, given the white
    /// occupancy mask `white`: the two diagonally-downward squares, with
    /// shifts that wrapped across the board edge masked away, intersected
    /// with `white`.
    pub fn black_pawn_attack(pawn: u64, white: u64) -> (r: u64)
        requires
            is_single_bit(pawn),
        ensures
            forall|t: u64|
                t < 64 ==> #[trigger] sq_bit(r, t) == black_capture_target(
                    square_of(pawn),
                    white,
                    t,
                ),
    {
        let toward_a: u64 = (pawn >> 9) & NOT_H_FILE;
        let toward_h: u64 = (pawn >> 7) & NOT_A_FILE;
        let r: u64 = (toward_a | toward_h) & white;
        proof {
            let s = square_of(pawn);
            assert(s < 64 && pawn == (1u64 << s));
            assert forall|t: u64|
                t < 64 implies #[trigger] sq_bit(r, t) == black_capture_target(s, white, t) by {
                lemma_black_attack_bits(s, white, t);
            }
        }
        r
    }

    /// Whether the black pawn standing on the square of the single-bit
    /// mask `pawn` can reach the square of the single-bit mask `target`
    /// with a pseudo-legal push or capture. False when no black pawn
    /// stands there.
    pub fn black_pawn_legal(&self, pawn: u64, target: u64) -> (r: bool)
        requires
            is_single_bit(pawn),
            is_single_bit(target),
        ensures
            r == black_pawn_move_ok(*self, square_of(pawn), square_of(target)),
    {
        proof {
            let s = square_of(pawn);
            assert(s < 64 && pawn == (1u64 << s));
            lemma_mask_test(self.black.pawns, s);
        }
        if pawn & self.black.pawns == 0 {
            return false;
        }
        let empty_mask = self.empty();
        let white_mask = self.white();
        let pushes = Board::black_pawn_pushes(pawn, empty_mask);
        let attacks = Board::black_pawn_attack(pawn, white_mask);
        let legal = (target & pushes) > 0 || (target & attacks) > 0;
        proof {
            let s = square_of(pawn);
            let t = square_of(target);
            assert(t < 64 && target == (1u64 << t));
            lemma_mask_test(pushes, t);
            lemma_mask_test(attacks, t);
        }
        legal
    }

    /// Whether the black knight standing on the square of the single-bit
    /// mask `piece` can reach the square of the single-bit mask `target`:
    /// a knight's jump onto any square free of black pieces. False when no
    /// black knight stands there.
    pub fn black_knight_legal(&self, piece: u64, target: u64) -> (r: bool)
        requires
            is_single_bit(piece),
            is_single_bit(target),
        ensures
            r == black_knight_move_ok(*self, square_of(piece), square_of(target)),
    {
        proof {
            let s = square_of(piece);
            assert(s < 64 && piece == (1u64 << s));
            lemma_mask_test(self.black.knights, s);
        }
        if piece & self.black.knights == 0 {
            return false;
        }
        let moves: u64 = ((piece << 17) & NOT_A_FILE) | ((piece << 15) & NOT_H_FILE) | ((piece
            << 10) & NOT_AB_FILES) | ((piece << 6) & NOT_GH_FILES) | ((piece >> 17) & NOT_H_FILE)
            | ((piece >> 15) & NOT_A_FILE) | ((piece >> 10) & NOT_GH_FILES) | ((piece >> 6)
            & NOT_AB_FILES);
        let own = self.black();
        let legal = (target & moves) != 0 && (target & own) == 0;
        proof {
            let s = square_of(piece);
            let t = square_of(target);
            assert(t < 64 && target == (1u64 << t));
            lemma_knight_bits(s, t);
            lemma_mask_test(moves, t);
            lemma_mask_test(own, t);
        }
        legal
    }

    /// Whether the black king standing on the square of the single-bit
    /// mask `piece` can reach the square of the single-bit mask `target`:
    /// one step in any direction onto a square free of black pieces. False
    /// when the black king does not stand there.
    pub fn black_king_legal(&self, piece: u64, target: u64) -> (r: bool)
        requires
            is_single_bit(piece),
            is_single_bit(target),
        ensures
            r == black_king_move_ok(*self, square_of(piece), square_of(target)),
    {
        proof {
            let s = square_of(piece);
            assert(s < 64 && piece == (1u64 << s));
            lemma_mask_test(self.black.king, s);
        }
        if piece & self.black.king == 0 {
            return false;
        }
        let moves: u64 = (piece << 8) | (piece >> 8) | ((piece << 9) & NOT_A_FILE) | ((piece << 1)
            & NOT_A_FILE) | ((piece >> 7) & NOT_A_FILE) | ((piece << 7) & NOT_H_FILE) | ((piece
            >> 1) & NOT_H_FILE) | ((piece >> 9) & NOT_H_FILE);
        let own = self.black();
        let legal = (target & moves) != 0 && (target & own) == 0;
        proof {
            let s = square_of(piece);
            let t = square_of(target);
            assert(t < 64 && target == (1u64 << t));
            lemma_king_bits(s, t);
            lemma_mask_test(moves, t);
            lemma_mask_test(own, t);
        }
        legal
    }

    /// Whether the black rook standing on the square of the single-bit
    /// mask `piece` can reach the square of the single-bit mask `target`:
    /// along its rank or file, over empty squares only, onto a square free
    /// of black pieces. False when no black rook stands there.
    pub fn black_rook_legal(&self, piece: u64, target: u64) -> (r: bool)
        requires
            is_single_bit(piece),
            is_single_bit(target),
        ensures
            r == black_rook_move_ok(*self, square_of(piece), square_of(target)),
    {
        proof {
            let s = square_of(piece);
            assert(s < 64 && piece == (1u64 << s));
            lemma_mask_test(self.black.rooks, s);
        }
        if piece & self.black.rooks == 0 {
            return false;
        }
        let s = crate::bits::square_index(piece);
        let t = crate::bits::square_index(target);
        let step: u64;
        if s / 8 == t / 8 {
            if s == t {
                return false;
            }
            step = 1;
        } else if s % 8 == t % 8 {
            step = 8;
        } else {
            return false;
        }
        let lo = if s < t {
            s
        } else {
            t
        };
        let hi = if s < t {
            t
        } else {
            s
        };
        proof {
            if step == 1 {
                assert(((hi - lo) as u64) % 1 == 0) by (bit_vector);
            } else {
                lemma_file_span(lo, hi);
            }
            assert(line_step(s, t) == step);
        }
        let clear = self.span_all_empty(lo, hi, step);
        let own = self.black();
        let legal = clear && (target & own) == 0;
        proof {
            lemma_mask_test(own, t);
            assert(ray_clear(*self, s, t) == span_empty(*self, lo, hi, step));
        }
        legal
    }

    /// Whether the black bishop standing on the square of the single-bit
    /// mask `piece` can reach the square of the single-bit mask `target`:
    /// along a diagonal, over empty squares only, onto a square free of
    /// black pieces. False when no black bishop stands there.
    pub fn black_bishop_legal(&self, piece: u64, target: u64) -> (r: bool)
        requires
            is_single_bit(piece),
            is_single_bit(target),
        ensures
            r == black_bishop_move_ok(*self, square_of(piece), square_of(target)),
    {
        proof {
            let s = square_of(piece);
            assert(s < 64 && piece == (1u64 << s));
            lemma_mask_test(self.black.bishops, s);
        }
        if piece & self.black.bishops == 0 {
            return false;
        }
        let s = crate::bits::square_index(piece);
        let t = crate::bits::square_index(target);
        let sr = s / 8;
        let sf = s % 8;
        let tr = t / 8;
        let tf = t % 8;
        let dr = if sr < tr {
            tr - sr
        } else {
            sr - tr
        };
        let df = if sf < tf {
            tf - sf
        } else {
            sf - tf
        };
        if dr != df || dr == 0 {
            proof {
                if dr == 0 && df == 0 {
                    lemma_square_from_rank_file(s, t);
                }
            }
            return false;
        }
        let lo = if s < t {
            s
        } else {
            t
        };
        let hi = if s < t {
            t
        } else {
            s
        };
        let step: u64 = if lo % 8 < hi % 8 {
            9
        } else {
            7
        };
        proof {
            assert(hi / 8 + lo % 8 == lo / 8 + hi % 8 || hi / 8 + hi % 8 == lo / 8 + lo % 8);
            lemma_diagonal_span(lo, hi);
            assert(line_step(s, t) == step);
        }
        let clear = self.span_all_empty(lo, hi, step);
        let own = self.black();
        let legal = clear && (target & own) == 0;
        proof {
            lemma_mask_test(own, t);
            assert(ray_clear(*self, s, t) == span_empty(*self, lo, hi, step));
        }
        legal
    }

    /// Whether the black queen standing on the square of the single-bit
    /// mask `piece` can reach the square of the single-bit mask `target`:
    /// along a rank, file or diagonal, over empty squares only, onto a
    /// square free of black pieces. False when no black queen stands
    /// there.
    pub fn black_queen_legal(&self, piece: u64, target: u64) -> (r: bool)
        requires
            is_single_bit(piece),
            is_single_bit(target),
        ensures
            r == black_queen_move_ok(*self, square_of(piece), square_of(target)),
    {
        proof {
            let s = square_of(piece);
            assert(s < 64 && piece == (1u64 << s));
            lemma_mask_test(self.black.queens, s);
        }
        if piece & self.black.queens == 0 {
            return false;
        }
        let s = crate::bits::square_index(piece);
        let t = crate::bits::square_index(target);
        if s == t {
            return false;
        }
        let step: u64;
        if s / 8 == t / 8 {
            step = 1;
        } else if s % 8 == t % 8 {
            step = 8;
        } else {
            let sr = s / 8;
            let sf = s % 8;
            let tr = t / 8;
            let tf = t % 8;
            let dr = if sr < tr {
                tr - sr
            } else {
                sr - tr
            };
            let df = if sf < tf {
                tf - sf
            } else {
                sf - tf
            };
            if dr != df {
                return false;
            }
            let lof = if s < t {
                sf
            } else {
                tf
            };
            let hif = if s < t {
                tf
            } else {
                sf
            };
            step = if lof < hif {
                9
            } else {
                7
            };
        }
        let lo = if s < t {
            s
        } else {
            t
        };
        let hi = if s < t {
            t
        } else {
            s
        };
        proof {
            if step == 1 {
                assert(((hi - lo) as u64) % 1 == 0) by (bit_vector);
            } else if step == 8 {
                lemma_file_span(lo, hi);
            } else {
                assert(hi / 8 + lo % 8 == lo / 8 + hi % 8 || hi / 8 + hi % 8 == lo / 8 + lo
                    % 8);
                lemma_diagonal_span(lo, hi);
            }
            assert(line_step(s, t) == step);
        }
        let clear = self.span_all_empty(lo, hi, step);
        let own = self.black();
        let legal = clear && (target & own) == 0;
        proof {
            lemma_mask_test(own, t);
            assert(ray_clear(*self, s, t) == span_empty(*self, lo, hi, step));
        }
        legal
    }

    /// The letter of the piece standing on `square`: upper case for white,
    /// lower case for black, or a dot for an empty square.
    pub fn piece_at(&self, square: usize) -> (c: char)
        requires
            square < 64,
        ensures
            c == piece_char(*self, square as u64),
    {
        let mask: u64 = 1u64 << (square as u64);
        proof {
            let s = square as u64;
            lemma_mask_test(self.white.pawns, s);
            lemma_mask_test(self.white.knights, s);
            lemma_mask_test(self.white.bishops, s);
            lemma_mask_test(self.white.rooks, s);
            lemma_mask_test(self.white.queens, s);
            lemma_mask_test(self.white.king, s);
            lemma_mask_test(self.black.pawns, s);
            lemma_mask_test(self.black.knights, s);
            lemma_mask_test(self.black.bishops, s);
            lemma_mask_test(self.black.rooks, s);
            lemma_mask_test(self.black.queens, s);
            lemma_mask_test(self.black.king, s);
        }
        if self.white.pawns & mask != 0 {
            'P'
        } else if self.white.knights & mask != 0 {
            'N'
        } else if self.white.bishops & mask != 0 {
            'B'
        } else if self.white.rooks & mask != 0 {
            'R'
        } else if self.white.queens & mask != 0 {
            'Q'
        } else if self.white.king & mask != 0 {
            'K'
        } else if self.black.pawns & mask != 0 {
            'p'
        } else if self.black.knights & mask != 0 {
            'n'
        } else if self.black.bishops & mask != 0 {
            'b'
        } else if self.black.rooks & mask != 0 {
            'r'
        } else if self.black.queens & mask != 0 {
            'q'
        } else if self.black.king & mask != 0 {
            'k'
        } else {
            '.'
        }
    }
}

} // verus!
