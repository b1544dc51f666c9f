use crate::bitboard::Bitboard;
use crate::bits::{bit_at, count_below, count_bits};
use crate::chessboard::ChessBoard;
use crate::pawn_table::{evaluate_pawn_position, pawn_bonus};
use crate::piece::{piece_value, PieceType};
use crate::position::Position;
use vstd::prelude::*;

verus! {

pub const PAWN_VALUE: i32 = 100;

pub const KNIGHT_VALUE: i32 = 320;

pub const BISHOP_VALUE: i32 = 330;

pub const ROOK_VALUE: i32 = 500;

pub const QUEEN_VALUE: i32 = 900;

pub const KING_VALUE: i32 = 20000;

/// No evaluation is farther from zero than this.
pub const EVALUATION_BOUND: i32 = 3_000_000;

/// The number of pieces of the given kind and colour on the squares below
/// `n`.
pub open spec fn piece_count_below(p: Position, kind: PieceType, white: bool, n: int) -> int
    decreases n,
{
    if n <= 0 {
        0
    } else {
        piece_count_below(p, kind, white, n - 1) + if p.has_piece(n - 1, kind, white) {
            1int
        } else {
            0int
        }
    }
}

/// The number of pieces of the given kind and colour.
pub open spec fn piece_count(p: Position, kind: PieceType, white: bool) -> int {
    piece_count_below(p, kind, white, 64)
}

/// The material of a side: the values of its pieces, added up.
pub open spec fn material(p: Position, white: bool) -> int {
    piece_count(p, PieceType::Pawn, white) * 100 + piece_count(p, PieceType::Knight, white) * 320
        + piece_count(p, PieceType::Bishop, white) * 330 + piece_count(p, PieceType::Rook, white)
        * 500 + piece_count(p, PieceType::Queen, white) * 900 + piece_count(
        p,
        PieceType::King,
        white,
    ) * 20000
}

/// The bonuses of the pawns of a side that stand on a square below `n`,
/// added up.
pub open spec fn pawn_bonus_below(p: Position, white: bool, n: int) -> int
    decreases n,
{
    if n <= 0 {
        0
    } else {
        pawn_bonus_below(p, white, n - 1) + if p.has_piece(n - 1, PieceType::Pawn, white) {
            pawn_bonus(n - 1, white)
        } else {
            0int
        }
    }
}

/// The score of a side: its material and the bonuses of its pawns.
pub open spec fn side_score(p: Position, white: bool) -> int {
    material(p, white) + pawn_bonus_below(p, white, 64)
}

/// The evaluation of a position as seen by the side `white`: its score less
/// the score of the other side.
pub open spec fn evaluation_for(p: Position, white: bool) -> int {
    side_score(p, white) - side_score(p, !white)
}

/// The evaluation of a position as seen by the side to move.
pub open spec fn evaluation(p: Position) -> int {
    evaluation_for(p, p.white_to_move)
}

/// A word whose bits are the squares of a piece has as many bits below `n`
/// as there are such pieces below `n`.
pub proof fn lemma_count_matches(word: u64, p: Position, kind: PieceType, white: bool, n: int)
    requires
        0 <= n <= 64,
        forall|i: int| 0 <= i < 64 ==> bit_at(word, i) == p.has_piece(i, kind, white),
    ensures
        count_below(word, n) == piece_count_below(p, kind, white, n),
        0 <= piece_count_below(p, kind, white, n) <= n,
    decreases n,
{
    if n > 0 {
        lemma_count_matches(word, p, kind, white, n - 1);
    }
}

/// Between two bounds with no pawn of the side in between, the pawn bonuses
/// are the same.
pub proof fn lemma_pawn_bonus_skip(p: Position, white: bool, lo: int, hi: int)
    requires
        lo <= hi,
        forall|t: int| lo <= t < hi ==> !#[trigger] p.has_piece(t, PieceType::Pawn, white),
    ensures
        pawn_bonus_below(p, white, hi) == pawn_bonus_below(p, white, lo),
    decreases hi - lo,
{
    if lo < hi {
        lemma_pawn_bonus_skip(p, white, lo, hi - 1);
        assert(!p.has_piece(hi - 1, PieceType::Pawn, white));
    }
}

/// The value of the pieces of a bitboard, each worth `value`.
pub fn evaluate_material(pieces: Bitboard, value: i32) -> (r: i32)
    requires
        0 <= value <= 20000,
    ensures
        r == count_bits(pieces.0) * value,
        0 <= r <= 64 * value,
{
    let count: i32 = pieces.count_ones() as i32;
    assert(0 <= count * value <= 64 * value) by (nonlinear_arith)
        requires
            0 <= count <= 64,
            0 <= value,
    ;
    count * value
}

/// The value of the pieces of one kind and colour on the board.
pub fn kind_material(chess_board: &ChessBoard, kind: PieceType, is_white: bool) -> (r: i32)
    requires
        chess_board.wf(),
    ensures
        r == piece_count(chess_board@, kind, is_white) * piece_value(kind),
        0 <= r <= 64 * piece_value(kind),
{
    let pieces = chess_board.get_pieces(kind, is_white);
    proof {
        lemma_count_matches(pieces.0, chess_board@, kind, is_white, 64);
    }
    evaluate_material(pieces, kind.value())
}

/// The score of one side: its material and the bonuses of its pawns.
pub fn evaluate_side(chess_board: &ChessBoard, is_white: bool) -> (r: i32)
    requires
        chess_board.wf(),
    ensures
        r == side_score(chess_board@, is_white),
        -1_500_000 <= r <= 1_500_000,
{
    let mut score: i32 = 0;
    score = score + kind_material(chess_board, PieceType::Pawn, is_white);
    score = score + kind_material(chess_board, PieceType::Knight, is_white);
    score = score + kind_material(chess_board, PieceType::Bishop, is_white);
    score = score + kind_material(chess_board, PieceType::Rook, is_white);
    score = score + kind_material(chess_board, PieceType::Queen, is_white);
    score = score + kind_material(chess_board, PieceType::King, is_white);
    let ghost p = chess_board@;
    let mut pawns = chess_board.get_pieces(PieceType::Pawn, is_white);
    let mut bonus: i32 = 0;
    let ghost mut k: int = 0;
    while !pawns.is_empty()
        invariant
            0 <= k <= 64,
            -20 * k <= bonus <= 50 * k,
            bonus == pawn_bonus_below(p, is_white, k),
            forall|t: int| pawns@.contains(t) <==> (p.has_piece(t, PieceType::Pawn, is_white) && t >= k),
        decreases 64 - k,
    {
        let ghost waiting = pawns@;
        let square: usize = pawns.pop_lsb();
        proof {
            assert forall|t: int| k <= t < square implies !#[trigger] p.has_piece(
                t,
                PieceType::Pawn,
                is_white,
            ) by {
                assert(!waiting.contains(t));
            }
            lemma_pawn_bonus_skip(p, is_white, k, square as int);
        }
        bonus = bonus + evaluate_pawn_position(square, is_white);
        proof {
            k = square + 1;
        }
    }
    proof {
        assert forall|t: int| k <= t < 64 implies !#[trigger] p.has_piece(
            t,
            PieceType::Pawn,
            is_white,
        ) by {
            assert(!pawns@.contains(t));
        }
        lemma_pawn_bonus_skip(p, is_white, k, 64);
    }
    score + bonus
}

/// The evaluation of the board as seen by the side `is_white`.
pub fn evaluate_board_for(chess_board: &ChessBoard, is_white: bool) -> (r: i32)
    requires
        chess_board.wf(),
    ensures
        r == evaluation_for(chess_board@, is_white),
        -EVALUATION_BOUND <= r <= EVALUATION_BOUND,
{
    evaluate_side(chess_board, is_white) - evaluate_side(chess_board, !is_white)
}

/// The evaluation of the board as seen by the side to move.
pub fn evaluate_board(chess_board: &ChessBoard) -> (r: i32)
    requires
        chess_board.wf(),
    ensures
        r == evaluation(chess_board@),
        -EVALUATION_BOUND <= r <= EVALUATION_BOUND,
{
    evaluate_board_for(chess_board, chess_board.is_white_active())
}

/// There are at least no and at most `n` pieces of a kind and colour on the
/// squares below `n`.
pub proof fn lemma_piece_count_bounds(p: Position, kind: PieceType, white: bool, n: int)
    requires
        0 <= n,
    ensures
        0 <= piece_count_below(p, kind, white, n) <= n,
    decreases n,
{
    if n > 0 {
        lemma_piece_count_bounds(p, kind, white, n - 1);
    }
}

/// The pawn bonuses of the squares below `n` lie between `-20 n` and `50 n`.
pub proof fn lemma_pawn_bonus_bounds(p: Position, white: bool, n: int)
    requires
        0 <= n <= 64,
    ensures
        -20 * n <= pawn_bonus_below(p, white, n) <= 50 * n,
    decreases n,
{
    if n > 0 {
        lemma_pawn_bonus_bounds(p, white, n - 1);
        crate::pawn_table::lemma_pawn_table_bounds(n - 1);
        crate::pawn_table::lemma_pawn_table_bounds(63 - (n - 1));
    }
}

/// No evaluation is farther from zero than the evaluation bound.
pub proof fn lemma_evaluation_bound(p: Position, white: bool)
    ensures
        -EVALUATION_BOUND <= evaluation_for(p, white) <= EVALUATION_BOUND,
{
    lemma_piece_count_bounds(p, PieceType::Pawn, white, 64);
    lemma_piece_count_bounds(p, PieceType::Knight, white, 64);
    lemma_piece_count_bounds(p, PieceType::Bishop, white, 64);
    lemma_piece_count_bounds(p, PieceType::Rook, white, 64);
    lemma_piece_count_bounds(p, PieceType::Queen, white, 64);
    lemma_piece_count_bounds(p, PieceType::King, white, 64);
    lemma_piece_count_bounds(p, PieceType::Pawn, !white, 64);
    lemma_piece_count_bounds(p, PieceType::Knight, !white, 64);
    lemma_piece_count_bounds(p, PieceType::Bishop, !white, 64);
    lemma_piece_count_bounds(p, PieceType::Rook, !white, 64);
    lemma_piece_count_bounds(p, PieceType::Queen, !white, 64);
    lemma_piece_count_bounds(p, PieceType::King, !white, 64);
    lemma_pawn_bonus_bounds(p, white, 64);
    lemma_pawn_bonus_bounds(p, !white, 64);
}

} // verus!
