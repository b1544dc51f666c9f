use crate::bitboard::Bitboard;
use crate::chess_move::ChessMove;
use crate::chessboard::{lemma_board_sets, ChessBoard};
use crate::piece::PieceType;
use crate::piece_conductor::PieceConductor;
use crate::position::{lemma_make_undo_roundtrip, Position};
use crate::rules::{
    all_legal_moves, legal_among, legal_moves_below, legal_moves_from, pseudo_moves_from,
};
use vstd::prelude::*;

verus! {

/// Between two bounds with no piece of the side in between, the legal moves
/// are the same.
pub proof fn lemma_legal_moves_below_skip(p: Position, white: bool, lo: int, hi: int)
    requires
        lo <= hi,
        forall|t: int| lo <= t < hi ==> (#[trigger] p.at(t)) is None || p.at(t)->0.white != white,
    ensures
        legal_moves_below(p, white, hi) == legal_moves_below(p, white, lo),
    decreases hi - lo,
{
    if lo < hi {
        lemma_legal_moves_below_skip(p, white, lo, hi - 1);
        assert(p.at(hi - 1) is None || p.at(hi - 1)->0.white != white);
    }
}

/// The pseudo-legal moves of the piece on `square` for the side `is_white`.
pub fn get_pseudo_legal_move_list_from_square(
    square: u16,
    chess_board: &ChessBoard,
    conductor: &PieceConductor,
    is_white: bool,
) -> (r: Vec<ChessMove>)
    requires
        chess_board.wf(),
        conductor.wf(),
        square < 64,
    ensures
        r@ == pseudo_moves_from(chess_board@, square as int, is_white),
{
    let friendly_pieces_bitboard = chess_board.get_own_pieces(is_white);
    let relevant_blockers = friendly_pieces_bitboard;
    match chess_board.get_piece_type(square) {
        Some(PieceType::Rook) => conductor.get_rook_moves(square, relevant_blockers, chess_board),
        Some(PieceType::Bishop) => conductor.get_bishop_moves(
            square,
            relevant_blockers,
            chess_board,
        ),
        Some(PieceType::Queen) => {
            let mut move_list = conductor.get_rook_moves(square, relevant_blockers, chess_board);
            let mut diagonal = conductor.get_bishop_moves(square, relevant_blockers, chess_board);
            move_list.append(&mut diagonal);
            move_list
        },
        Some(PieceType::King) => conductor.get_king_moves(
            square,
            relevant_blockers,
            chess_board,
            is_white,
        ),
        Some(PieceType::Knight) => conductor.get_knight_moves(square, relevant_blockers),
        Some(PieceType::Pawn) => conductor.get_pawn_moves(square, is_white, chess_board),
        None => Vec::new(),
    }
}

/// The legal ones among the given moves for the side `is_white`, each with
/// the moving and the captured piece recorded in it. Every move is tried on
/// the board and taken back; the board is left as it was.
pub fn keep_legal_moves(
    chess_board: &mut ChessBoard,
    conductor: &PieceConductor,
    moves: &Vec<ChessMove>,
    is_white: bool,
) -> (r: Vec<ChessMove>)
    requires
        old(chess_board).wf(),
        conductor.wf(),
    ensures
        final(chess_board).wf(),
        final(chess_board)@ == old(chess_board)@,
        r@ == legal_among(old(chess_board)@, moves@, is_white, moves@.len() as int),
{
    let mut move_list: Vec<ChessMove> = Vec::new();
    let ghost p = chess_board@;
    proof {
        lemma_board_sets(*chess_board);
    }
    let mut i: usize = 0;
    while i < moves.len()
        invariant
            i <= moves@.len(),
            conductor.wf(),
            chess_board.wf(),
            chess_board@ == p,
            p.wf(),
            move_list@ == legal_among(p, moves@, is_white, i as int),
        decreases moves@.len() - i,
    {
        let mut chess_move: ChessMove = moves[i];
        if chess_board.make_move(&mut chess_move) {
            let in_check: bool = conductor.is_king_in_check(chess_board, is_white);
            if !in_check {
                move_list.push(chess_move);
            }
            chess_board.undo_move();
            proof {
                lemma_make_undo_roundtrip(p, moves@[i as int]);
            }
        }
        i = i + 1;
    }
    move_list
}

/// The legal moves of the piece on `square`, if it belongs to the side to
/// move; no move otherwise. The board is left as it was.
pub fn get_legal_move_list_from_square(
    square: u16,
    chess_board: &mut ChessBoard,
    conductor: &PieceConductor,
) -> (r: Vec<ChessMove>)
    requires
        old(chess_board).wf(),
        conductor.wf(),
        square < 64,
    ensures
        final(chess_board).wf(),
        final(chess_board)@ == old(chess_board)@,
        r@ == if old(chess_board)@.has_color(square as int, old(chess_board)@.white_to_move) {
            legal_moves_from(old(chess_board)@, square as int, old(chess_board)@.white_to_move)
        } else {
            Seq::<ChessMove>::empty()
        },
{
    let is_white: bool = chess_board.is_white_active();
    let own: bool = match chess_board.get_piece_at_square(square) {
        Some(piece) => piece.white == is_white,
        None => false,
    };
    if !own {
        return Vec::new();
    }
    let pseudo_legal_moves = get_pseudo_legal_move_list_from_square(
        square,
        chess_board,
        conductor,
        is_white,
    );
    keep_legal_moves(chess_board, conductor, &pseudo_legal_moves, is_white)
}

/// All legal moves of the side `is_white`: the legal moves of each of its
/// pieces, from the lowest square to the highest. The board is left as it
/// was.
pub fn get_all_legal_moves_for_color(
    chess_board: &mut ChessBoard,
    conductor: &PieceConductor,
    is_white: bool,
) -> (r: Vec<ChessMove>)
    requires
        old(chess_board).wf(),
        conductor.wf(),
    ensures
        final(chess_board).wf(),
        final(chess_board)@ == old(chess_board)@,
        r@ == all_legal_moves(old(chess_board)@, is_white),
{
    let mut move_list: Vec<ChessMove> = Vec::new();
    let mut friendly_pieces_bitboard: Bitboard = chess_board.get_own_pieces(is_white);
    let ghost p = chess_board@;
    let ghost mut k: int = 0;
    while !friendly_pieces_bitboard.is_empty()
        invariant
            conductor.wf(),
            chess_board.wf(),
            chess_board@ == p,
            0 <= k <= 64,
            move_list@ == legal_moves_below(p, is_white, k),
            forall|t: int|
                friendly_pieces_bitboard@.contains(t) <==> (p.has_color(t, is_white) && t >= k),
        decreases 64 - k,
    {
        let ghost waiting = friendly_pieces_bitboard@;
        let square: usize = friendly_pieces_bitboard.pop_lsb();
        proof {
            assert forall|t: int| k <= t < square implies (#[trigger] p.at(t)) is None || p.at(
                t,
            )->0.white != is_white by {
                assert(!waiting.contains(t));
            }
            lemma_legal_moves_below_skip(p, is_white, k, square as int);
            assert(p.has_color(square as int, is_white));
        }
        let pseudo_legal_moves = get_pseudo_legal_move_list_from_square(
            square as u16,
            chess_board,
            conductor,
            is_white,
        );
        let mut legal = keep_legal_moves(chess_board, conductor, &pseudo_legal_moves, is_white);
        move_list.append(&mut legal);
        proof {
            k = square + 1;
        }
    }
    proof {
        assert forall|t: int| k <= t < 64 implies (#[trigger] p.at(t)) is None || p.at(
            t,
        )->0.white != is_white by {
            assert(!friendly_pieces_bitboard@.contains(t));
        }
        lemma_legal_moves_below_skip(p, is_white, k, 64);
    }
    move_list
}

} // verus!
