use crate::chessboard::ChessBoard;
use crate::move_generator::get_all_legal_moves_for_color;
use crate::piece_conductor::PieceConductor;
use crate::position::Position;
use crate::rules::{all_legal_moves, in_check};
use vstd::prelude::*;

verus! {

/// Whether a game goes on, and how it ended if it does not.
#[derive(Debug, Clone, Copy, PartialEq, Eq, Structural)]
pub enum GameState {
    /// The side to move has a legal move.
    Ongoing,
    /// The side to move has no legal move and is in check.
    Checkmate,
    /// The side to move has no legal move and is not in check.
    Stalemate,
}

/// The state of the game in a position.
pub open spec fn state_of(p: Position) -> GameState {
    if all_legal_moves(p, p.white_to_move).len() > 0 {
        GameState::Ongoing
    } else if in_check(p, p.white_to_move) {
        GameState::Checkmate
    } else {
        GameState::Stalemate
    }
}

/// The state of the game on the board. The board is left as it was.
pub fn game_state(chess_board: &mut ChessBoard, conductor: &PieceConductor) -> (r: GameState)
    requires
        old(chess_board).wf(),
        conductor.wf(),
    ensures
        final(chess_board).wf(),
        final(chess_board)@ == old(chess_board)@,
        r == state_of(old(chess_board)@),
{
    let is_white: bool = chess_board.is_white_active();
    let legal_moves = get_all_legal_moves_for_color(chess_board, conductor, is_white);
    if legal_moves.len() > 0 {
        GameState::Ongoing
    } else if conductor.is_king_in_check(chess_board, is_white) {
        GameState::Checkmate
    } else {
        GameState::Stalemate
    }
}

} // verus!
