use crate::chess_move::ChessMove;
use crate::chessboard::ChessBoard;
use vstd::prelude::*;

verus! {

/// What a player asks the board to do.
#[derive(Debug, Clone, Copy, PartialEq, Eq, Structural)]
pub enum ChessAction {
    MakeMove,
    Undo,
}

/// A request to the board.
#[derive(Debug, Clone, Copy, PartialEq, Eq, Structural)]
pub struct ChessEvent {
    pub action: ChessAction,
}

impl ChessEvent {
    /// The request for the given action.
    pub fn new(action: ChessAction) -> (r: ChessEvent)
        ensures
            r.action == action,
    {
        ChessEvent { action }
    }
}

/// The moves that a picked-up piece may make.
pub struct ValidMoves {
    pub moves: Vec<ChessMove>,
}

impl ValidMoves {
    /// No moves.
    pub fn new() -> (r: ValidMoves)
        ensures
            r.moves@.len() == 0,
    {
        ValidMoves { moves: Vec::new() }
    }

    /// Replaces the moves.
    pub fn set_moves(&mut self, moves: Vec<ChessMove>)
        ensures
            final(self).moves == moves,
    {
        self.moves = moves;
    }

    /// The move that a piece makes when it is dropped on `square` after it
    /// was picked up on `origin`: the first of the valid moves that ends on
    /// `square`, and none if the piece is dropped where it was picked up.
    pub fn move_for_drop(&self, origin: u16, square: u16) -> (r: Option<ChessMove>)
        ensures
            r == if origin == square {
                None::<ChessMove>
            } else {
                first_move_to(self.moves@, square as int, 0)
            },
    {
        if origin == square {
            return None;
        }
        let mut i: usize = 0;
        while i < self.moves.len()
            invariant
                i <= self.moves@.len(),
                origin != square,
                first_move_to(self.moves@, square as int, i as int) == first_move_to(
                    self.moves@,
                    square as int,
                    0,
                ),
            decreases self.moves@.len() - i,
        {
            if self.moves[i].target_square() == square {
                return Some(self.moves[i]);
            }
            i = i + 1;
        }
        None
    }
}

/// The first of the moves from index `i` on that ends on `square`.
pub open spec fn first_move_to(moves: Seq<ChessMove>, square: int, i: int) -> Option<ChessMove>
    decreases moves.len() - i,
{
    if i < 0 || i >= moves.len() {
        None
    } else if moves[i].to_sq() == square {
        Some(moves[i])
    } else {
        first_move_to(moves, square, i + 1)
    }
}

/// Whether a move ends on a square of the board that holds a piece, so that
/// making it takes that piece.
pub fn is_capture(chess_board: &ChessBoard, chess_move: &ChessMove) -> (r: bool)
    ensures
        r == (chess_board@.at(chess_move.to_sq()) is Some),
{
    chess_board.get_piece_at_square(chess_move.target_square()).is_some()
}

/// The move with which the engine answers: the move that the search found,
/// or the first legal move if it found none, or no move if there is none.
pub fn engine_reply(found: Option<ChessMove>, legal_moves: &Vec<ChessMove>) -> (r: Option<
    ChessMove,
>)
    ensures
        r == if found is Some {
            found
        } else if legal_moves@.len() > 0 {
            Some(legal_moves@[0])
        } else {
            None::<ChessMove>
        },
{
    match found {
        Some(m) => Some(m),
        None => {
            if legal_moves.len() > 0 {
                Some(legal_moves[0])
            } else {
                None
            }
        },
    }
}

} // verus!
