use crate::chess_move::ChessMove;
use crate::chessboard::{lemma_board_sets, ChessBoard};
use crate::move_generator::get_all_legal_moves_for_color;
use crate::piece_conductor::PieceConductor;
use crate::position::{lemma_make_undo_roundtrip, Position};
use crate::rules::{all_legal_moves, lemma_all_legal_moves_sound};
use vstd::prelude::*;

verus! {

/// The number of ways to play `depth` legal moves in a row from a position,
/// the side to move first.
pub open spec fn perft_count(p: Position, depth: nat) -> nat
    decreases depth, 1nat, 0nat,
{
    if depth == 0 {
        1
    } else {
        let moves = all_legal_moves(p, p.white_to_move);
        perft_sum(p, depth, moves, moves.len())
    }
}

/// The number of ways to play `depth` legal moves in a row from a position
/// when the first of them is one of the first `n` of `moves`.
pub open spec fn perft_sum(p: Position, depth: nat, moves: Seq<ChessMove>, n: nat) -> nat
    decreases depth, 0nat, n,
{
    if n == 0 || depth == 0 {
        0
    } else {
        perft_sum(p, depth, moves, (n - 1) as nat) + perft_count(
            p.after_move(moves[n - 1]),
            (depth - 1) as nat,
        )
    }
}

/// The sum over more first moves is not smaller.
pub proof fn lemma_perft_sum_grows(p: Position, depth: nat, moves: Seq<ChessMove>, a: nat, b: nat)
    requires
        a <= b,
    ensures
        perft_sum(p, depth, moves, a) <= perft_sum(p, depth, moves, b),
    decreases b - a,
{
    if a < b && depth > 0 {
        lemma_perft_sum_grows(p, depth, moves, a, (b - 1) as nat);
    }
}

/// Counts the ways to play `depth` legal moves in a row from the position on
/// the board. There is no count if it does not fit into 64 bits. The board
/// is left as it was.
pub fn perft(depth: u32, chess_board: &mut ChessBoard, conductor: &PieceConductor) -> (r: Option<
    u64,
>)
    requires
        old(chess_board).wf(),
        conductor.wf(),
    ensures
        final(chess_board).wf(),
        final(chess_board)@ == old(chess_board)@,
        r == if perft_count(old(chess_board)@, depth as nat) <= u64::MAX {
            Some(perft_count(old(chess_board)@, depth as nat) as u64)
        } else {
            None::<u64>
        },
    decreases depth,
{
    if depth == 0 {
        return Some(1);
    }
    let ghost p = chess_board@;
    proof {
        lemma_board_sets(*chess_board);
    }
    let is_white: bool = chess_board.is_white_active();
    let legal_moves = get_all_legal_moves_for_color(chess_board, conductor, is_white);
    proof {
        lemma_all_legal_moves_sound(p, is_white);
    }
    let mut total_nodes: u64 = 0;
    let mut i: usize = 0;
    while i < legal_moves.len()
        invariant
            i <= legal_moves@.len(),
            depth > 0,
            conductor.wf(),
            chess_board.wf(),
            chess_board@ == p,
            p == old(chess_board)@,
            p.wf(),
            legal_moves@ == all_legal_moves(p, p.white_to_move),
            forall|k: int| 0 <= k < legal_moves@.len() ==> p.accepts(#[trigger] legal_moves@[k]),
            total_nodes == perft_sum(p, depth as nat, legal_moves@, i as nat),
        decreases legal_moves@.len() - i,
    {
        let mut m: ChessMove = legal_moves[i];
        let made: bool = chess_board.make_move(&mut m);
        assert(made);
        let nodes = perft(depth - 1, chess_board, conductor);
        chess_board.undo_move();
        proof {
            lemma_make_undo_roundtrip(p, legal_moves@[i as int]);
            lemma_perft_sum_grows(
                p,
                depth as nat,
                legal_moves@,
                (i + 1) as nat,
                legal_moves@.len(),
            );
        }
        match nodes {
            Some(count) => match total_nodes.checked_add(count) {
                Some(sum) => {
                    total_nodes = sum;
                },
                None => {
                    return None;
                },
            },
            None => {
                return None;
            },
        }
        i = i + 1;
    }
    Some(total_nodes)
}

} // verus!
