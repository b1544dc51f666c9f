use crate::board_evaluation::{
    evaluate_board, evaluation, lemma_evaluation_bound, EVALUATION_BOUND,
};
use crate::chess_move::ChessMove;
use crate::chessboard::{lemma_board_sets, ChessBoard};
use crate::move_generator::get_all_legal_moves_for_color;
use crate::piece_conductor::PieceConductor;
use crate::position::{lemma_make_undo_roundtrip, Position};
use crate::rules::{all_legal_moves, in_check, lemma_all_legal_moves_sound};
use vstd::prelude::*;

verus! {

/// A score beyond every score that a search returns.
pub const SEARCH_INFINITY: i32 = 1_000_000_000;

/// The score of the side that mates; the side that is mated has its
/// negative.
pub const MATE_SCORE: i32 = 30000;

/// A sorted sequence of moves with one more move put in its place: behind
/// every move whose order key is not greater than its own.
pub open spec fn insert_ordered(sorted: Seq<ChessMove>, m: ChessMove) -> Seq<ChessMove>
    decreases sorted.len(),
{
    if sorted.len() == 0 {
        seq![m]
    } else if sorted.last().order_key() <= m.order_key() {
        sorted.push(m)
    } else {
        insert_ordered(sorted.drop_last(), m).push(sorted.last())
    }
}

/// The moves in the order of the search: by increasing order key, and moves
/// with the same key in the order in which they were given.
pub open spec fn sort_moves(moves: Seq<ChessMove>) -> Seq<ChessMove>
    decreases moves.len(),
{
    if moves.len() == 0 {
        Seq::empty()
    } else {
        insert_ordered(sort_moves(moves.drop_last()), moves.last())
    }
}

/// Whether the order keys of the moves never decrease.
pub open spec fn is_ordered(moves: Seq<ChessMove>) -> bool {
    forall|i: int, j: int|
        0 <= i <= j < moves.len() ==> (#[trigger] moves[i]).order_key() <= (
        #[trigger] moves[j]).order_key()
}

/// The place of a move in a sorted sequence is the index from which on
/// every move has a greater order key.
pub proof fn lemma_insert_ordered_at(sorted: Seq<ChessMove>, m: ChessMove, j: int)
    requires
        0 <= j <= sorted.len(),
        forall|k: int| j <= k < sorted.len() ==> (#[trigger] sorted[k]).order_key() > m.order_key(),
        j > 0 ==> sorted[j - 1].order_key() <= m.order_key(),
    ensures
        insert_ordered(sorted, m) == sorted.insert(j, m),
    decreases sorted.len() - j,
{
    if sorted.len() == 0 {
        assert(sorted.insert(j, m) =~= seq![m]);
    } else if j == sorted.len() {
        assert(sorted.insert(j, m) =~= sorted.push(m));
    } else {
        assert(sorted.last().order_key() > m.order_key());
        let front = sorted.drop_last();
        assert forall|k: int| j <= k < front.len() implies (#[trigger] front[k]).order_key()
            > m.order_key() by {
            assert(front[k] == sorted[k]);
        }
        if j > 0 {
            assert(front[j - 1] == sorted[j - 1]);
        }
        lemma_insert_ordered_at(front, m, j);
        assert(front.insert(j, m).push(sorted.last()) =~= sorted.insert(j, m));
    }
}

/// Putting a move in its place keeps the sequence ordered, makes it longer
/// by one, and adds this move and no other.
pub proof fn lemma_insert_ordered(sorted: Seq<ChessMove>, m: ChessMove)
    requires
        is_ordered(sorted),
    ensures
        is_ordered(insert_ordered(sorted, m)),
        insert_ordered(sorted, m).len() == sorted.len() + 1,
        insert_ordered(sorted, m).to_multiset() == sorted.to_multiset().insert(m),
        forall|i: int|
            0 <= i < insert_ordered(sorted, m).len() ==> #[trigger] insert_ordered(sorted, m)[i]
                == m || sorted.contains(insert_ordered(sorted, m)[i]),
    decreases sorted.len(),
{
    broadcast use vstd::seq_lib::group_to_multiset_ensures;

    let out = insert_ordered(sorted, m);
    if sorted.len() == 0 {
        assert(sorted =~= Seq::<ChessMove>::empty());
        assert(out =~= Seq::<ChessMove>::empty().push(m));
    } else if sorted.last().order_key() <= m.order_key() {
        assert forall|i: int| 0 <= i < out.len() implies #[trigger] out[i] == m || sorted.contains(
            out[i],
        ) by {
            if i < sorted.len() {
                assert(sorted[i] == out[i]);
            }
        }
    } else {
        let front = sorted.drop_last();
        let last = sorted.last();
        assert forall|i: int, j: int| 0 <= i <= j < front.len() implies (
        #[trigger] front[i]).order_key() <= (#[trigger] front[j]).order_key() by {
            assert(front[i] == sorted[i] && front[j] == sorted[j]);
        }
        lemma_insert_ordered(front, m);
        let inner = insert_ordered(front, m);
        assert(sorted =~= front.push(last));
        assert(out =~= inner.push(last));
        assert(sorted.to_multiset() =~= front.to_multiset().insert(last));
        assert(out.to_multiset() =~= inner.to_multiset().insert(last));
        assert(out.to_multiset() =~= sorted.to_multiset().insert(m));
        assert forall|i: int| 0 <= i < out.len() implies #[trigger] out[i] == m || sorted.contains(
            out[i],
        ) by {
            if i < inner.len() {
                if inner[i] != m {
                    let k = choose|k: int| 0 <= k < front.len() && front[k] == inner[i];
                    assert(sorted[k] == inner[i]);
                }
            } else {
                assert(sorted[sorted.len() - 1] == out[i]);
            }
        }
        assert forall|i: int, j: int| 0 <= i <= j < out.len() implies (
        #[trigger] out[i]).order_key() <= (#[trigger] out[j]).order_key() by {
            if j < inner.len() {
                assert(out[i] == inner[i] && out[j] == inner[j]);
            } else if i < inner.len() {
                assert(out[i] == inner[i]);
                if inner[i] != m {
                    let k = choose|k: int| 0 <= k < front.len() && front[k] == inner[i];
                    assert(sorted[k] == inner[i]);
                    assert(sorted[k].order_key() <= sorted[sorted.len() - 1].order_key());
                }
            }
        }
    }
}

/// The sorted moves are ordered, and they are the given moves: as many, the
/// same ones as often.
pub proof fn lemma_sort_moves(moves: Seq<ChessMove>)
    ensures
        is_ordered(sort_moves(moves)),
        sort_moves(moves).len() == moves.len(),
        sort_moves(moves).to_multiset() == moves.to_multiset(),
        forall|i: int|
            0 <= i < sort_moves(moves).len() ==> moves.contains(#[trigger] sort_moves(moves)[i]),
    decreases moves.len(),
{
    broadcast use vstd::seq_lib::group_to_multiset_ensures;

    if moves.len() == 0 {
        assert(moves =~= Seq::<ChessMove>::empty());
    } else {
        let front = moves.drop_last();
        lemma_sort_moves(front);
        lemma_insert_ordered(sort_moves(front), moves.last());
        assert(moves =~= front.push(moves.last()));
        assert(moves.to_multiset() =~= front.to_multiset().insert(moves.last()));
        let out = sort_moves(moves);
        assert forall|i: int| 0 <= i < out.len() implies moves.contains(#[trigger] out[i]) by {
            if out[i] == moves.last() {
                assert(moves[moves.len() - 1] == out[i]);
            } else {
                let k = choose|k: int|
                    0 <= k < sort_moves(front).len() && sort_moves(front)[k] == out[i];
                let j = choose|j: int| 0 <= j < front.len() && front[j] == sort_moves(front)[k];
                assert(moves[j] == out[i]);
            }
        }
    }
}

/// Sorts moves into the order of the search: by increasing order key,
/// moves with the same key in the order in which they were given.
pub fn sort_moves_by_key(moves: &Vec<ChessMove>) -> (r: Vec<ChessMove>)
    ensures
        r@ == sort_moves(moves@),
{
    let mut out: Vec<ChessMove> = Vec::new();
    let mut i: usize = 0;
    proof {
        assert(moves@.subrange(0, 0) =~= Seq::<ChessMove>::empty());
    }
    while i < moves.len()
        invariant
            i <= moves@.len(),
            out@ == sort_moves(moves@.subrange(0, i as int)),
            out@.len() == i,
        decreases moves@.len() - i,
    {
        let m: ChessMove = moves[i];
        let key: i64 = m.sort_key();
        let mut j: usize = out.len();
        while j > 0 && out[j - 1].sort_key() > key
            invariant
                j <= out@.len(),
                key == m.order_key(),
                forall|k: int| j <= k < out@.len() ==> (#[trigger] out@[k]).order_key() > key,
            decreases j,
        {
            j = j - 1;
        }
        proof {
            lemma_insert_ordered_at(out@, m, j as int);
            let next = moves@.subrange(0, i + 1);
            assert(next.drop_last() =~= moves@.subrange(0, i as int));
            assert(next.last() == m);
        }
        out.insert(j, m);
        i = i + 1;
    }
    proof {
        assert(moves@.subrange(0, moves@.len() as int) =~= moves@);
    }
    out
}

/// The result of the search from a position for the side `white`: a score
/// and the move that earned it, if any. At depth zero the score is the
/// evaluation as the side to move in `p` sees it, whichever side `white`
/// names. With no legal move it is the negative mate score for a side
/// in check and zero otherwise. Else the legal moves are tried in search
/// order, each answered by a search of the other side one level less deep
/// with the window turned round.
pub open spec fn search(p: Position, depth: nat, alpha: int, beta: int, white: bool) -> (
    int,
    Option<ChessMove>,
)
    decreases depth, 1nat, 0nat,
{
    if depth == 0 {
        (evaluation(p), None)
    } else {
        let moves = sort_moves(all_legal_moves(p, white));
        if moves.len() == 0 {
            (
                if in_check(p, white) {
                    -(MATE_SCORE as int)
                } else {
                    0int
                },
                None,
            )
        } else {
            search_moves(p, depth, alpha, beta, white, moves, 0, None)
        }
    }
}

/// The result of trying the moves from index `i` on, when the best score so
/// far is `alpha` and was earned by `best`: a move whose score is greater
/// than `alpha` takes the place of the best, and the trial ends as soon as
/// the score reaches `beta`.
pub open spec fn search_moves(
    p: Position,
    depth: nat,
    alpha: int,
    beta: int,
    white: bool,
    moves: Seq<ChessMove>,
    i: nat,
    best: Option<ChessMove>,
) -> (int, Option<ChessMove>)
    decreases depth, 0nat, moves.len() - i,
{
    if i >= moves.len() || depth == 0 {
        (alpha, best)
    } else {
        let m = moves[i as int];
        let score = -search(p.after_move(m), (depth - 1) as nat, -beta, -alpha, !white).0;
        let raised = if score > alpha {
            (score, Some(m))
        } else {
            (alpha, best)
        };
        if raised.0 >= beta {
            raised
        } else {
            search_moves(p, depth, raised.0, beta, white, moves, i + 1, raised.1)
        }
    }
}

/// Searches `depth` levels deep for the side `is_white` with the window from
/// `alpha` to `beta`, and returns the score with the move that earned it.
/// At depth zero the score is the evaluation of the board as its side to
/// move sees it. The board is left as it was.
pub fn alpha_beta(
    chess_board: &mut ChessBoard,
    conductor: &PieceConductor,
    depth: i32,
    alpha: i32,
    beta: i32,
    is_white: bool,
) -> (r: (i32, Option<ChessMove>))
    requires
        old(chess_board).wf(),
        conductor.wf(),
        depth >= 0,
        -SEARCH_INFINITY <= alpha <= SEARCH_INFINITY,
        -SEARCH_INFINITY <= beta <= SEARCH_INFINITY,
    ensures
        final(chess_board).wf(),
        final(chess_board)@ == old(chess_board)@,
        r.0 == search(old(chess_board)@, depth as nat, alpha as int, beta as int, is_white).0,
        r.1 == search(old(chess_board)@, depth as nat, alpha as int, beta as int, is_white).1,
        -SEARCH_INFINITY <= r.0 <= SEARCH_INFINITY,
    decreases depth,
{
    if depth == 0 {
        return (evaluate_board(chess_board), None);
    }
    let ghost p = chess_board@;
    proof {
        lemma_board_sets(*chess_board);
    }
    let legal_moves = get_all_legal_moves_for_color(chess_board, conductor, is_white);
    let moves = sort_moves_by_key(&legal_moves);
    proof {
        lemma_all_legal_moves_sound(p, is_white);
        lemma_sort_moves(legal_moves@);
        assert forall|k: int| 0 <= k < moves@.len() implies p.accepts(#[trigger] moves@[k])
            && p.annotate(moves@[k]) == moves@[k] by {
            let j = choose|j: int| 0 <= j < legal_moves@.len() && legal_moves@[j] == moves@[k];
            assert(p.accepts(legal_moves@[j]));
        }
    }
    if moves.len() == 0 {
        let score: i32 = if conductor.is_king_in_check(chess_board, is_white) {
            -MATE_SCORE
        } else {
            0
        };
        return (score, None);
    }
    let mut best_score: i32 = alpha;
    let mut best_move: Option<ChessMove> = None;
    let mut i: usize = 0;
    while i < moves.len()
        invariant
            i <= moves@.len(),
            depth > 0,
            conductor.wf(),
            chess_board.wf(),
            chess_board@ == p,
            p == old(chess_board)@,
            p.wf(),
            moves@ == sort_moves(all_legal_moves(p, is_white)),
            forall|k: int|
                0 <= k < moves@.len() ==> p.accepts(#[trigger] moves@[k]) && p.annotate(moves@[k])
                    == moves@[k],
            -SEARCH_INFINITY <= best_score <= SEARCH_INFINITY,
            -SEARCH_INFINITY <= beta <= SEARCH_INFINITY,
            search_moves(
                p,
                depth as nat,
                best_score as int,
                beta as int,
                is_white,
                moves@,
                i as nat,
                best_move,
            ) == search_moves(p, depth as nat, alpha as int, beta as int, is_white, moves@, 0, None),
        decreases moves@.len() - i,
    {
        let mut chess_move: ChessMove = moves[i];
        let made: bool = chess_board.make_move(&mut chess_move);
        assert(made);
        let answer = alpha_beta(chess_board, conductor, depth - 1, -beta, -best_score, !is_white);
        let score: i32 = -answer.0;
        chess_board.undo_move();
        proof {
            lemma_make_undo_roundtrip(p, moves@[i as int]);
        }
        if score > best_score {
            best_score = score;
            best_move = Some(chess_move);
        }
        if best_score >= beta {
            return (best_score, best_move);
        }
        i = i + 1;
    }
    (best_score, best_move)
}

/// The move that a search of `depth` levels finds best for the side to
/// move, if it finds one. The board is left as it was.
pub fn choose_move(chess_board: &mut ChessBoard, conductor: &PieceConductor, depth: i32) -> (r:
    Option<ChessMove>)
    requires
        old(chess_board).wf(),
        conductor.wf(),
        depth >= 0,
    ensures
        final(chess_board).wf(),
        final(chess_board)@ == old(chess_board)@,
        r == search(
            old(chess_board)@,
            depth as nat,
            -(SEARCH_INFINITY as int),
            SEARCH_INFINITY as int,
            old(chess_board)@.white_to_move,
        ).1,
{
    let is_white: bool = chess_board.is_white_active();
    let found = alpha_beta(
        chess_board,
        conductor,
        depth,
        -SEARCH_INFINITY,
        SEARCH_INFINITY,
        is_white,
    );
    found.1
}

/// The greater of two integers.
pub open spec fn max_of(a: int, b: int) -> int {
    if a >= b {
        a
    } else {
        b
    }
}

/// The smaller of two integers.
pub open spec fn min_of(a: int, b: int) -> int {
    if a <= b {
        a
    } else {
        b
    }
}

/// The score of a search is not greater than the greater of `alpha` and the
/// evaluation bound, and not smaller than the smaller of `beta` and the
/// negative evaluation bound.
pub proof fn lemma_search_range(p: Position, depth: nat, alpha: int, beta: int, white: bool)
    ensures
        search(p, depth, alpha, beta, white).0 <= max_of(alpha, EVALUATION_BOUND as int),
        search(p, depth, alpha, beta, white).0 >= min_of(beta, -(EVALUATION_BOUND as int)),
    decreases depth, 1nat, 0nat,
{
    if depth == 0 {
        lemma_evaluation_bound(p, p.white_to_move);
    } else {
        let moves = sort_moves(all_legal_moves(p, white));
        if moves.len() > 0 {
            lemma_search_moves_range(p, depth, alpha, beta, white, moves, 0, None);
            let m = moves[0];
            let child = search(p.after_move(m), (depth - 1) as nat, -beta, -alpha, !white).0;
            lemma_search_range(p.after_move(m), (depth - 1) as nat, -beta, -alpha, !white);
            let score = -child;
            let raised = if score > alpha {
                (score, Some(m))
            } else {
                (alpha, None::<ChessMove>)
            };
            if raised.0 < beta {
                lemma_search_moves_range(p, depth, raised.0, beta, white, moves, 1, raised.1);
            }
        }
    }
}

/// Trying further moves never lowers the score, never raises it above the
/// greater of `alpha` and the evaluation bound, and ends with the best move
/// so far or with one of the moves that were tried.
pub proof fn lemma_search_moves_range(
    p: Position,
    depth: nat,
    alpha: int,
    beta: int,
    white: bool,
    moves: Seq<ChessMove>,
    i: nat,
    best: Option<ChessMove>,
)
    ensures
        search_moves(p, depth, alpha, beta, white, moves, i, best).0 >= alpha,
        search_moves(p, depth, alpha, beta, white, moves, i, best).0 <= max_of(
            alpha,
            EVALUATION_BOUND as int,
        ),
        search_moves(p, depth, alpha, beta, white, moves, i, best).1 == best || exists|k: int|
            i <= k < moves.len() && search_moves(p, depth, alpha, beta, white, moves, i, best).1
                == Some(#[trigger] moves[k]),
    decreases depth, 0nat, moves.len() - i,
{
    if i >= moves.len() || depth == 0 {
    } else {
        let m = moves[i as int];
        let child = search(p.after_move(m), (depth - 1) as nat, -beta, -alpha, !white).0;
        lemma_search_range(p.after_move(m), (depth - 1) as nat, -beta, -alpha, !white);
        let score = -child;
        let raised = if score > alpha {
            (score, Some(m))
        } else {
            (alpha, best)
        };
        if raised.0 >= beta {
            if score > alpha {
                assert(i <= i < moves.len() && raised.1 == Some(moves[i as int]));
            }
        } else {
            lemma_search_moves_range(p, depth, raised.0, beta, white, moves, i + 1, raised.1);
            let r = search_moves(p, depth, raised.0, beta, white, moves, i + 1, raised.1);
            if r.1 == raised.1 {
                if score > alpha {
                    assert(i <= i < moves.len() && r.1 == Some(moves[i as int]));
                }
            } else {
                let k = choose|k: int| i + 1 <= k < moves.len() && r.1 == Some(#[trigger] moves[k]);
                assert(i <= k < moves.len() && r.1 == Some(moves[k]));
            }
        }
    }
}

/// A search of depth zero finds no move. A search of positive depth with the
/// full window, from a position in which the side has a legal move, finds
/// one of the legal moves of the side.
pub proof fn lemma_search_finds_legal_move(p: Position, depth: nat, white: bool)
    ensures
        search(p, 0, -(SEARCH_INFINITY as int), SEARCH_INFINITY as int, white).1 is None,
        depth > 0 && all_legal_moves(p, white).len() > 0 ==> {
            let found = search(
                p,
                depth,
                -(SEARCH_INFINITY as int),
                SEARCH_INFINITY as int,
                white,
            ).1;
            found is Some && all_legal_moves(p, white).contains(found->0)
        },
        depth > 0 && all_legal_moves(p, white).len() == 0 ==> search(
            p,
            depth,
            -(SEARCH_INFINITY as int),
            SEARCH_INFINITY as int,
            white,
        ).1 is None,
{
    let low = -(SEARCH_INFINITY as int);
    let high = SEARCH_INFINITY as int;
    let legal = all_legal_moves(p, white);
    let moves = sort_moves(legal);
    lemma_sort_moves(legal);
    if depth > 0 && legal.len() > 0 {
        let m = moves[0];
        let child = search(p.after_move(m), (depth - 1) as nat, -high, -low, !white).0;
        lemma_search_range(p.after_move(m), (depth - 1) as nat, -high, -low, !white);
        let score = -child;
        assert(score > low);
        let raised = (score, Some(m));
        let found = search(p, depth, low, high, white).1;
        if raised.0 >= high {
            assert(found == Some(m));
            assert(legal.contains(moves[0]));
        } else {
            lemma_search_moves_range(p, depth, raised.0, high, white, moves, 1, raised.1);
            if found == raised.1 {
                assert(legal.contains(moves[0]));
            } else {
                let k = choose|k: int| 1 <= k < moves.len() && found == Some(#[trigger] moves[k]);
                assert(legal.contains(moves[k]));
            }
        }
    }
}

} // verus!
