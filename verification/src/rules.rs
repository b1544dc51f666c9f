use crate::attacks::{
    abs, bishop_attacks, king_targets, knight_targets, pawn_attack_targets, queen_attacks,
    rook_attacks,
};
use crate::chess_move::{lemma_move_word, lemma_pack_fields, pack_move, ChessMove};
use crate::piece::PieceType;
use crate::position::{
    is_square, king_home, pawn_last_rank, pawn_start_rank, pawn_step, sq_file, sq_rank, Position,
    BLACK_KING_SIDE, BLACK_QUEEN_SIDE, WHITE_KING_SIDE, WHITE_QUEEN_SIDE,
};
use vstd::prelude::*;

verus! {

/// The move from `from` to `to` with the given flag, before the moving and
/// the captured piece are recorded in it.
pub open spec fn bare_move(from: int, to: int, flag: u16) -> ChessMove {
    ChessMove { move_value: pack_move(from as u16, to as u16, flag), chess_piece: None, capture: None }
}

/// The squares that the piece on `sq` attacks, with every piece of the
/// position as a blocker. An empty square attacks nothing.
pub open spec fn attack_set(p: Position, sq: int) -> Set<int> {
    match p.at(sq) {
        None => Set::empty(),
        Some(piece) => match piece.kind {
            PieceType::Pawn => pawn_attack_targets(piece.white, sq),
            PieceType::Knight => knight_targets(sq),
            PieceType::Bishop => bishop_attacks(sq, p.occupied()),
            PieceType::Rook => rook_attacks(sq, p.occupied()),
            PieceType::Queen => queen_attacks(sq, p.occupied()),
            PieceType::King => king_targets(sq),
        },
    }
}

/// The squares attacked by the enemies of the side `white` that stand on a
/// square below `n`.
pub open spec fn threats_below(p: Position, white: bool, n: int) -> Set<int>
    decreases n,
{
    if n <= 0 {
        Set::empty()
    } else if p.has_color(n - 1, !white) {
        threats_below(p, white, n - 1).union(attack_set(p, n - 1))
    } else {
        threats_below(p, white, n - 1)
    }
}

/// The threat map of the side `white`: every square that some piece of the
/// other side attacks.
pub open spec fn threat_map(p: Position, white: bool) -> Set<int> {
    threats_below(p, white, 64)
}

/// Whether a king of the side `white` stands on a square of its threat map.
pub open spec fn in_check(p: Position, white: bool) -> bool {
    exists|k: int| p.has_piece(k, PieceType::King, white) && threat_map(p, white).contains(k)
}

/// A square is threatened exactly when some enemy piece below `n` attacks it.
pub proof fn lemma_threats_below(p: Position, white: bool, n: int, t: int)
    requires
        n <= 64,
    ensures
        threats_below(p, white, n).contains(t) <==> exists|sq: int|
            0 <= sq < n && p.has_color(sq, !white) && #[trigger] attack_set(p, sq).contains(t),
    decreases n,
{
    if n > 0 {
        lemma_threats_below(p, white, n - 1, t);
        if threats_below(p, white, n).contains(t) {
            if p.has_color(n - 1, !white) && attack_set(p, n - 1).contains(t) {
            } else {
                let sq = choose|sq: int|
                    0 <= sq < n - 1 && p.has_color(sq, !white) && #[trigger] attack_set(
                        p,
                        sq,
                    ).contains(t);
                assert(0 <= sq < n && p.has_color(sq, !white) && attack_set(p, sq).contains(t));
            }
        }
        if exists|sq: int|
            0 <= sq < n && p.has_color(sq, !white) && #[trigger] attack_set(p, sq).contains(t) {
            let sq = choose|sq: int|
                0 <= sq < n && p.has_color(sq, !white) && #[trigger] attack_set(p, sq).contains(t);
            if sq < n - 1 {
                assert(threats_below(p, white, n - 1).contains(t));
            }
        }
    }
}

/// A king is in check exactly when some piece of the other side attacks the
/// square on which it stands.
pub proof fn lemma_in_check_iff_attacked(p: Position, white: bool)
    ensures
        in_check(p, white) <==> exists|k: int, sq: int|
            p.has_piece(k, PieceType::King, white) && is_square(sq) && p.has_color(sq, !white)
                && #[trigger] attack_set(p, sq).contains(k),
{
    if in_check(p, white) {
        let k = choose|k: int|
            p.has_piece(k, PieceType::King, white) && threat_map(p, white).contains(k);
        lemma_threats_below(p, white, 64, k);
        let sq = choose|sq: int|
            0 <= sq < 64 && p.has_color(sq, !white) && #[trigger] attack_set(p, sq).contains(k);
        assert(p.has_piece(k, PieceType::King, white) && is_square(sq) && p.has_color(sq, !white)
            && attack_set(p, sq).contains(k));
    }
    if exists|k: int, sq: int|
        p.has_piece(k, PieceType::King, white) && is_square(sq) && p.has_color(sq, !white)
            && #[trigger] attack_set(p, sq).contains(k) {
        let (k, sq) = choose|k: int, sq: int|
            p.has_piece(k, PieceType::King, white) && is_square(sq) && p.has_color(sq, !white)
                && #[trigger] attack_set(p, sq).contains(k);
        lemma_threats_below(p, white, 64, k);
        assert(threat_map(p, white).contains(k));
    }
}

/// The moves without a flag from `from` to each square of `targets` below
/// `n`, in increasing order of the target.
pub open spec fn moves_below(from: int, targets: Set<int>, n: int) -> Seq<ChessMove>
    decreases n,
{
    if n <= 0 {
        Seq::empty()
    } else if targets.contains(n - 1) {
        moves_below(from, targets, n - 1).push(bare_move(from, n - 1, 0))
    } else {
        moves_below(from, targets, n - 1)
    }
}

/// The moves without a flag from `from` to each square of `targets`, in
/// increasing order of the target.
pub open spec fn moves_to(from: int, targets: Set<int>) -> Seq<ChessMove> {
    moves_below(from, targets, 64)
}

/// Between two bounds with no target in between, the moves are the same.
pub proof fn lemma_moves_below_skip(from: int, targets: Set<int>, lo: int, hi: int)
    requires
        lo <= hi,
        forall|t: int| lo <= t < hi ==> !targets.contains(t),
    ensures
        moves_below(from, targets, hi) == moves_below(from, targets, lo),
    decreases hi - lo,
{
    if lo < hi {
        lemma_moves_below_skip(from, targets, lo, hi - 1);
    }
}

/// The rank from which a pawn of a colour steps onto its last rank.
pub open spec fn pawn_seventh_rank(white: bool) -> int {
    if white {
        6
    } else {
        1
    }
}

/// The rank on which a pawn of a colour stands when it can capture en
/// passant.
pub open spec fn en_passant_rank(white: bool) -> int {
    if white {
        4
    } else {
        3
    }
}

/// The square to which the pawn on `sq` can capture en passant: the last
/// move was a double push of a pawn that now stands on the neighbouring
/// file of the same rank, and the pawn on `sq` stands on its en-passant
/// rank. The target is the square that the pushed pawn passed over.
pub open spec fn en_passant_target(p: Position, sq: int, white: bool) -> Option<int> {
    match p.last_move() {
        Some(last) => if last.flag_of() == 3 && sq_rank(sq) == en_passant_rank(white) && sq_rank(
            last.to_sq(),
        ) == sq_rank(sq) && abs(sq_file(sq) - sq_file(last.to_sq())) == 1 {
            Some(last.to_sq() + pawn_step(white))
        } else {
            None
        },
        None => None,
    }
}

/// The moves of the pawn on `sq` before promotions are spelled out: the
/// single push to an empty square, the double push from the start rank over
/// an empty square to an empty square, the capture to the left and to the
/// right of an enemy piece, and the en-passant capture.
pub open spec fn pawn_base_moves(p: Position, sq: int, white: bool) -> Seq<ChessMove> {
    let one = sq + pawn_step(white);
    let two = one + pawn_step(white);
    let left = if white {
        sq + 7
    } else {
        sq - 9
    };
    let right = if white {
        sq + 9
    } else {
        sq - 7
    };
    (if is_square(one) && p.at(one) is None {
        seq![bare_move(sq, one, 0)]
    } else {
        Seq::<ChessMove>::empty()
    }) + (if sq_rank(sq) == pawn_start_rank(white) && is_square(two) && p.at(one) is None && p.at(
        two,
    ) is None {
        seq![bare_move(sq, two, 3)]
    } else {
        Seq::<ChessMove>::empty()
    }) + (if sq_file(sq) > 0 && is_square(left) && p.has_color(left, !white) {
        seq![bare_move(sq, left, 0)]
    } else {
        Seq::<ChessMove>::empty()
    }) + (if sq_file(sq) < 7 && is_square(right) && p.has_color(right, !white) {
        seq![bare_move(sq, right, 0)]
    } else {
        Seq::<ChessMove>::empty()
    }) + (match en_passant_target(p, sq, white) {
        Some(target) => seq![bare_move(sq, target, 1)],
        None => Seq::<ChessMove>::empty(),
    })
}

/// Each move replaced by its four promotions, to queen, rook, bishop and
/// knight in that order.
pub open spec fn promote_all(moves: Seq<ChessMove>) -> Seq<ChessMove>
    decreases moves.len(),
{
    if moves.len() == 0 {
        Seq::empty()
    } else {
        let m = moves.last();
        promote_all(moves.drop_last()) + seq![
            bare_move(m.from_sq(), m.to_sq(), 4),
            bare_move(m.from_sq(), m.to_sq(), 6),
            bare_move(m.from_sq(), m.to_sq(), 7),
            bare_move(m.from_sq(), m.to_sq(), 5),
        ]
    }
}

/// The moves of the pawn on `sq`. A pawn one step from its last rank makes
/// each of its moves as four promotions; any other pawn makes its moves as
/// they are.
pub open spec fn pawn_moves(p: Position, sq: int, white: bool) -> Seq<ChessMove> {
    if sq_rank(sq) == pawn_seventh_rank(white) {
        promote_all(pawn_base_moves(p, sq, white))
    } else {
        pawn_base_moves(p, sq, white)
    }
}

/// The castling right of a colour on one side.
pub open spec fn castle_right(white: bool, king_side: bool) -> u8 {
    if white {
        if king_side {
            WHITE_KING_SIDE
        } else {
            WHITE_QUEEN_SIDE
        }
    } else {
        if king_side {
            BLACK_KING_SIDE
        } else {
            BLACK_QUEEN_SIDE
        }
    }
}

/// Whether the king of the side `white` on `sq` may castle to one side: it
/// stands on its home square, the right is there, the rook stands in its
/// corner, every square between king and rook is empty, the king is not in
/// check, and neither of the two squares that it crosses is threatened.
pub open spec fn can_castle(p: Position, sq: int, white: bool, king_side: bool) -> bool {
    let rook = if king_side {
        sq + 3
    } else {
        sq - 4
    };
    let step = if king_side {
        1int
    } else {
        -1int
    };
    &&& sq == king_home(white)
    &&& p.has_piece(sq, PieceType::King, white)
    &&& p.castling_rights & castle_right(white, king_side) != 0
    &&& p.has_piece(rook, PieceType::Rook, white)
    &&& forall|x: int| (sq < x < rook || rook < x < sq) ==> p.at(x) is None
    &&& !in_check(p, white)
    &&& !threat_map(p, white).contains(sq + step)
    &&& !threat_map(p, white).contains(sq + 2 * step)
}

/// The castling moves of the king of the side `white` on `sq`: to the
/// king's side first, then to the queen's side.
pub open spec fn castling_moves(p: Position, sq: int, white: bool) -> Seq<ChessMove> {
    (if can_castle(p, sq, white, true) {
        seq![bare_move(sq, sq + 2, 2)]
    } else {
        Seq::<ChessMove>::empty()
    }) + (if can_castle(p, sq, white, false) {
        seq![bare_move(sq, sq - 2, 2)]
    } else {
        Seq::<ChessMove>::empty()
    })
}

/// The pseudo-legal moves of the piece on `sq` for the side `white`: the
/// moves that obey the way the piece moves, whether or not they leave the
/// king in check. A piece other than a pawn moves to the squares that it
/// attacks and that hold no piece of the side; a king castles besides.
pub open spec fn pseudo_moves_from(p: Position, sq: int, white: bool) -> Seq<ChessMove> {
    let own = p.color_squares(white);
    match p.at(sq) {
        None => Seq::empty(),
        Some(piece) => match piece.kind {
            PieceType::Rook => moves_to(sq, rook_attacks(sq, p.occupied()).difference(own)),
            PieceType::Bishop => moves_to(sq, bishop_attacks(sq, p.occupied()).difference(own)),
            PieceType::Queen => moves_to(sq, rook_attacks(sq, p.occupied()).difference(own))
                + moves_to(sq, bishop_attacks(sq, p.occupied()).difference(own)),
            PieceType::King => moves_to(sq, king_targets(sq).difference(own)) + castling_moves(
                p,
                sq,
                white,
            ),
            PieceType::Knight => moves_to(sq, knight_targets(sq).difference(own)),
            PieceType::Pawn => pawn_moves(p, sq, white),
        },
    }
}

/// Whether a move is legal for the side `white`: the position accepts it
/// and it does not leave a king of the side in check.
pub open spec fn is_legal(p: Position, m: ChessMove, white: bool) -> bool {
    p.accepts(m) && !in_check(p.after_move(m), white)
}

/// The legal ones among the first `n` of the given moves, each with the
/// moving and the captured piece recorded in it.
pub open spec fn legal_among(p: Position, moves: Seq<ChessMove>, white: bool, n: int) -> Seq<
    ChessMove,
>
    decreases n,
{
    if n <= 0 {
        Seq::empty()
    } else if is_legal(p, moves[n - 1], white) {
        legal_among(p, moves, white, n - 1).push(p.annotate(moves[n - 1]))
    } else {
        legal_among(p, moves, white, n - 1)
    }
}

/// The legal moves of the piece on `sq` for the side `white`.
pub open spec fn legal_moves_from(p: Position, sq: int, white: bool) -> Seq<ChessMove> {
    let pseudo = pseudo_moves_from(p, sq, white);
    legal_among(p, pseudo, white, pseudo.len() as int)
}

/// The legal moves of the pieces of the side `white` that stand on a square
/// below `n`, square by square.
pub open spec fn legal_moves_below(p: Position, white: bool, n: int) -> Seq<ChessMove>
    decreases n,
{
    if n <= 0 {
        Seq::empty()
    } else if p.has_color(n - 1, white) {
        legal_moves_below(p, white, n - 1) + legal_moves_from(p, n - 1, white)
    } else {
        legal_moves_below(p, white, n - 1)
    }
}

/// All legal moves of the side `white`.
pub open spec fn all_legal_moves(p: Position, white: bool) -> Seq<ChessMove> {
    legal_moves_below(p, white, 64)
}

/// Whether every move of the sequence starts on `sq`.
pub open spec fn all_from(moves: Seq<ChessMove>, sq: int) -> bool {
    forall|i: int| 0 <= i < moves.len() ==> (#[trigger] moves[i]).from_sq() == sq
}

/// A bare move between two squares reads back its squares and its flag.
pub proof fn lemma_bare_move_fields(from: int, to: int, flag: u16)
    requires
        is_square(from),
        is_square(to),
        flag < 16,
    ensures
        bare_move(from, to, flag).from_sq() == from,
        bare_move(from, to, flag).to_sq() == to,
        bare_move(from, to, flag).flag_of() == flag,
{
    lemma_pack_fields(from as u16, to as u16, flag);
}

/// The moves to a set of targets all start on the same square and end on a
/// target.
pub proof fn lemma_moves_below_fields(from: int, targets: Set<int>, n: int)
    requires
        is_square(from),
        n <= 64,
    ensures
        all_from(moves_below(from, targets, n), from),
        forall|i: int|
            0 <= i < moves_below(from, targets, n).len() ==> {
                let m = #[trigger] moves_below(from, targets, n)[i];
                &&& m.flag_of() == 0
                &&& 0 <= m.to_sq() < n
                &&& targets.contains(m.to_sq())
            },
    decreases n,
{
    if n > 0 {
        lemma_moves_below_fields(from, targets, n - 1);
        if targets.contains(n - 1) {
            lemma_bare_move_fields(from, n - 1, 0);
        }
    }
}

/// The four promotions of each move keep its squares.
pub proof fn lemma_promote_all_fields(moves: Seq<ChessMove>)
    ensures
        promote_all(moves).len() == 4 * moves.len(),
        forall|j: int|
            0 <= j < moves.len() ==> {
                let m = #[trigger] moves[j];
                &&& promote_all(moves)[4 * j] == bare_move(m.from_sq(), m.to_sq(), 4)
                &&& promote_all(moves)[4 * j + 1] == bare_move(m.from_sq(), m.to_sq(), 6)
                &&& promote_all(moves)[4 * j + 2] == bare_move(m.from_sq(), m.to_sq(), 7)
                &&& promote_all(moves)[4 * j + 3] == bare_move(m.from_sq(), m.to_sq(), 5)
            },
    decreases moves.len(),
{
    if moves.len() > 0 {
        lemma_promote_all_fields(moves.drop_last());
        assert forall|j: int| 0 <= j < moves.len() implies {
            let m = #[trigger] moves[j];
            &&& promote_all(moves)[4 * j] == bare_move(m.from_sq(), m.to_sq(), 4)
            &&& promote_all(moves)[4 * j + 1] == bare_move(m.from_sq(), m.to_sq(), 6)
            &&& promote_all(moves)[4 * j + 2] == bare_move(m.from_sq(), m.to_sq(), 7)
            &&& promote_all(moves)[4 * j + 3] == bare_move(m.from_sq(), m.to_sq(), 5)
        } by {
            if j < moves.len() - 1 {
                assert(moves.drop_last()[j] == moves[j]);
            }
        }
    }
}

/// Every pseudo-legal move of the piece on `sq` starts on `sq`.
pub proof fn lemma_pseudo_moves_from(p: Position, sq: int, white: bool)
    requires
        p.wf(),
        is_square(sq),
    ensures
        all_from(pseudo_moves_from(p, sq, white), sq),
{
    let own = p.color_squares(white);
    let occ = p.occupied();
    lemma_moves_below_fields(sq, rook_attacks(sq, occ).difference(own), 64);
    lemma_moves_below_fields(sq, bishop_attacks(sq, occ).difference(own), 64);
    lemma_moves_below_fields(sq, king_targets(sq).difference(own), 64);
    lemma_moves_below_fields(sq, knight_targets(sq).difference(own), 64);
    if sq == king_home(white) {
        lemma_bare_move_fields(sq, sq + 2, 2);
        lemma_bare_move_fields(sq, sq - 2, 2);
    }
    lemma_pawn_base_moves_fields(p, sq, white);
    let base = pawn_base_moves(p, sq, white);
    lemma_promote_all_fields(base);
    assert forall|i: int| 0 <= i < promote_all(base).len() implies (#[trigger] promote_all(
        base,
    )[i]).from_sq() == sq by {
        let j = i / 4;
        let m = base[j];
        lemma_move_word(m.move_value);
        lemma_bare_move_fields(m.from_sq(), m.to_sq(), 4);
        lemma_bare_move_fields(m.from_sq(), m.to_sq(), 6);
        lemma_bare_move_fields(m.from_sq(), m.to_sq(), 7);
        lemma_bare_move_fields(m.from_sq(), m.to_sq(), 5);
        assert(i == 4 * j || i == 4 * j + 1 || i == 4 * j + 2 || i == 4 * j + 3);
    }
}

/// Every move of a pawn, before promotions are spelled out, starts on the
/// pawn's square, ends on the board and carries no flag, the flag of the
/// double push, or the flag of the en-passant capture.
pub proof fn lemma_pawn_base_moves_fields(p: Position, sq: int, white: bool)
    requires
        p.wf(),
        is_square(sq),
    ensures
        all_from(pawn_base_moves(p, sq, white), sq),
        forall|i: int|
            0 <= i < pawn_base_moves(p, sq, white).len() ==> {
                let m = #[trigger] pawn_base_moves(p, sq, white)[i];
                &&& is_square(m.to_sq())
                &&& (m.flag_of() == 0 || m.flag_of() == 1 || m.flag_of() == 3)
                &&& (m.flag_of() == 1 <==> en_passant_target(p, sq, white) == Some(m.to_sq()) && i
                    == pawn_base_moves(p, sq, white).len() - 1)
            },
{
    let one = sq + pawn_step(white);
    let two = one + pawn_step(white);
    let left = if white {
        sq + 7
    } else {
        sq - 9
    };
    let right = if white {
        sq + 9
    } else {
        sq - 7
    };
    if is_square(one) {
        lemma_bare_move_fields(sq, one, 0);
    }
    if is_square(two) {
        lemma_bare_move_fields(sq, two, 3);
    }
    if is_square(left) {
        lemma_bare_move_fields(sq, left, 0);
    }
    if is_square(right) {
        lemma_bare_move_fields(sq, right, 0);
    }
    match en_passant_target(p, sq, white) {
        Some(target) => {
            let last = p.last_move()->0;
            lemma_move_word(last.move_value);
            lemma_bare_move_fields(sq, target, 1);
        },
        None => {},
    }
}

/// Recording the pieces in a move changes neither whether the position
/// accepts it nor the position after it.
pub proof fn lemma_annotate_same_move(p: Position, m: ChessMove)
    ensures
        p.accepts(p.annotate(m)) == p.accepts(m),
        p.after_move(p.annotate(m)) == p.after_move(m),
        p.annotate(p.annotate(m)) == p.annotate(m),
        p.annotate(m).from_sq() == m.from_sq(),
        p.annotate(m).to_sq() == m.to_sq(),
        p.annotate(m).flag_of() == m.flag_of(),
{
}

/// Whether `m` is a legal move of the side `white` with the moving and the
/// captured piece recorded in it.
pub open spec fn is_legal_entry(p: Position, m: ChessMove, white: bool) -> bool {
    is_legal(p, m, white) && p.annotate(m) == m
}

/// Each of the legal moves kept from a list is legal, carries its pieces,
/// and stands for one of the moves of the list.
pub proof fn lemma_legal_among(p: Position, moves: Seq<ChessMove>, white: bool, n: int)
    requires
        0 <= n <= moves.len(),
    ensures
        legal_among(p, moves, white, n).len() <= n,
        forall|i: int|
            0 <= i < legal_among(p, moves, white, n).len() ==> {
                let e = #[trigger] legal_among(p, moves, white, n)[i];
                &&& is_legal_entry(p, e, white)
                &&& exists|j: int| 0 <= j < n && e == p.annotate(#[trigger] moves[j])
            },
    decreases n,
{
    if n > 0 {
        lemma_legal_among(p, moves, white, n - 1);
        let prev = legal_among(p, moves, white, n - 1);
        lemma_annotate_same_move(p, moves[n - 1]);
        assert forall|i: int| 0 <= i < legal_among(p, moves, white, n).len() implies {
            let e = #[trigger] legal_among(p, moves, white, n)[i];
            &&& is_legal_entry(p, e, white)
            &&& exists|j: int| 0 <= j < n && e == p.annotate(#[trigger] moves[j])
        } by {
            let e = legal_among(p, moves, white, n)[i];
            if i < prev.len() {
                assert(e == prev[i]);
                let j = choose|j: int| 0 <= j < n - 1 && e == p.annotate(#[trigger] moves[j]);
                assert(0 <= j < n && e == p.annotate(moves[j]));
            } else {
                assert(e == p.annotate(moves[n - 1]));
            }
        }
    }
}

/// Each legal move of the piece on `sq` is legal, carries its pieces, and
/// starts on `sq`.
pub proof fn lemma_legal_moves_from(p: Position, sq: int, white: bool)
    requires
        p.wf(),
        is_square(sq),
    ensures
        forall|i: int|
            0 <= i < legal_moves_from(p, sq, white).len() ==> {
                let e = #[trigger] legal_moves_from(p, sq, white)[i];
                is_legal_entry(p, e, white) && e.from_sq() == sq
            },
{
    let pseudo = pseudo_moves_from(p, sq, white);
    lemma_pseudo_moves_from(p, sq, white);
    lemma_legal_among(p, pseudo, white, pseudo.len() as int);
    assert forall|i: int| 0 <= i < legal_moves_from(p, sq, white).len() implies {
        let e = #[trigger] legal_moves_from(p, sq, white)[i];
        is_legal_entry(p, e, white) && e.from_sq() == sq
    } by {
        let e = legal_moves_from(p, sq, white)[i];
        let j = choose|j: int| 0 <= j < pseudo.len() && e == p.annotate(#[trigger] pseudo[j]);
        lemma_annotate_same_move(p, pseudo[j]);
    }
}

/// Every legal move of a side starts on a square that holds a piece of the
/// side, is accepted by the position, and leaves no king of the side in
/// check.
pub proof fn lemma_legal_moves_below(p: Position, white: bool, n: int)
    requires
        p.wf(),
        0 <= n <= 64,
    ensures
        forall|i: int|
            0 <= i < legal_moves_below(p, white, n).len() ==> {
                let e = #[trigger] legal_moves_below(p, white, n)[i];
                &&& is_legal_entry(p, e, white)
                &&& p.has_color(e.from_sq(), white)
                &&& 0 <= e.from_sq() < n
            },
    decreases n,
{
    if n > 0 {
        lemma_legal_moves_below(p, white, n - 1);
        if p.has_color(n - 1, white) {
            lemma_legal_moves_from(p, n - 1, white);
        }
    }
}

/// Every move among all legal moves of a side starts on a square that holds
/// a piece of the side, is accepted by the position, and does not leave a
/// king of the side in check.
pub proof fn lemma_all_legal_moves_sound(p: Position, white: bool)
    requires
        p.wf(),
    ensures
        forall|i: int|
            0 <= i < all_legal_moves(p, white).len() ==> {
                let e = #[trigger] all_legal_moves(p, white)[i];
                &&& p.has_color(e.from_sq(), white)
                &&& p.accepts(e)
                &&& !in_check(p.after_move(e), white)
                &&& p.annotate(e) == e
            },
{
    lemma_legal_moves_below(p, white, 64);
}

/// An en-passant capture is among the moves of the pawn on `sq` exactly when
/// the last move was a double push of a pawn that now stands on a
/// neighbouring file of the rank of `sq`, and `sq` lies on the en-passant
/// rank of the side. It is then the only such move and goes to the square
/// that the pushed pawn passed over.
pub proof fn lemma_en_passant_appears(p: Position, sq: int, white: bool)
    requires
        p.wf(),
        is_square(sq),
    ensures
        (exists|i: int|
            0 <= i < pawn_moves(p, sq, white).len() && (#[trigger] pawn_moves(
                p,
                sq,
                white,
            )[i]).flag_of() == 1) <==> (p.last_move() is Some && p.last_move()->0.flag_of() == 3
            && sq_rank(p.last_move()->0.to_sq()) == sq_rank(sq) && abs(
            sq_file(sq) - sq_file(p.last_move()->0.to_sq()),
        ) == 1 && sq_rank(sq) == en_passant_rank(white)),
        forall|i: int|
            0 <= i < pawn_moves(p, sq, white).len() && (#[trigger] pawn_moves(
                p,
                sq,
                white,
            )[i]).flag_of() == 1 ==> pawn_moves(p, sq, white)[i].to_sq() == p.last_move()->0.to_sq()
                + pawn_step(white),
{
    let base = pawn_base_moves(p, sq, white);
    let moves = pawn_moves(p, sq, white);
    lemma_pawn_base_moves_fields(p, sq, white);
    if sq_rank(sq) == pawn_seventh_rank(white) {
        lemma_promote_all_fields(base);
        assert forall|i: int| 0 <= i < moves.len() implies (#[trigger] moves[i]).flag_of() != 1 by {
            let j = i / 4;
            let m = base[j];
            lemma_move_word(m.move_value);
            lemma_bare_move_fields(m.from_sq(), m.to_sq(), 4);
            lemma_bare_move_fields(m.from_sq(), m.to_sq(), 6);
            lemma_bare_move_fields(m.from_sq(), m.to_sq(), 7);
            lemma_bare_move_fields(m.from_sq(), m.to_sq(), 5);
            assert(i == 4 * j || i == 4 * j + 1 || i == 4 * j + 2 || i == 4 * j + 3);
        }
    } else {
        match en_passant_target(p, sq, white) {
            Some(target) => {
                let last = base.len() - 1;
                lemma_move_word(p.last_move()->0.move_value);
                lemma_bare_move_fields(sq, target, 1);
                assert(base[last] == bare_move(sq, target, 1));
                assert(base[last].flag_of() == 1);
            },
            None => {},
        }
    }
}

/// A castling move to one side is among the pseudo-legal moves of the piece
/// on `sq` exactly when the king of the side may castle to that side: it
/// stands on its home square with the right and with its rook in the
/// corner, the squares between them are empty, it is not in check, and the
/// two squares that it crosses are not threatened.
pub proof fn lemma_castling_appears(p: Position, sq: int, white: bool, king_side: bool)
    requires
        p.wf(),
        is_square(sq),
    ensures
        (exists|i: int|
            0 <= i < pseudo_moves_from(p, sq, white).len() && (#[trigger] pseudo_moves_from(
                p,
                sq,
                white,
            )[i]).flag_of() == 2 && pseudo_moves_from(p, sq, white)[i].to_sq() == (if king_side {
                sq + 2
            } else {
                sq - 2
            })) <==> can_castle(p, sq, white, king_side),
{
    let moves = pseudo_moves_from(p, sq, white);
    let own = p.color_squares(white);
    let occ = p.occupied();
    let goal = if king_side {
        sq + 2
    } else {
        sq - 2
    };
    lemma_moves_below_fields(sq, rook_attacks(sq, occ).difference(own), 64);
    lemma_moves_below_fields(sq, bishop_attacks(sq, occ).difference(own), 64);
    lemma_moves_below_fields(sq, king_targets(sq).difference(own), 64);
    lemma_moves_below_fields(sq, knight_targets(sq).difference(own), 64);
    if sq == king_home(white) {
        lemma_bare_move_fields(sq, sq + 2, 2);
        lemma_bare_move_fields(sq, sq - 2, 2);
    }
    let steps = moves_to(sq, king_targets(sq).difference(own));
    let castles = castling_moves(p, sq, white);
    if can_castle(p, sq, white, king_side) {
        let at = if king_side {
            steps.len() as int
        } else {
            steps.len() + castles.len() - 1
        };
        assert(moves == steps + castles);
        assert(moves[at].flag_of() == 2 && moves[at].to_sq() == goal);
    }
    if exists|i: int|
        0 <= i < moves.len() && (#[trigger] moves[i]).flag_of() == 2 && moves[i].to_sq() == goal {
        let i = choose|i: int|
            0 <= i < moves.len() && (#[trigger] moves[i]).flag_of() == 2 && moves[i].to_sq()
                == goal;
        match p.at(sq) {
            None => {},
            Some(piece) => {
                match piece.kind {
                    PieceType::Pawn => {
                        lemma_pawn_moves_flags(p, sq, white);
                    },
                    PieceType::Queen => {
                        let a = moves_to(sq, rook_attacks(sq, occ).difference(own));
                        let b = moves_to(sq, bishop_attacks(sq, occ).difference(own));
                        if i < a.len() {
                            assert(moves[i] == a[i]);
                        } else {
                            assert(moves[i] == b[i - a.len()]);
                        }
                    },
                    PieceType::King => {
                        if i < steps.len() {
                            assert(moves[i] == steps[i]);
                        } else {
                            assert(moves[i] == castles[i - steps.len()]);
                        }
                    },
                    _ => {},
                }
            },
        }
    }
}

/// Every move of a pawn carries no flag, the flag of the double push, the
/// flag of the en-passant capture, or a promotion flag; and it is a
/// promotion exactly when the pawn stands one step from its last rank.
pub proof fn lemma_pawn_moves_flags(p: Position, sq: int, white: bool)
    requires
        p.wf(),
        is_square(sq),
    ensures
        forall|i: int|
            0 <= i < pawn_moves(p, sq, white).len() ==> {
                let m = #[trigger] pawn_moves(p, sq, white)[i];
                &&& m.flag_of() != 2
                &&& m.from_sq() == sq
                &&& is_square(m.to_sq())
                &&& m.promotes() == (sq_rank(sq) == pawn_seventh_rank(white))
            },
{
    let base = pawn_base_moves(p, sq, white);
    let moves = pawn_moves(p, sq, white);
    lemma_pawn_base_moves_fields(p, sq, white);
    if sq_rank(sq) == pawn_seventh_rank(white) {
        lemma_promote_all_fields(base);
        assert forall|i: int| 0 <= i < moves.len() implies {
            let m = #[trigger] moves[i];
            &&& m.flag_of() != 2
            &&& m.from_sq() == sq
            &&& is_square(m.to_sq())
            &&& m.promotes()
        } by {
            let j = i / 4;
            let m = base[j];
            lemma_move_word(m.move_value);
            lemma_bare_move_fields(m.from_sq(), m.to_sq(), 4);
            lemma_bare_move_fields(m.from_sq(), m.to_sq(), 6);
            lemma_bare_move_fields(m.from_sq(), m.to_sq(), 7);
            lemma_bare_move_fields(m.from_sq(), m.to_sq(), 5);
            assert(i == 4 * j || i == 4 * j + 1 || i == 4 * j + 2 || i == 4 * j + 3);
        }
    }
}

/// Before promotions are spelled out, a pawn's move ends on the first or on
/// the last rank of the board only when the pawn stands one step from its
/// last rank, and then every move of the pawn ends on that rank.
pub proof fn lemma_pawn_base_moves_ranks(p: Position, sq: int, white: bool)
    requires
        p.wf(),
        is_square(sq),
    ensures
        forall|i: int|
            0 <= i < pawn_base_moves(p, sq, white).len() ==> {
                let m = #[trigger] pawn_base_moves(p, sq, white)[i];
                &&& (sq_rank(m.to_sq()) == 0 || sq_rank(m.to_sq()) == 7) == (sq_rank(sq)
                    == pawn_seventh_rank(white))
                &&& sq_rank(sq) == pawn_seventh_rank(white) ==> sq_rank(m.to_sq())
                    == pawn_last_rank(white)
            },
{
    let one = sq + pawn_step(white);
    let two = one + pawn_step(white);
    let left = if white {
        sq + 7
    } else {
        sq - 9
    };
    let right = if white {
        sq + 9
    } else {
        sq - 7
    };
    if is_square(one) {
        lemma_bare_move_fields(sq, one, 0);
    }
    if is_square(two) {
        lemma_bare_move_fields(sq, two, 3);
    }
    if is_square(left) {
        lemma_bare_move_fields(sq, left, 0);
    }
    if is_square(right) {
        lemma_bare_move_fields(sq, right, 0);
    }
    match en_passant_target(p, sq, white) {
        Some(target) => {
            let last = p.last_move()->0;
            lemma_move_word(last.move_value);
            lemma_bare_move_fields(sq, target, 1);
        },
        None => {},
    }
}

/// A pawn's move that ends on the first or on the last rank of the board is
/// a promotion, never a plain move; and a pawn one step from its last rank
/// makes each of its moves four times, as a promotion to queen, to rook, to
/// bishop and to knight.
pub proof fn lemma_promotions_in_fours(p: Position, sq: int, white: bool)
    requires
        p.wf(),
        is_square(sq),
    ensures
        forall|i: int|
            0 <= i < pawn_moves(p, sq, white).len() ==> {
                let m = #[trigger] pawn_moves(p, sq, white)[i];
                (sq_rank(m.to_sq()) == 0 || sq_rank(m.to_sq()) == 7) == m.promotes()
            },
        sq_rank(sq) == pawn_seventh_rank(white) ==> {
            let base = pawn_base_moves(p, sq, white);
            let moves = pawn_moves(p, sq, white);
            &&& moves.len() == 4 * base.len()
            &&& forall|j: int|
                0 <= j < base.len() ==> {
                    let from = (#[trigger] base[j]).from_sq();
                    let to = base[j].to_sq();
                    &&& moves[4 * j] == bare_move(from, to, 4)
                    &&& moves[4 * j + 1] == bare_move(from, to, 6)
                    &&& moves[4 * j + 2] == bare_move(from, to, 7)
                    &&& moves[4 * j + 3] == bare_move(from, to, 5)
                }
            &&& forall|j: int, k: int|
                0 <= j < k < base.len() ==> (#[trigger] base[j]).to_sq() != (
                #[trigger] base[k]).to_sq()
        },
{
    let base = pawn_base_moves(p, sq, white);
    let moves = pawn_moves(p, sq, white);
    lemma_pawn_base_moves_fields(p, sq, white);
    lemma_pawn_base_moves_ranks(p, sq, white);
    lemma_pawn_moves_flags(p, sq, white);
    if sq_rank(sq) == pawn_seventh_rank(white) {
        lemma_promote_all_fields(base);
        assert forall|i: int| 0 <= i < moves.len() implies {
            let m = #[trigger] moves[i];
            sq_rank(m.to_sq()) == 0 || sq_rank(m.to_sq()) == 7
        } by {
            let j = i / 4;
            let m = base[j];
            lemma_move_word(m.move_value);
            lemma_bare_move_fields(m.from_sq(), m.to_sq(), 4);
            lemma_bare_move_fields(m.from_sq(), m.to_sq(), 6);
            lemma_bare_move_fields(m.from_sq(), m.to_sq(), 7);
            lemma_bare_move_fields(m.from_sq(), m.to_sq(), 5);
            assert(i == 4 * j || i == 4 * j + 1 || i == 4 * j + 2 || i == 4 * j + 3);
        }
        lemma_pawn_base_targets_differ(p, sq, white);
    }
}

/// Before promotions are spelled out, no two moves of a pawn that stands
/// one step from its last rank end on the same square.
pub proof fn lemma_pawn_base_targets_differ(p: Position, sq: int, white: bool)
    requires
        p.wf(),
        is_square(sq),
        sq_rank(sq) == pawn_seventh_rank(white),
    ensures
        forall|j: int, k: int|
            0 <= j < k < pawn_base_moves(p, sq, white).len() ==> (#[trigger] pawn_base_moves(
                p,
                sq,
                white,
            )[j]).to_sq() != (#[trigger] pawn_base_moves(p, sq, white)[k]).to_sq(),
{
    let one = sq + pawn_step(white);
    let left = if white {
        sq + 7
    } else {
        sq - 9
    };
    let right = if white {
        sq + 9
    } else {
        sq - 7
    };
    if is_square(one) {
        lemma_bare_move_fields(sq, one, 0);
    }
    if is_square(left) {
        lemma_bare_move_fields(sq, left, 0);
    }
    if is_square(right) {
        lemma_bare_move_fields(sq, right, 0);
    }
    match p.last_move() {
        Some(last) => {
            lemma_move_word(last.move_value);
        },
        None => {},
    }
}

} // verus!
