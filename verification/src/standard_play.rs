use crate::attacks::{bishop_attacks, king_targets, knight_targets, rook_attacks};
use crate::chess_move::{lemma_move_word, ChessMove};
use crate::piece::PieceType;
use crate::position::{is_square, king_home, pawn_step, sq_rank, Position};
use crate::rules::{
    all_legal_moves, attack_set, castling_moves, en_passant_target, in_check, is_legal,
    legal_moves_below, legal_moves_from, lemma_bare_move_fields, lemma_legal_among,
    lemma_moves_below_fields, lemma_pawn_base_moves_fields, lemma_pawn_moves_flags,
    lemma_promote_all_fields, lemma_promotions_in_fours, lemma_threats_below, moves_to,
    pawn_base_moves, pawn_moves, pawn_seventh_rank, pseudo_moves_from, threat_map,
};
use vstd::prelude::*;

verus! {

/// Whether no pawn stands on the first or on the last rank.
pub open spec fn pawns_off_end_ranks(p: Position) -> bool {
    forall|sq: int|
        is_square(sq) && (#[trigger] p.at(sq)) is Some && p.at(sq)->0.kind == PieceType::Pawn ==> 1
            <= sq_rank(sq) <= 6
}

/// Whether exactly one king of the given colour stands on the board.
pub open spec fn has_one_king(p: Position, white: bool) -> bool {
    exists|k: int|
        #[trigger] p.has_piece(k, PieceType::King, white) && forall|j: int| #[trigger]
            p.has_piece(j, PieceType::King, white) ==> j == k
}

/// Whether a position is one of standard play: each side has exactly one
/// king, no pawn stands on the first or on the last rank, and the side that
/// is not to move is not in check.
pub open spec fn is_standard(p: Position) -> bool {
    &&& p.wf()
    &&& has_one_king(p, true)
    &&& has_one_king(p, false)
    &&& pawns_off_end_ranks(p)
    &&& !in_check(p, !p.white_to_move)
}

/// Whether `m` is one of the pseudo-legal moves of the piece on `sq` for
/// the side `white`.
pub open spec fn is_pseudo_move(p: Position, sq: int, white: bool, m: ChessMove) -> bool {
    exists|i: int|
        0 <= i < pseudo_moves_from(p, sq, white).len() && #[trigger] pseudo_moves_from(
            p,
            sq,
            white,
        )[i] == m
}

/// A pseudo-legal move of a piece of the side that the position accepts and
/// that ends on an occupied square ends on a square that the piece attacks.
pub proof fn lemma_capture_is_attack(p: Position, sq: int, white: bool, m: ChessMove)
    requires
        p.wf(),
        is_square(sq),
        p.has_color(sq, white),
        is_pseudo_move(p, sq, white, m),
        p.accepts(m),
        p.at(m.to_sq()) is Some,
    ensures
        attack_set(p, sq).contains(m.to_sq()),
        m.flag_of() != 1,
        m.flag_of() != 2,
{
    let moves = pseudo_moves_from(p, sq, white);
    let i = choose|i: int| 0 <= i < moves.len() && #[trigger] moves[i] == m;
    let own = p.color_squares(white);
    let occ = p.occupied();
    let piece = p.at(sq)->0;
    lemma_moves_below_fields(sq, rook_attacks(sq, occ).difference(own), 64);
    lemma_moves_below_fields(sq, bishop_attacks(sq, occ).difference(own), 64);
    lemma_moves_below_fields(sq, king_targets(sq).difference(own), 64);
    lemma_moves_below_fields(sq, knight_targets(sq).difference(own), 64);
    match piece.kind {
        PieceType::Rook => {},
        PieceType::Bishop => {},
        PieceType::Knight => {},
        PieceType::Queen => {
            let a = moves_to(sq, rook_attacks(sq, occ).difference(own));
            let b = moves_to(sq, bishop_attacks(sq, occ).difference(own));
            if i < a.len() {
                assert(moves[i] == a[i]);
            } else {
                assert(moves[i] == b[i - a.len()]);
            }
        },
        PieceType::King => {
            let steps = moves_to(sq, king_targets(sq).difference(own));
            let castles = castling_moves(p, sq, white);
            if i < steps.len() {
                assert(moves[i] == steps[i]);
            } else {
                assert(moves[i] == castles[i - steps.len()]);
                lemma_bare_move_fields(sq, sq + 2, 2);
                lemma_bare_move_fields(sq, sq - 2, 2);
            }
        },
        PieceType::Pawn => {
            lemma_pawn_capture_is_attack(p, sq, white, m);
        },
    }
}

/// A move of a pawn that the position accepts and that ends on an occupied
/// square ends on a square that the pawn attacks.
pub proof fn lemma_pawn_capture_is_attack(p: Position, sq: int, white: bool, m: ChessMove)
    requires
        p.wf(),
        is_square(sq),
        p.has_piece(sq, PieceType::Pawn, white),
        exists|i: int|
            0 <= i < pawn_moves(p, sq, white).len() && #[trigger] pawn_moves(p, sq, white)[i] == m,
        p.accepts(m),
        p.at(m.to_sq()) is Some,
    ensures
        attack_set(p, sq).contains(m.to_sq()),
        m.flag_of() != 1,
        m.flag_of() != 2,
{
    let moves = pawn_moves(p, sq, white);
    let base = pawn_base_moves(p, sq, white);
    let i = choose|i: int| 0 <= i < moves.len() && #[trigger] moves[i] == m;
    lemma_pawn_moves_flags(p, sq, white);
    lemma_pawn_base_moves_fields(p, sq, white);
    lemma_pawn_base_targets(p, sq, white);
    if sq_rank(sq) == pawn_seventh_rank(white) {
        lemma_promote_all_fields(base);
        let j = i / 4;
        let b = base[j];
        lemma_move_word(b.move_value);
        lemma_bare_move_fields(b.from_sq(), b.to_sq(), 4);
        lemma_bare_move_fields(b.from_sq(), b.to_sq(), 6);
        lemma_bare_move_fields(b.from_sq(), b.to_sq(), 7);
        lemma_bare_move_fields(b.from_sq(), b.to_sq(), 5);
        assert(i == 4 * j || i == 4 * j + 1 || i == 4 * j + 2 || i == 4 * j + 3);
        assert(m.to_sq() == b.to_sq());
    } else {
        assert(m == base[i]);
    }
}

/// Before promotions are spelled out, a move of a pawn that is not an
/// en-passant capture and that ends on an occupied square ends on a square
/// that the pawn attacks.
pub proof fn lemma_pawn_base_targets(p: Position, sq: int, white: bool)
    requires
        p.wf(),
        is_square(sq),
    ensures
        forall|i: int|
            0 <= i < pawn_base_moves(p, sq, white).len() ==> {
                let m = #[trigger] pawn_base_moves(p, sq, white)[i];
                m.flag_of() != 1 && p.at(m.to_sq()) is Some
                    ==> crate::attacks::pawn_attack_targets(white, sq).contains(m.to_sq())
            },
{
    let one = sq + pawn_step(white);
    let two = one + pawn_step(white);
    let left = if white {
        sq + 7
    } else {
        sq - 9
    };
    let right = if white {
        sq + 9
    } else {
        sq - 7
    };
    if is_square(one) {
        lemma_bare_move_fields(sq, one, 0);
    }
    if is_square(two) {
        lemma_bare_move_fields(sq, two, 3);
    }
    if is_square(left) {
        lemma_bare_move_fields(sq, left, 0);
    }
    if is_square(right) {
        lemma_bare_move_fields(sq, right, 0);
    }
    match en_passant_target(p, sq, white) {
        Some(target) => {
            let last = p.last_move()->0;
            lemma_move_word(last.move_value);
            lemma_bare_move_fields(sq, target, 1);
        },
        None => {},
    }
}

/// A pseudo-legal move of a piece of the side that the position accepts is
/// a promotion exactly when it is a pawn's move that ends on the first or
/// on the last rank, and it is a castling move only for a king.
pub proof fn lemma_pseudo_move_shape(p: Position, sq: int, white: bool, m: ChessMove)
    requires
        p.wf(),
        is_square(sq),
        p.at(sq) is Some,
        is_pseudo_move(p, sq, white, m),
    ensures
        m.from_sq() == sq,
        is_square(m.to_sq()),
        p.at(sq)->0.kind == PieceType::Pawn ==> m.promotes() == (sq_rank(m.to_sq()) == 0 || sq_rank(
            m.to_sq(),
        ) == 7),
        p.at(sq)->0.kind != PieceType::Pawn ==> !m.promotes(),
        m.flag_of() == 2 ==> sq == king_home(white),
{
    let moves = pseudo_moves_from(p, sq, white);
    let i = choose|i: int| 0 <= i < moves.len() && #[trigger] moves[i] == m;
    let own = p.color_squares(white);
    let occ = p.occupied();
    let piece = p.at(sq)->0;
    lemma_moves_below_fields(sq, rook_attacks(sq, occ).difference(own), 64);
    lemma_moves_below_fields(sq, bishop_attacks(sq, occ).difference(own), 64);
    lemma_moves_below_fields(sq, king_targets(sq).difference(own), 64);
    lemma_moves_below_fields(sq, knight_targets(sq).difference(own), 64);
    match piece.kind {
        PieceType::Rook => {},
        PieceType::Bishop => {},
        PieceType::Knight => {},
        PieceType::Queen => {
            let a = moves_to(sq, rook_attacks(sq, occ).difference(own));
            let b = moves_to(sq, bishop_attacks(sq, occ).difference(own));
            if i < a.len() {
                assert(moves[i] == a[i]);
            } else {
                assert(moves[i] == b[i - a.len()]);
            }
        },
        PieceType::King => {
            let steps = moves_to(sq, king_targets(sq).difference(own));
            let castles = castling_moves(p, sq, white);
            if i < steps.len() {
                assert(moves[i] == steps[i]);
            } else {
                assert(moves[i] == castles[i - steps.len()]);
                if sq == king_home(white) {
                    lemma_bare_move_fields(sq, sq + 2, 2);
                    lemma_bare_move_fields(sq, sq - 2, 2);
                }
            }
        },
        PieceType::Pawn => {
            lemma_pawn_moves_flags(p, sq, white);
            lemma_promotions_in_fours(p, sq, white);
        },
    }
}

/// Every legal move of a side is one of the pseudo-legal moves of the piece
/// on its start square.
pub proof fn lemma_legal_move_is_pseudo(p: Position, white: bool, m: ChessMove, n: int)
    requires
        p.wf(),
        0 <= n <= 64,
        legal_moves_below(p, white, n).contains(m),
    ensures
        exists|sq: int, m0: ChessMove|
            0 <= sq < n && p.has_color(sq, white) && #[trigger] is_pseudo_move(p, sq, white, m0)
                && m == p.annotate(m0) && is_legal(p, m0, white),
    decreases n,
{
    if n > 0 {
        let before = legal_moves_below(p, white, n - 1);
        let i = choose|i: int|
            0 <= i < legal_moves_below(p, white, n).len() && legal_moves_below(p, white, n)[i] == m;
        if p.has_color(n - 1, white) && i >= before.len() {
            let here = legal_moves_from(p, n - 1, white);
            let pseudo = pseudo_moves_from(p, n - 1, white);
            assert(here[i - before.len()] == m);
            lemma_legal_among(p, pseudo, white, pseudo.len() as int);
            let j = choose|j: int| 0 <= j < pseudo.len() && m == p.annotate(#[trigger] pseudo[j]);
            assert(is_pseudo_move(p, n - 1, white, pseudo[j]));
            lemma_legal_source(p, pseudo, white, pseudo.len() as int, i - before.len());
            let j2 = choose|j2: int|
                0 <= j2 < pseudo.len() && m == p.annotate(#[trigger] pseudo[j2]) && is_legal(
                    p,
                    pseudo[j2],
                    white,
                );
            assert(is_pseudo_move(p, n - 1, white, pseudo[j2]));
        } else {
            assert(before[i] == m);
            lemma_legal_move_is_pseudo(p, white, m, n - 1);
            let (sq, m0) = choose|sq: int, m0: ChessMove|
                0 <= sq < n - 1 && p.has_color(sq, white) && #[trigger] is_pseudo_move(
                    p,
                    sq,
                    white,
                    m0,
                ) && m == p.annotate(m0) && is_legal(p, m0, white);
            assert(0 <= sq < n && p.has_color(sq, white) && is_pseudo_move(p, sq, white, m0) && m
                == p.annotate(m0) && is_legal(p, m0, white));
        }
    }
}

/// Each of the legal moves kept from a list stands for a legal move of the
/// list.
pub proof fn lemma_legal_source(p: Position, moves: Seq<ChessMove>, white: bool, n: int, i: int)
    requires
        0 <= n <= moves.len(),
        0 <= i < crate::rules::legal_among(p, moves, white, n).len(),
    ensures
        exists|j: int|
            0 <= j < n && crate::rules::legal_among(p, moves, white, n)[i] == p.annotate(
                #[trigger] moves[j],
            ) && is_legal(p, moves[j], white),
    decreases n,
{
    if n > 0 {
        let prev = crate::rules::legal_among(p, moves, white, n - 1);
        if i < prev.len() {
            lemma_legal_source(p, moves, white, n - 1, i);
            let j = choose|j: int|
                0 <= j < n - 1 && prev[i] == p.annotate(#[trigger] moves[j]) && is_legal(
                    p,
                    moves[j],
                    white,
                );
            assert(0 <= j < n && crate::rules::legal_among(p, moves, white, n)[i] == p.annotate(
                moves[j],
            ) && is_legal(p, moves[j], white));
        } else {
            assert(crate::rules::legal_among(p, moves, white, n)[i] == p.annotate(moves[n - 1])
                && is_legal(p, moves[n - 1], white));
        }
    }
}

/// A legal move of the side to move leads from a position of standard play
/// to a position of standard play: each side keeps exactly one king, no
/// pawn comes to stand on the first or on the last rank, and the side that
/// has moved is not in check.
pub proof fn lemma_standard_play_preserved(p: Position, m: ChessMove)
    requires
        is_standard(p),
        all_legal_moves(p, p.white_to_move).contains(m),
    ensures
        is_standard(p.after_move(m)),
{
    let white = p.white_to_move;
    let other = !white;
    let q = p.after_move(m);
    crate::position::lemma_rights_kept(p.castling_rights, p.rights_lost(m));
    lemma_legal_move_is_pseudo(p, white, m, 64);
    let (sq, m0) = choose|sq: int, m0: ChessMove|
        0 <= sq < 64 && p.has_color(sq, white) && #[trigger] is_pseudo_move(p, sq, white, m0) && m
            == p.annotate(m0) && is_legal(p, m0, white);
    crate::rules::lemma_annotate_same_move(p, m0);
    assert(q == p.after_move(m0));
    lemma_pseudo_move_shape(p, sq, white, m0);
    lemma_move_word(m0.move_value);
    assert(p.accepts(m0));
    assert(q.squares == p.squares_after(m0));
    let from = m0.from_sq();
    let to = m0.to_sq();
    let victim = p.capture_square(m0);
    let mover = p.at(from)->0;
    assert(mover.white == white);
    // The captured piece is no king: its king would have been in check.
    if p.at(victim) is Some && p.at(victim)->0.kind == PieceType::King {
        if m0.flag_of() != 1 {
            lemma_capture_is_attack(p, sq, white, m0);
            lemma_threats_below(p, !white, 64, to);
            assert(p.has_color(sq, !!white));
            assert(threat_map(p, !white).contains(to));
            assert(p.has_piece(to, PieceType::King, !white));
            assert(in_check(p, !white));
        }
    }
    let own_king = choose|k: int|
        #[trigger] p.has_piece(k, PieceType::King, white) && forall|j: int| #[trigger]
            p.has_piece(j, PieceType::King, white) ==> j == k;
    let other_king = choose|k: int|
        #[trigger] p.has_piece(k, PieceType::King, other) && forall|j: int| #[trigger]
            p.has_piece(j, PieceType::King, other) ==> j == k;
    let new_own = if mover.kind == PieceType::King {
        to
    } else {
        own_king
    };
    let rook_from = Position::castle_rook_from(from, to);
    let rook_to = Position::castle_rook_to(from, to);
    let castles = m0.flag_of() == 2;
    assert(castles ==> from == king_home(white) && mover.kind == PieceType::King);
    assert(q.at(to) == Some(p.placed_piece(m0)));
    assert(from != to);
    assert(q.at(from) is None);
    assert(victim != to ==> q.at(victim) is None);
    if mover.kind == PieceType::King {
        assert(p.has_piece(from, PieceType::King, white));
        assert(from == own_king);
    }
    assert(q.has_piece(new_own, PieceType::King, white));
    assert forall|j: int| #[trigger] q.has_piece(j, PieceType::King, white) implies j == new_own by {
        if j == to || j == from || j == victim || (castles && (j == rook_from || j == rook_to)) {
        } else {
            assert(q.at(j) == p.at(j));
            assert(p.has_piece(j, PieceType::King, white));
        }
    }
    assert(other_king != from);
    assert(other_king != victim);
    assert(q.has_piece(other_king, PieceType::King, other));
    assert forall|j: int| #[trigger] q.has_piece(j, PieceType::King, other) implies j
        == other_king by {
        if j == to || j == from || j == victim || (castles && (j == rook_from || j == rook_to)) {
        } else {
            assert(q.at(j) == p.at(j));
            assert(p.has_piece(j, PieceType::King, other));
        }
    }
    if white {
        assert(has_one_king(q, true));
        assert(has_one_king(q, false));
    } else {
        assert(has_one_king(q, false));
        assert(has_one_king(q, true));
    }
    assert forall|x: int|
        is_square(x) && (#[trigger] q.at(x)) is Some && q.at(x)->0.kind
            == PieceType::Pawn implies 1 <= sq_rank(x) <= 6 by {
        if x != to && x != from && x != victim && x != Position::castle_rook_from(from, to) && x
            != Position::castle_rook_to(from, to) {
            assert(p.at(x) == q.at(x));
        }
    }
}

/// The squares of the first and of the last rank.
pub const END_RANKS: u64 = 0xFF00_0000_0000_00FF;

/// The bits of the two end ranks are those below 8 and those from 56 on.
proof fn lemma_end_rank_bits(i: u64)
    by (bit_vector)
    requires
        i < 64,
    ensures
        ((0xFF00_0000_0000_00FFu64 >> i) & 1 == 1) == (i < 8 || i >= 56),
{
}

/// On a well-formed board, no pawn stands on the first or on the last rank
/// exactly when the pawn bitboard shares no bit with the two end ranks.
pub proof fn lemma_pawn_bitboard_off_end_ranks(board: crate::chessboard::ChessBoard)
    requires
        board.wf(),
    ensures
        pawns_off_end_ranks(board@) == (board.pawns.0 & END_RANKS == 0),
{
    let p = board@;
    let word = board.pawns.0 & END_RANKS;
    crate::chessboard::lemma_board_sets(board);
    crate::bits::lemma_bits_bitwise(board.pawns.0, END_RANKS);
    crate::bits::lemma_bits_constants();
    assert forall|sq: int| 0 <= sq < 64 implies crate::bits::bit_at(END_RANKS, sq) == (sq < 8 || sq
        >= 56) by {
        lemma_end_rank_bits(sq as u64);
    }
    assert forall|sq: int| 0 <= sq < 64 implies crate::bits::bit_at(board.pawns.0, sq) == (p.at(sq)
        is Some && p.at(sq)->0.kind == PieceType::Pawn) by {
        assert(board.pawns@.contains(sq) == p.kind_squares(PieceType::Pawn).contains(sq));
    }
    if pawns_off_end_ranks(p) {
        assert forall|sq: int| 0 <= sq < 64 implies crate::bits::bit_at(word, sq)
            == crate::bits::bit_at(0, sq) by {
            if crate::bits::bit_at(word, sq) {
                assert(p.at(sq) is Some);
            }
        }
        crate::bits::lemma_bits_injective(word, 0);
    }
    if word == 0 {
        assert forall|sq: int|
            is_square(sq) && (#[trigger] p.at(sq)) is Some && p.at(sq)->0.kind
                == PieceType::Pawn implies 1 <= sq_rank(sq) <= 6 by {
            assert(!crate::bits::bit_at(word, sq));
        }
    }
}

/// A ray whose first square lies off the board sees nothing, and a ray
/// whose first square is occupied sees that square alone.
pub proof fn lemma_ray_first_step(
    file: int,
    rank: int,
    df: int,
    dr: int,
    occ: Set<int>,
    steps: nat,
)
    requires
        steps > 0,
    ensures
        !crate::board_helper::on_board(file + df, rank + dr) ==> crate::attacks::ray(
            file,
            rank,
            df,
            dr,
            occ,
            steps,
        ) == Set::<int>::empty(),
        crate::board_helper::on_board(file + df, rank + dr) && occ.contains(
            crate::board_helper::square_at(file + df, rank + dr),
        ) ==> crate::attacks::ray(file, rank, df, dr, occ, steps) == set![
            crate::board_helper::square_at(file + df, rank + dr),
        ],
{
}

/// When a game starts, no white piece attacks a square beyond the third
/// rank.
pub proof fn lemma_start_attacks(sq: int, t: int)
    requires
        0 <= sq < 16,
        attack_set(crate::position::start_position(), sq).contains(t),
    ensures
        0 <= t < 24,
{
    let p = crate::position::start_position();
    let occ = p.occupied();
    let f = crate::position::sq_file(sq);
    let r = sq_rank(sq);
    assert forall|x: int| 0 <= x < 16 implies occ.contains(x) by {
        assert(p.at(x) is Some);
    }
    if sq < 8 {
        lemma_ray_first_step(f, r, 0, 1, occ, 7);
        lemma_ray_first_step(f, r, 0, -1, occ, 7);
        lemma_ray_first_step(f, r, 1, 0, occ, 7);
        lemma_ray_first_step(f, r, -1, 0, occ, 7);
        lemma_ray_first_step(f, r, 1, 1, occ, 7);
        lemma_ray_first_step(f, r, -1, 1, occ, 7);
        lemma_ray_first_step(f, r, 1, -1, occ, 7);
        lemma_ray_first_step(f, r, -1, -1, occ, 7);
    }
}

/// The position in which a game starts is one of standard play.
pub proof fn lemma_start_is_standard()
    ensures
        is_standard(crate::position::start_position()),
{
    let p = crate::position::start_position();
    assert(p.has_piece(4, PieceType::King, true));
    assert forall|j: int| #[trigger] p.has_piece(j, PieceType::King, true) implies j == 4 by {}
    assert(p.has_piece(60, PieceType::King, false));
    assert forall|j: int| #[trigger] p.has_piece(j, PieceType::King, false) implies j == 60 by {}
    crate::rules::lemma_in_check_iff_attacked(p, false);
    if in_check(p, false) {
        let (k, sq) = choose|k: int, sq: int|
            p.has_piece(k, PieceType::King, false) && is_square(sq) && p.has_color(sq, !false)
                && #[trigger] attack_set(p, sq).contains(k);
        assert(k == 60);
        assert(0 <= sq < 16);
        lemma_start_attacks(sq, k);
    }
}

} // verus!
