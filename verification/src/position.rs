use crate::chess_move::ChessMove;
use crate::piece::{ChessPiece, PieceType};
use vstd::prelude::*;

verus! {

/// Castling right of White on the king's side.
pub const WHITE_KING_SIDE: u8 = 0b1000;

/// Castling right of White on the queen's side.
pub const WHITE_QUEEN_SIDE: u8 = 0b0100;

/// Castling right of Black on the king's side.
pub const BLACK_KING_SIDE: u8 = 0b0010;

/// Castling right of Black on the queen's side.
pub const BLACK_QUEEN_SIDE: u8 = 0b0001;

/// All four castling rights.
pub const ALL_CASTLING_RIGHTS: u8 = 0b1111;

/// A position as a mathematical value: what stands on each of the 64
/// squares, who is to move, the castling rights, and the moves made so far,
/// each with the castling rights that held before it.
pub struct Position {
    pub squares: Seq<Option<ChessPiece>>,
    pub white_to_move: bool,
    pub castling_rights: u8,
    pub history: Seq<(ChessMove, u8)>,
}

/// The rank on which the pawns of a colour start.
pub open spec fn pawn_start_rank(white: bool) -> int {
    if white {
        1
    } else {
        6
    }
}

/// The step of a pawn of a colour, as a difference of square indices.
pub open spec fn pawn_step(white: bool) -> int {
    if white {
        8
    } else {
        -8
    }
}

/// The square on which the king of a colour starts.
pub open spec fn king_home(white: bool) -> int {
    if white {
        4
    } else {
        60
    }
}

/// The last rank of a colour: the rank on which its pawns promote.
pub open spec fn pawn_last_rank(white: bool) -> int {
    if white {
        7
    } else {
        0
    }
}

/// File of a square.
pub open spec fn sq_file(sq: int) -> int {
    sq % 8
}

/// Rank of a square.
pub open spec fn sq_rank(sq: int) -> int {
    sq / 8
}

/// Whether `sq` is one of the 64 squares.
pub open spec fn is_square(sq: int) -> bool {
    0 <= sq < 64
}

/// The castling right that is tied to a corner square, or zero elsewhere.
pub open spec fn corner_right(sq: int) -> u8 {
    if sq == 0 {
        WHITE_QUEEN_SIDE
    } else if sq == 7 {
        WHITE_KING_SIDE
    } else if sq == 56 {
        BLACK_QUEEN_SIDE
    } else if sq == 63 {
        BLACK_KING_SIDE
    } else {
        0
    }
}

/// Both castling rights of one colour.
pub open spec fn color_rights(white: bool) -> u8 {
    if white {
        0b1100
    } else {
        0b0011
    }
}

/// The kind of the piece that starts on a file of the first or the last
/// rank.
pub open spec fn start_kind(file: int) -> PieceType {
    if file == 0 || file == 7 {
        PieceType::Rook
    } else if file == 1 || file == 6 {
        PieceType::Knight
    } else if file == 2 || file == 5 {
        PieceType::Bishop
    } else if file == 3 {
        PieceType::Queen
    } else {
        PieceType::King
    }
}

/// The piece that stands on a square when a game starts, if any.
pub open spec fn start_piece(sq: int) -> Option<ChessPiece> {
    if 0 <= sq < 8 {
        Some(ChessPiece { kind: start_kind(sq_file(sq)), white: true })
    } else if 8 <= sq < 16 {
        Some(ChessPiece { kind: PieceType::Pawn, white: true })
    } else if 48 <= sq < 56 {
        Some(ChessPiece { kind: PieceType::Pawn, white: false })
    } else if 56 <= sq < 64 {
        Some(ChessPiece { kind: start_kind(sq_file(sq)), white: false })
    } else {
        None
    }
}

/// The position in which a game starts: White to move, all castling rights,
/// no move made.
pub open spec fn start_position() -> Position {
    Position {
        squares: Seq::new(64, |sq: int| start_piece(sq)),
        white_to_move: true,
        castling_rights: ALL_CASTLING_RIGHTS,
        history: Seq::empty(),
    }
}

impl Position {
    /// Whether the position has 64 squares, and the castling rights, those
    /// that hold and those that the history keeps, are sets of the four
    /// rights.
    pub open spec fn wf(self) -> bool {
        &&& self.squares.len() == 64
        &&& self.castling_rights <= ALL_CASTLING_RIGHTS
        &&& forall|i: int|
            0 <= i < self.history.len() ==> (#[trigger] self.history[i]).1 <= ALL_CASTLING_RIGHTS
    }

    /// The piece on a square, if any.
    pub open spec fn at(self, sq: int) -> Option<ChessPiece> {
        if is_square(sq) {
            self.squares[sq]
        } else {
            None
        }
    }

    /// Whether a piece of the given colour stands on the square.
    pub open spec fn has_color(self, sq: int, white: bool) -> bool {
        self.at(sq) is Some && self.at(sq)->0.white == white
    }

    /// Whether the given piece stands on the square.
    pub open spec fn has_piece(self, sq: int, kind: PieceType, white: bool) -> bool {
        self.at(sq) == Some(ChessPiece { kind, white })
    }

    /// The squares that hold a piece.
    pub open spec fn occupied(self) -> Set<int> {
        Set::new(|sq: int| self.at(sq) is Some)
    }

    /// The squares that hold a piece of the given colour.
    pub open spec fn color_squares(self, white: bool) -> Set<int> {
        Set::new(|sq: int| self.has_color(sq, white))
    }

    /// The squares that hold a piece of the given kind, of either colour.
    pub open spec fn kind_squares(self, kind: PieceType) -> Set<int> {
        Set::new(|sq: int| self.at(sq) is Some && self.at(sq)->0.kind == kind)
    }

    /// The squares that hold the given piece.
    pub open spec fn piece_squares(self, kind: PieceType, white: bool) -> Set<int> {
        Set::new(|sq: int| self.has_piece(sq, kind, white))
    }

    /// The last move made, if any.
    pub open spec fn last_move(self) -> Option<ChessMove> {
        if self.history.len() > 0 {
            Some(self.history.last().0)
        } else {
            None
        }
    }

    /// The square of the pawn that an en-passant capture to `to` removes:
    /// one rank behind `to`, seen from the capturing side.
    pub open spec fn en_passant_victim(to: int, white_mover: bool) -> int {
        if white_mover {
            to - 8
        } else {
            to + 8
        }
    }

    /// The corner from which the rook leaves when a king castles from `from`
    /// to `to`: file h on the king's side, file a on the queen's side.
    pub open spec fn castle_rook_from(from: int, to: int) -> int {
        if to > from {
            sq_rank(from) * 8 + 7
        } else {
            sq_rank(from) * 8
        }
    }

    /// The square on which the rook lands when a king castles from `from` to
    /// `to`: file f on the king's side, file d on the queen's side.
    pub open spec fn castle_rook_to(from: int, to: int) -> int {
        if to > from {
            sq_rank(from) * 8 + 5
        } else {
            sq_rank(from) * 8 + 3
        }
    }

    /// The square whose piece a move captures: for an en-passant capture the
    /// square behind the target, else the target.
    pub open spec fn capture_square(self, m: ChessMove) -> int {
        if m.flag_of() == 1 {
            Self::en_passant_victim(m.to_sq(), self.at(m.from_sq())->0.white)
        } else {
            m.to_sq()
        }
    }

    /// Whether `make_move` accepts the move in this position. A piece stands
    /// on the start square and none of its colour on the target, and the
    /// flag is one of the eight that a move can carry. An en-passant capture
    /// is made by a pawn to an empty square and removes a pawn of the other
    /// colour from the square behind it. A castling move is made by a king
    /// from the home square of its colour, two files to either side, to an
    /// empty square, with a rook of its colour in the corner and the rook's
    /// landing square empty. A double push is made by a pawn from the start
    /// rank of its colour, two ranks forward, over an empty square to an
    /// empty square. A promotion is made by a pawn that reaches the last
    /// rank of its colour.
    ///
    /// How the piece moves is not looked at beyond this: that a move with no
    /// flag, a capture en passant or a promotion follows the piece's pattern,
    /// that castling rights are held and that no king is left in check is
    /// what the move generator sees to.
    pub open spec fn accepts(self, m: ChessMove) -> bool {
        let from = m.from_sq();
        let to = m.to_sq();
        let flag = m.flag_of();
        &&& self.at(from) is Some
        &&& !self.has_color(to, self.at(from)->0.white)
        &&& flag <= 7
        &&& flag == 1 ==> {
            let mover = self.at(from)->0;
            let victim = Self::en_passant_victim(to, mover.white);
            &&& mover.kind == PieceType::Pawn
            &&& self.at(to) is None
            &&& self.has_piece(victim, PieceType::Pawn, !mover.white)
        }
        &&& flag == 2 ==> {
            let mover = self.at(from)->0;
            &&& mover.kind == PieceType::King
            &&& from == king_home(mover.white)
            &&& (to == from + 2 || to == from - 2)
            &&& self.at(to) is None
            &&& self.has_piece(Self::castle_rook_from(from, to), PieceType::Rook, mover.white)
            &&& self.at(Self::castle_rook_to(from, to)) is None
        }
        &&& flag == 3 ==> {
            let mover = self.at(from)->0;
            let step = pawn_step(mover.white);
            &&& mover.kind == PieceType::Pawn
            &&& sq_rank(from) == pawn_start_rank(mover.white)
            &&& to == from + 2 * step
            &&& self.at(from + step) is None
            &&& self.at(to) is None
        }
        &&& m.promotes() ==> {
            let mover = self.at(from)->0;
            &&& mover.kind == PieceType::Pawn
            &&& sq_rank(to) == pawn_last_rank(mover.white)
        }
    }

    /// The move with the moving piece and the captured piece recorded in it,
    /// as `make_move` hands it back and keeps it in the history.
    pub open spec fn annotate(self, m: ChessMove) -> ChessMove {
        ChessMove {
            move_value: m.move_value,
            chess_piece: self.at(m.from_sq()),
            capture: self.at(self.capture_square(m)),
        }
    }

    /// The piece that stands on the target square after the move: the moving
    /// piece, or for a promotion the new piece in the mover's colour.
    pub open spec fn placed_piece(self, m: ChessMove) -> ChessPiece {
        let mover = self.at(m.from_sq())->0;
        match crate::chess_move::promotion_of_flag(m.flag_of()) {
            Some(kind) => ChessPiece { kind, white: mover.white },
            None => mover,
        }
    }

    /// The squares after the move: the captured piece is removed, the moving
    /// piece leaves its square and stands (promoted, if so flagged) on the
    /// target, and for a castling move the rook crosses over the king.
    pub open spec fn squares_after(self, m: ChessMove) -> Seq<Option<ChessPiece>> {
        let from = m.from_sq();
        let to = m.to_sq();
        let mover = self.at(from)->0;
        let moved = self.squares.update(self.capture_square(m), None).update(from, None).update(
            to,
            Some(self.placed_piece(m)),
        );
        if m.flag_of() == 2 {
            moved.update(Self::castle_rook_from(from, to), None).update(
                Self::castle_rook_to(from, to),
                Some(ChessPiece { kind: PieceType::Rook, white: mover.white }),
            )
        } else {
            moved
        }
    }

    /// The castling rights that a move takes away: both rights of a king
    /// that moves, the right of a corner that a rook leaves, and the right
    /// of a corner on which a rook is captured.
    pub open spec fn rights_lost(self, m: ChessMove) -> u8 {
        let from = m.from_sq();
        let mover = self.at(from)->0;
        let captured = self.at(self.capture_square(m));
        (if mover.kind == PieceType::King {
            color_rights(mover.white)
        } else {
            0u8
        }) | (if mover.kind == PieceType::Rook {
            corner_right(from)
        } else {
            0u8
        }) | (if captured is Some && captured->0.kind == PieceType::Rook {
            corner_right(self.capture_square(m))
        } else {
            0u8
        })
    }

    /// The position after an accepted move.
    pub open spec fn after_move(self, m: ChessMove) -> Position {
        Position {
            squares: self.squares_after(m),
            white_to_move: !self.white_to_move,
            castling_rights: self.castling_rights & !self.rights_lost(m),
            history: self.history.push((self.annotate(m), self.castling_rights)),
        }
    }

    /// The squares after taking back the move `m`, which carries the piece
    /// that moved and the piece it captured: the rook of a castling move
    /// goes back to its corner, the moved piece goes back to its start
    /// square as it was before any promotion, and the captured piece comes
    /// back.
    pub open spec fn squares_before(self, m: ChessMove) -> Seq<Option<ChessPiece>> {
        let from = m.from_sq();
        let to = m.to_sq();
        let white = m.chess_piece is Some && m.chess_piece->0.white;
        let unrooked = if m.flag_of() == 2 {
            self.squares.update(Self::castle_rook_to(from, to), None).update(
                Self::castle_rook_from(from, to),
                Some(ChessPiece { kind: PieceType::Rook, white }),
            )
        } else {
            self.squares
        };
        let unmoved = unrooked.update(to, None).update(from, m.chess_piece);
        let victim = if m.flag_of() == 1 {
            Self::en_passant_victim(to, white)
        } else {
            to
        };
        if m.capture is Some && is_square(victim) {
            unmoved.update(victim, m.capture)
        } else {
            unmoved
        }
    }

    /// The position after taking back the last move of a history that is
    /// not empty.
    pub open spec fn after_undo(self) -> Position {
        let entry = self.history.last();
        Position {
            squares: self.squares_before(entry.0),
            white_to_move: !self.white_to_move,
            castling_rights: entry.1,
            history: self.history.drop_last(),
        }
    }
}

/// Taking rights away from a set of the four rights leaves a set of the four
/// rights.
pub proof fn lemma_rights_kept(rights: u8, lost: u8)
    requires
        rights <= ALL_CASTLING_RIGHTS,
    ensures
        rights & !lost <= ALL_CASTLING_RIGHTS,
{
    assert(rights <= 0b1111u8 ==> rights & !lost <= 0b1111u8) by (bit_vector);
}

/// Taking back an accepted move gives the position in which it was made:
/// every square, the side to move, the castling rights and the history are
/// as before.
pub proof fn lemma_make_undo_roundtrip(p: Position, m: ChessMove)
    requires
        p.wf(),
        p.accepts(m),
    ensures
        p.after_move(m).wf(),
        p.after_move(m).history.len() == p.history.len() + 1,
        p.after_move(m).after_undo() == p,
{
    crate::chess_move::lemma_move_word(m.move_value);
    let q = p.after_move(m);
    let a = p.annotate(m);
    lemma_rights_kept(p.castling_rights, p.rights_lost(m));
    assert(q.history.last() == (a, p.castling_rights));
    assert(q.history.drop_last() =~= p.history);
    assert(a.from_sq() == m.from_sq());
    assert(a.to_sq() == m.to_sq());
    assert(a.flag_of() == m.flag_of());
    let from = m.from_sq();
    let to = m.to_sq();
    let r = q.after_undo();
    assert(r.squares.len() == 64);
    assert forall|i: int| 0 <= i < 64 implies r.squares[i] == p.squares[i] by {}
    assert(r.squares =~= p.squares);
}

} // verus!
