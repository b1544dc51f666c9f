use crate::bitboard::Bitboard;
use crate::bits::{all_squares, lemma_bits_bitwise, lemma_bits_finite, lemma_bits_of_injective};
use crate::chess_move::ChessMove;
use crate::piece::{ChessPiece, PieceType};
use crate::position::{
    color_rights, corner_right, Position, ALL_CASTLING_RIGHTS, BLACK_KING_SIDE, BLACK_QUEEN_SIDE,
    WHITE_KING_SIDE, WHITE_QUEEN_SIDE,
};
use vstd::prelude::*;

verus! {

/// The four castling rights, and all of them together.
#[derive(Debug, Clone, Copy, PartialEq, Eq, Structural)]
pub enum CastlingRights {
    WhiteKingSide,
    WhiteQueenSide,
    BlackKingSide,
    BlackQueenSide,
    AllCastlingRights,
}

impl CastlingRights {
    /// The bits of the right in the castling mask.
    pub open spec fn mask(self) -> u8 {
        match self {
            CastlingRights::WhiteKingSide => WHITE_KING_SIDE,
            CastlingRights::WhiteQueenSide => WHITE_QUEEN_SIDE,
            CastlingRights::BlackKingSide => BLACK_KING_SIDE,
            CastlingRights::BlackQueenSide => BLACK_QUEEN_SIDE,
            CastlingRights::AllCastlingRights => ALL_CASTLING_RIGHTS,
        }
    }

    /// The bits of the right in the castling mask.
    pub fn bits(self) -> (r: u8)
        ensures
            r == self.mask(),
    {
        match self {
            CastlingRights::WhiteKingSide => WHITE_KING_SIDE,
            CastlingRights::WhiteQueenSide => WHITE_QUEEN_SIDE,
            CastlingRights::BlackKingSide => BLACK_KING_SIDE,
            CastlingRights::BlackQueenSide => BLACK_QUEEN_SIDE,
            CastlingRights::AllCastlingRights => ALL_CASTLING_RIGHTS,
        }
    }
}

/// A chess position held as eight bitboards (one for each colour and one for
/// each kind of piece), the side to move, the castling rights and the moves
/// made so far.
pub struct ChessBoard {
    pub white: Bitboard,
    pub black: Bitboard,
    pub pawns: Bitboard,
    pub knights: Bitboard,
    pub bishops: Bitboard,
    pub rooks: Bitboard,
    pub queens: Bitboard,
    pub kings: Bitboard,
    pub castling_rights: u8,
    pub white_to_move: bool,
    pub move_history: Vec<(ChessMove, u8)>,
}

impl View for ChessBoard {
    type V = Position;

    open spec fn view(&self) -> Position {
        Position {
            squares: Seq::new(64, |sq: int| self.piece_on(sq)),
            white_to_move: self.white_to_move,
            castling_rights: self.castling_rights,
            history: self.move_history@,
        }
    }
}

impl ChessBoard {
    /// The kind of piece that the kind-bitboards show on a square.
    pub open spec fn kind_on(&self, sq: int) -> Option<PieceType> {
        if self.pawns@.contains(sq) {
            Some(PieceType::Pawn)
        } else if self.knights@.contains(sq) {
            Some(PieceType::Knight)
        } else if self.bishops@.contains(sq) {
            Some(PieceType::Bishop)
        } else if self.rooks@.contains(sq) {
            Some(PieceType::Rook)
        } else if self.queens@.contains(sq) {
            Some(PieceType::Queen)
        } else if self.kings@.contains(sq) {
            Some(PieceType::King)
        } else {
            None
        }
    }

    /// The piece that the bitboards show on a square.
    pub open spec fn piece_on(&self, sq: int) -> Option<ChessPiece> {
        match self.kind_on(sq) {
            Some(kind) => Some(ChessPiece { kind, white: self.white@.contains(sq) }),
            None => None,
        }
    }

    /// The number of kind-bitboards that hold the square.
    pub open spec fn kinds_holding(&self, sq: int) -> int {
        (if self.pawns@.contains(sq) {
            1int
        } else {
            0int
        }) + (if self.knights@.contains(sq) {
            1int
        } else {
            0int
        }) + (if self.bishops@.contains(sq) {
            1int
        } else {
            0int
        }) + (if self.rooks@.contains(sq) {
            1int
        } else {
            0int
        }) + (if self.queens@.contains(sq) {
            1int
        } else {
            0int
        }) + (if self.kings@.contains(sq) {
            1int
        } else {
            0int
        })
    }

    /// Whether the bitboards agree on one square: at most one kind holds it,
    /// at most one colour holds it, and a colour holds it exactly when a
    /// kind does.
    pub open spec fn square_ok(&self, sq: int) -> bool {
        &&& self.kinds_holding(sq) <= 1
        &&& !(self.white@.contains(sq) && self.black@.contains(sq))
        &&& (self.white@.contains(sq) || self.black@.contains(sq)) == (self.kinds_holding(sq) == 1)
    }

    /// Whether the bitboards agree on every square, so that each square
    /// holds at most one piece.
    pub open spec fn boards_agree(&self) -> bool {
        forall|sq: int| 0 <= sq < 64 ==> #[trigger] self.square_ok(sq)
    }

    /// Whether the castling rights, those that hold and those that the
    /// history keeps, are sets of the four rights.
    pub open spec fn rights_fit(&self) -> bool {
        &&& self.castling_rights <= ALL_CASTLING_RIGHTS
        &&& forall|i: int|
            0 <= i < self.move_history@.len() ==> (#[trigger] self.move_history@[i]).1
                <= ALL_CASTLING_RIGHTS
    }

    /// Whether the board is well formed: the bitboards agree on every
    /// square, and no castling mask holds a bit beyond the four rights.
    pub open spec fn wf(&self) -> bool {
        &&& self.boards_agree()
        &&& self.rights_fit()
    }

    /// The start position of a game.
    pub fn new() -> (r: ChessBoard)
        ensures
            r.wf(),
            r@ == crate::position::start_position(),
            r.white.0 == 0xFFFF,
            r.black.0 == 0xFFFF_0000_0000_0000,
            r.pawns.0 == 0x00FF_0000_0000_FF00,
            r.knights.0 == 0x4200_0000_0000_0042,
            r.bishops.0 == 0x2400_0000_0000_0024,
            r.rooks.0 == 0x8100_0000_0000_0081,
            r.queens.0 == 0x0800_0000_0000_0008,
            r.kings.0 == 0x1000_0000_0000_0010,
            r.castling_rights == ALL_CASTLING_RIGHTS,
            r.white_to_move,
            r.move_history@.len() == 0,
    {
        let board = ChessBoard {
            white: Bitboard(0xFFFF),
            black: Bitboard(0xFFFF_0000_0000_0000),
            pawns: Bitboard(0x00FF_0000_0000_FF00),
            knights: Bitboard(0x4200_0000_0000_0042),
            bishops: Bitboard(0x2400_0000_0000_0024),
            rooks: Bitboard(0x8100_0000_0000_0081),
            queens: Bitboard(0x0800_0000_0000_0008),
            kings: Bitboard(0x1000_0000_0000_0010),
            castling_rights: ALL_CASTLING_RIGHTS,
            white_to_move: true,
            move_history: Vec::new(),
        };
        proof {
            assert forall|sq: int| 0 <= sq < 64 implies #[trigger] board.square_ok(sq) by {
                lemma_start_words(sq as u64);
            }
            assert forall|sq: int| 0 <= sq < 64 implies board.piece_on(sq)
                == crate::position::start_piece(sq) by {
                lemma_start_words(sq as u64);
            }
            assert(board@.squares =~= crate::position::start_position().squares);
            assert(board@.history =~= crate::position::start_position().history);
        }
        board
    }

    /// Empties the board: no piece, White to move, all castling rights, no
    /// history.
    pub fn clear(&mut self)
        ensures
            final(self).wf(),
            final(self)@.squares == Seq::new(64, |sq: int| None::<ChessPiece>),
            final(self)@.white_to_move,
            final(self)@.castling_rights == ALL_CASTLING_RIGHTS,
            final(self)@.history.len() == 0,
    {
        self.white = Bitboard(0);
        self.black = Bitboard(0);
        self.pawns = Bitboard(0);
        self.knights = Bitboard(0);
        self.bishops = Bitboard(0);
        self.rooks = Bitboard(0);
        self.queens = Bitboard(0);
        self.kings = Bitboard(0);
        self.castling_rights = ALL_CASTLING_RIGHTS;
        self.white_to_move = true;
        self.move_history.clear();
        proof {
            crate::bits::lemma_bits_constants();
            assert forall|sq: int| 0 <= sq < 64 implies #[trigger] self.square_ok(sq) by {}
            assert(self@.squares =~= Seq::new(64, |sq: int| None::<ChessPiece>));
        }
    }

    /// Removes whatever stands on a square.
    pub fn clear_square(&mut self, square: u16)
        requires
            old(self).wf(),
            square < 64,
        ensures
            final(self).wf(),
            final(self)@ == (Position {
                squares: old(self)@.squares.update(square as int, None),
                ..old(self)@
            }),
    {
        let index: usize = square as usize;
        self.white.clear_bit(index);
        self.black.clear_bit(index);
        self.pawns.clear_bit(index);
        self.knights.clear_bit(index);
        self.bishops.clear_bit(index);
        self.rooks.clear_bit(index);
        self.queens.clear_bit(index);
        self.kings.clear_bit(index);
        proof {
            assert forall|sq: int| 0 <= sq < 64 implies #[trigger] self.square_ok(sq) by {
                assert(old(self).square_ok(sq));
            }
            assert(self@.squares =~= old(self)@.squares.update(square as int, None));
        }
    }

    /// Puts a piece on a square, in place of whatever stood there.
    pub fn place_piece(&mut self, square: u16, piece: ChessPiece)
        requires
            old(self).wf(),
            square < 64,
        ensures
            final(self).wf(),
            final(self)@ == (Position {
                squares: old(self)@.squares.update(square as int, Some(piece)),
                ..old(self)@
            }),
    {
        self.clear_square(square);
        let ghost mid = *self;
        let index: usize = square as usize;
        match piece.kind {
            PieceType::Pawn => self.pawns.set_bit(index),
            PieceType::Knight => self.knights.set_bit(index),
            PieceType::Bishop => self.bishops.set_bit(index),
            PieceType::Rook => self.rooks.set_bit(index),
            PieceType::Queen => self.queens.set_bit(index),
            PieceType::King => self.kings.set_bit(index),
        }
        if piece.white {
            self.white.set_bit(index);
        } else {
            self.black.set_bit(index);
        }
        proof {
            assert(mid.square_ok(square as int));
            assert(mid@.squares[square as int] == mid.piece_on(square as int));
            assert(mid.piece_on(square as int) is None);
            assert(mid.kinds_holding(square as int) == 0);
            assert forall|sq: int| 0 <= sq < 64 implies #[trigger] self.square_ok(sq) by {
                assert(mid.square_ok(sq));
            }
            assert forall|sq: int| 0 <= sq < 64 implies self@.squares[sq] == old(
                self,
            )@.squares.update(square as int, Some(piece))[sq] by {
                assert(mid@.squares[sq] == mid.piece_on(sq));
                assert(mid.square_ok(sq));
            }
            assert(self@.squares =~= old(self)@.squares.update(square as int, Some(piece)));
        }
    }

    /// Puts a piece of the given kind and colour on a square, in place of
    /// whatever stood there.
    pub fn set_piece_at_square(&mut self, square: u16, piece_type: PieceType, is_white: bool)
        requires
            old(self).wf(),
            square < 64,
        ensures
            final(self).wf(),
            final(self)@ == (Position {
                squares: old(self)@.squares.update(
                    square as int,
                    Some(ChessPiece { kind: piece_type, white: is_white }),
                ),
                ..old(self)@
            }),
    {
        self.place_piece(square, ChessPiece::new(piece_type, is_white));
    }

    /// Whether White is to move.
    pub fn is_white_active(&self) -> (r: bool)
        ensures
            r == self@.white_to_move,
    {
        self.white_to_move
    }

    /// Sets the side to move.
    pub fn set_active_color(&mut self, is_white: bool)
        ensures
            *final(self) == (ChessBoard { white_to_move: is_white, ..*old(self) }),
            final(self)@ == (Position { white_to_move: is_white, ..old(self)@ }),
            old(self).wf() ==> final(self).wf(),
    {
        self.white_to_move = is_white;
        proof {
            assert(self@.squares =~= old(self)@.squares);
            if old(self).wf() {
                assert forall|sq: int| 0 <= sq < 64 implies #[trigger] self.square_ok(sq) by {
                    assert(old(self).square_ok(sq));
                }
            }
        }
    }

    /// The squares that hold a white piece.
    pub fn get_white(&self) -> (r: Bitboard)
        ensures
            r == self.white,
            self.wf() ==> r@ == self@.color_squares(true),
    {
        proof {
            if self.wf() {
                lemma_board_sets(*self);
            }
        }
        self.white
    }

    /// The squares that hold a black piece.
    pub fn get_black(&self) -> (r: Bitboard)
        ensures
            r == self.black,
            self.wf() ==> r@ == self@.color_squares(false),
    {
        proof {
            if self.wf() {
                lemma_board_sets(*self);
            }
        }
        self.black
    }

    /// The squares that hold a pawn.
    pub fn get_pawns(&self) -> (r: Bitboard)
        ensures
            r == self.pawns,
            self.wf() ==> r@ == self@.kind_squares(PieceType::Pawn),
    {
        proof {
            if self.wf() {
                lemma_board_sets(*self);
            }
        }
        self.pawns
    }

    /// The squares that hold a rook.
    pub fn get_rooks(&self) -> (r: Bitboard)
        ensures
            r == self.rooks,
            self.wf() ==> r@ == self@.kind_squares(PieceType::Rook),
    {
        proof {
            if self.wf() {
                lemma_board_sets(*self);
            }
        }
        self.rooks
    }

    /// The squares that hold a bishop.
    pub fn get_bishops(&self) -> (r: Bitboard)
        ensures
            r == self.bishops,
            self.wf() ==> r@ == self@.kind_squares(PieceType::Bishop),
    {
        proof {
            if self.wf() {
                lemma_board_sets(*self);
            }
        }
        self.bishops
    }

    /// The squares that hold a knight.
    pub fn get_knights(&self) -> (r: Bitboard)
        ensures
            r == self.knights,
            self.wf() ==> r@ == self@.kind_squares(PieceType::Knight),
    {
        proof {
            if self.wf() {
                lemma_board_sets(*self);
            }
        }
        self.knights
    }

    /// The squares that hold a queen.
    pub fn get_queens(&self) -> (r: Bitboard)
        ensures
            r == self.queens,
            self.wf() ==> r@ == self@.kind_squares(PieceType::Queen),
    {
        proof {
            if self.wf() {
                lemma_board_sets(*self);
            }
        }
        self.queens
    }

    /// The squares that hold a king.
    pub fn get_kings(&self) -> (r: Bitboard)
        ensures
            r == self.kings,
            self.wf() ==> r@ == self@.kind_squares(PieceType::King),
    {
        proof {
            if self.wf() {
                lemma_board_sets(*self);
            }
        }
        self.kings
    }

    /// The squares that hold a piece of the other colour than `is_white`.
    pub fn get_opponent_pieces(&self, is_white: bool) -> (r: Bitboard)
        ensures
            r == if is_white {
                self.black
            } else {
                self.white
            },
            self.wf() ==> r@ == self@.color_squares(!is_white),
    {
        if is_white {
            self.get_black()
        } else {
            self.get_white()
        }
    }

    /// The squares that hold a piece of the colour `is_white`.
    pub fn get_own_pieces(&self, is_white: bool) -> (r: Bitboard)
        ensures
            r == if is_white {
                self.white
            } else {
                self.black
            },
            self.wf() ==> r@ == self@.color_squares(is_white),
    {
        if is_white {
            self.get_white()
        } else {
            self.get_black()
        }
    }

    /// The squares that hold a piece.
    pub fn get_all_pieces(&self) -> (r: Bitboard)
        ensures
            r.0 == self.white.0 | self.black.0,
            self.wf() ==> r@ == self@.occupied(),
    {
        proof {
            if self.wf() {
                lemma_board_sets(*self);
            }
        }
        self.get_white().or(self.get_black())
    }

    /// The squares that hold no piece.
    pub fn get_all_free_squares(&self) -> (r: Bitboard)
        ensures
            r.0 == !(self.white.0 | self.black.0),
            self.wf() ==> r@ == all_squares().difference(self@.occupied()),
    {
        self.get_all_pieces().not()
    }

    /// The squares that hold the king of the colour `is_white`.
    pub fn get_king(&self, is_white: bool) -> (r: Bitboard)
        ensures
            r.0 == self.kings.0 & (if is_white {
                self.white.0
            } else {
                self.black.0
            }),
            self.wf() ==> r@ == self@.piece_squares(PieceType::King, is_white),
    {
        proof {
            if self.wf() {
                lemma_board_sets(*self);
                lemma_bits_bitwise(self.kings.0, self.white.0);
                lemma_bits_bitwise(self.kings.0, self.black.0);
                assert(self@.kind_squares(PieceType::King).intersect(
                    self@.color_squares(is_white),
                ) =~= self@.piece_squares(PieceType::King, is_white));
            }
        }
        if is_white {
            self.kings.and(self.white)
        } else {
            self.kings.and(self.black)
        }
    }

    /// The squares that hold a piece of the given kind and colour.
    pub fn get_pieces(&self, kind: PieceType, is_white: bool) -> (r: Bitboard)
        requires
            self.wf(),
        ensures
            r@ == self@.piece_squares(kind, is_white),
            forall|sq: int| 0 <= sq < 64 ==> crate::bits::bit_at(r.0, sq) == self@.has_piece(
                sq,
                kind,
                is_white,
            ),
    {
        proof {
            lemma_board_sets(*self);
        }
        let of_kind: Bitboard = match kind {
            PieceType::Pawn => self.pawns,
            PieceType::Knight => self.knights,
            PieceType::Bishop => self.bishops,
            PieceType::Rook => self.rooks,
            PieceType::Queen => self.queens,
            PieceType::King => self.kings,
        };
        let of_color: Bitboard = if is_white {
            self.white
        } else {
            self.black
        };
        let both = of_kind.and(of_color);
        proof {
            assert(self@.kind_squares(kind).intersect(self@.color_squares(is_white))
                =~= self@.piece_squares(kind, is_white));
            assert forall|sq: int| 0 <= sq < 64 implies crate::bits::bit_at(both.0, sq)
                == self@.has_piece(sq, kind, is_white) by {
                assert(both@.contains(sq) == self@.piece_squares(kind, is_white).contains(sq));
            }
        }
        both
    }

    /// Whether the board is well formed.
    pub fn is_valid(&self) -> (r: bool)
        ensures
            r == self.wf(),
    {
        let mut fit: bool = self.castling_rights <= ALL_CASTLING_RIGHTS;
        let mut i: usize = 0;
        while i < self.move_history.len()
            invariant
                i <= self.move_history@.len(),
                fit == (self.castling_rights <= ALL_CASTLING_RIGHTS && forall|j: int|
                    0 <= j < i ==> (#[trigger] self.move_history@[j]).1 <= ALL_CASTLING_RIGHTS),
            decreases self.move_history@.len() - i,
        {
            if self.move_history[i].1 > ALL_CASTLING_RIGHTS {
                fit = false;
            }
            i = i + 1;
        }
        let w: u64 = self.white.0;
        let b: u64 = self.black.0;
        let a1: u64 = self.pawns.0;
        let a2: u64 = a1 | self.knights.0;
        let a3: u64 = a2 | self.bishops.0;
        let a4: u64 = a3 | self.rooks.0;
        let a5: u64 = a4 | self.queens.0;
        let a6: u64 = a5 | self.kings.0;
        let c0: u64 = w & b;
        let c1: u64 = a1 & self.knights.0;
        let c2: u64 = a2 & self.bishops.0;
        let c3: u64 = a3 & self.rooks.0;
        let c4: u64 = a4 & self.queens.0;
        let c5: u64 = a5 & self.kings.0;
        let both: u64 = w | b;
        let ok: bool = c0 == 0 && c1 == 0 && c2 == 0 && c3 == 0 && c4 == 0 && c5 == 0 && both == a6;
        proof {
            lemma_bits_bitwise(a1, self.knights.0);
            lemma_bits_bitwise(a2, self.bishops.0);
            lemma_bits_bitwise(a3, self.rooks.0);
            lemma_bits_bitwise(a4, self.queens.0);
            lemma_bits_bitwise(a5, self.kings.0);
            lemma_bits_bitwise(w, b);
            crate::bits::lemma_bits_constants();
            if ok {
                assert forall|sq: int| 0 <= sq < 64 implies #[trigger] self.square_ok(sq) by {
                    assert(!crate::bits::bit_at(c0, sq));
                    assert(!crate::bits::bit_at(c1, sq));
                    assert(!crate::bits::bit_at(c2, sq));
                    assert(!crate::bits::bit_at(c3, sq));
                    assert(!crate::bits::bit_at(c4, sq));
                    assert(!crate::bits::bit_at(c5, sq));
                    assert(crate::bits::bit_at(both, sq) == crate::bits::bit_at(a6, sq));
                }
            }
            if self.boards_agree() {
                assert forall|sq: int| 0 <= sq < 64 implies !crate::bits::bit_at(c0, sq) by {
                    assert(self.square_ok(sq));
                }
                assert forall|sq: int| 0 <= sq < 64 implies crate::bits::bit_at(both, sq)
                    == crate::bits::bit_at(a6, sq) by {
                    assert(self.square_ok(sq));
                }
                assert forall|sq: int| 0 <= sq < 64 implies !crate::bits::bit_at(c1, sq)
                    && !crate::bits::bit_at(c2, sq) && !crate::bits::bit_at(c3, sq)
                    && !crate::bits::bit_at(c4, sq) && !crate::bits::bit_at(c5, sq) by {
                    assert(self.square_ok(sq));
                }
                crate::bits::lemma_bits_injective(c0, 0);
                crate::bits::lemma_bits_injective(c1, 0);
                crate::bits::lemma_bits_injective(c2, 0);
                crate::bits::lemma_bits_injective(c3, 0);
                crate::bits::lemma_bits_injective(c4, 0);
                crate::bits::lemma_bits_injective(c5, 0);
                crate::bits::lemma_bits_injective(both, a6);
            }
            assert(ok == self.boards_agree());
            assert(fit == self.rights_fit());
        }
        ok && fit
    }

    /// The last move made, if any.
    pub fn get_last_move(&self) -> (r: Option<ChessMove>)
        ensures
            r == self@.last_move(),
    {
        let n: usize = self.move_history.len();
        if n == 0 {
            None
        } else {
            Some(self.move_history[n - 1].0)
        }
    }

    /// Whether a white piece stands on the square.
    pub fn is_square_white(&self, index: u16) -> (r: bool)
        ensures
            r == self.white@.contains(index as int),
            self.wf() ==> r == self@.has_color(index as int, true),
    {
        proof {
            if self.wf() {
                lemma_board_sets(*self);
            }
        }
        self.white.is_set(index as usize)
    }

    /// The kind of the piece on a square, if any.
    pub fn get_piece_type(&self, index: u16) -> (r: Option<PieceType>)
        ensures
            r == self.kind_on(index as int),
            index < 64 ==> r == match self@.at(index as int) {
                Some(p) => Some(p.kind),
                None => None,
            },
            index >= 64 ==> r is None,
    {
        proof {
            lemma_bits_finite(self.pawns.0);
            lemma_bits_finite(self.knights.0);
            lemma_bits_finite(self.bishops.0);
            lemma_bits_finite(self.rooks.0);
            lemma_bits_finite(self.queens.0);
            lemma_bits_finite(self.kings.0);
        }
        let i: usize = index as usize;
        if self.pawns.is_set(i) {
            Some(PieceType::Pawn)
        } else if self.knights.is_set(i) {
            Some(PieceType::Knight)
        } else if self.bishops.is_set(i) {
            Some(PieceType::Bishop)
        } else if self.rooks.is_set(i) {
            Some(PieceType::Rook)
        } else if self.queens.is_set(i) {
            Some(PieceType::Queen)
        } else if self.kings.is_set(i) {
            Some(PieceType::King)
        } else {
            None
        }
    }

    /// The piece on a square, if any.
    pub fn get_piece_at_square(&self, index: u16) -> (r: Option<ChessPiece>)
        ensures
            r == self@.at(index as int),
    {
        let is_white: bool = self.white.is_set(index as usize);
        match self.get_piece_type(index) {
            Some(kind) => Some(ChessPiece::new(kind, is_white)),
            None => None,
        }
    }

    /// Whether every square strictly between the two squares, counted by
    /// index, is empty.
    pub fn is_path_clear(&self, start_square: u16, end_square: u16) -> (r: bool)
        requires
            start_square < 64,
            end_square < 64,
        ensures
            r == (forall|sq: int|
                (start_square < sq < end_square || end_square < sq < start_square)
                    ==> self@.at(sq) is None),
    {
        let lo: u16 = if start_square < end_square {
            start_square
        } else {
            end_square
        };
        let hi: u16 = if start_square < end_square {
            end_square
        } else {
            start_square
        };
        let mut square: u16 = lo + 1;
        while square < hi
            invariant
                lo < square,
                hi < 64,
                lo == if start_square < end_square {
                    start_square
                } else {
                    end_square
                },
                hi == if start_square < end_square {
                    end_square
                } else {
                    start_square
                },
                forall|sq: int| lo < sq < square && sq < hi ==> self@.at(sq) is None,
            decreases 64 - square,
        {
            if self.get_piece_at_square(square).is_some() {
                return false;
            }
            square = square + 1;
        }
        true
    }

    /// The castling rights as FEN letters, a subset of `KQkq` in that order.
    pub fn get_fen_castling_rights(&self) -> (r: String)
        ensures
            r@ == rights_letters(self.castling_rights),
    {
        let mut result: String = String::new();
        if self.castling_rights & WHITE_KING_SIDE != 0 {
            result.push('K');
        }
        if self.castling_rights & WHITE_QUEEN_SIDE != 0 {
            result.push('Q');
        }
        if self.castling_rights & BLACK_KING_SIDE != 0 {
            result.push('k');
        }
        if self.castling_rights & BLACK_QUEEN_SIDE != 0 {
            result.push('q');
        }
        proof {
            assert(result@ =~= rights_letters(self.castling_rights));
        }
        result
    }

    /// The castling rights as FEN letters, a subset of `KQkq` in that order.
    pub fn get_castling_rights(&self) -> (r: String)
        ensures
            r@ == rights_letters(self.castling_rights),
    {
        self.get_fen_castling_rights()
    }

    /// Sets the castling rights to those whose letter occurs in the text.
    pub fn set_castling_rights_from_fen(&mut self, fen_castling: &str)
        ensures
            *final(self) == (ChessBoard {
                castling_rights: rights_of_letters(fen_castling@),
                ..*old(self)
            }),
            old(self).wf() ==> final(self).wf(),
            final(self)@ == (Position {
                castling_rights: rights_of_letters(fen_castling@),
                ..old(self)@
            }),
    {
        let chars: Vec<char> = crate::text::chars_of(fen_castling);
        self.castling_rights = rights_from_chars(&chars);
        proof {
            lemma_rights_of_letters(fen_castling@);
            assert(self@.squares =~= old(self)@.squares);
            if old(self).wf() {
                assert forall|sq: int| 0 <= sq < 64 implies #[trigger] self.square_ok(sq) by {
                    assert(old(self).square_ok(sq));
                }
            }
        }
    }

    /// The FEN letter of the piece on a square: upper case for White, lower
    /// case for Black, a dot for an empty square.
    pub fn get_piece_character(&self, index: usize) -> (r: char)
        requires
            index < 64,
        ensures
            r == piece_character(self@.at(index as int)),
    {
        match self.get_piece_at_square(index as u16) {
            Some(piece) => {
                if piece.white {
                    ChessPiece::piecetype_to_char(piece.kind)
                } else {
                    ChessPiece::piecetype_to_lower_char(piece.kind)
                }
            },
            None => '.',
        }
    }

    /// The board as eight rows of eight characters, from rank 8 down to
    /// rank 1, each row from file a to file h.
    pub fn generate_board_representation(&self) -> (r: [[char; 8]; 8])
        ensures
            forall|row: int, col: int|
                0 <= row < 8 && 0 <= col < 8 ==> #[trigger] r[row][col] == piece_character(
                    self@.at((7 - row) * 8 + col),
                ),
    {
        let mut board_repr: [[char; 8]; 8] = [['.'; 8]; 8];
        let mut row: usize = 0;
        while row < 8
            invariant
                row <= 8,
                forall|a: int, b: int|
                    0 <= a < row && 0 <= b < 8 ==> #[trigger] board_repr[a][b] == piece_character(
                        self@.at((7 - a) * 8 + b),
                    ),
            decreases 8 - row,
        {
            let mut line: [char; 8] = ['.'; 8];
            let mut col: usize = 0;
            while col < 8
                invariant
                    col <= 8,
                    row < 8,
                    forall|b: int|
                        0 <= b < col ==> #[trigger] line[b] == piece_character(
                            self@.at((7 - row) * 8 + b),
                        ),
                decreases 8 - col,
            {
                line[col] = self.get_piece_character((7 - row) * 8 + col);
                col = col + 1;
            }
            board_repr[row] = line;
            row = row + 1;
        }
        board_repr
    }

    /// Makes a move if the position accepts it, and says whether it did. An
    /// accepted move is handed back with the moving piece and the captured
    /// piece recorded in it. A move that is not accepted changes nothing.
    pub fn make_move(&mut self, chess_move: &mut ChessMove) -> (ok: bool)
        requires
            old(self).wf(),
        ensures
            final(self).wf(),
            ok == old(self)@.accepts(*old(chess_move)),
            ok ==> final(self)@ == old(self)@.after_move(*old(chess_move)),
            ok ==> *final(chess_move) == old(self)@.annotate(*old(chess_move)),
            !ok ==> *final(self) == *old(self) && *final(chess_move) == *old(chess_move),
    {
        let from: u16 = chess_move.start_square();
        let to: u16 = chess_move.target_square();
        let flag: u16 = chess_move.flag();
        let mover: ChessPiece = match self.get_piece_at_square(from) {
            Some(piece) => piece,
            None => {
                return false;
            },
        };
        let target: Option<ChessPiece> = self.get_piece_at_square(to);
        if let Some(piece) = target {
            if piece.white == mover.white {
                return false;
            }
        }
        if flag > ChessMove::PROMOTE_TO_BISHOP_FLAG {
            return false;
        }
        let mut victim_square: u16 = to;
        if flag == ChessMove::EN_PASSANT_CAPTURE_FLAG {
            if mover.kind != PieceType::Pawn || target.is_some() {
                return false;
            }
            if mover.white {
                if to < 8 {
                    return false;
                }
                victim_square = to - 8;
            } else {
                if to >= 56 {
                    return false;
                }
                victim_square = to + 8;
            }
            match self.get_piece_at_square(victim_square) {
                Some(piece) => {
                    if piece.kind != PieceType::Pawn || piece.white == mover.white {
                        return false;
                    }
                },
                None => {
                    return false;
                },
            }
        }
        let mut rook_from: u16 = 0;
        let mut rook_to: u16 = 0;
        if flag == ChessMove::CASTLE_FLAG {
            if mover.kind != PieceType::King || target.is_some() {
                return false;
            }
            let home: u16 = if mover.white {
                4
            } else {
                60
            };
            if from != home {
                return false;
            }
            let base: u16 = (from / 8) * 8;
            if to == from + 2 {
                rook_from = base + 7;
                rook_to = base + 5;
            } else if from >= 2 && to == from - 2 {
                rook_from = base;
                rook_to = base + 3;
            } else {
                return false;
            }
            match self.get_piece_at_square(rook_from) {
                Some(piece) => {
                    if piece.kind != PieceType::Rook || piece.white != mover.white {
                        return false;
                    }
                },
                None => {
                    return false;
                },
            }
            if self.get_piece_at_square(rook_to).is_some() {
                return false;
            }
        }
        if flag == ChessMove::PAWN_TWO_UP_FLAG {
            if mover.kind != PieceType::Pawn || target.is_some() {
                return false;
            }
            let start_rank: u16 = if mover.white {
                1
            } else {
                6
            };
            if from / 8 != start_rank {
                return false;
            }
            let passed: u16 = if mover.white {
                from + 8
            } else {
                from - 8
            };
            let landing: u16 = if mover.white {
                from + 16
            } else {
                from - 16
            };
            if to != landing || self.get_piece_at_square(passed).is_some() {
                return false;
            }
        }
        let promotion: Option<PieceType> = chess_move.promotion_piece_type();
        if promotion.is_some() {
            let last_rank: u16 = if mover.white {
                7
            } else {
                0
            };
            if mover.kind != PieceType::Pawn || to / 8 != last_rank {
                return false;
            }
        }
        let captured: Option<ChessPiece> = self.get_piece_at_square(victim_square);
        let king_part: u8 = if mover.kind == PieceType::King {
            rights_of_color(mover.white)
        } else {
            0
        };
        let rook_part: u8 = if mover.kind == PieceType::Rook {
            right_of_corner(from)
        } else {
            0
        };
        let rook_taken: bool = match captured {
            Some(piece) => piece.kind == PieceType::Rook,
            None => false,
        };
        let capture_part: u8 = if rook_taken {
            right_of_corner(victim_square)
        } else {
            0
        };
        let lost: u8 = king_part | rook_part | capture_part;
        let placed: ChessPiece = match promotion {
            Some(kind) => ChessPiece::new(kind, mover.white),
            None => mover,
        };
        chess_move.chess_piece = Some(mover);
        chess_move.capture = captured;
        let ghost before = old(self)@;
        let ghost m = *old(chess_move);
        proof {
            assert(before.accepts(m));
            assert(*chess_move == before.annotate(m));
            assert(victim_square == before.capture_square(m));
            assert(lost == before.rights_lost(m));
            assert(placed == before.placed_piece(m));
        }
        self.move_history.push((*chess_move, self.castling_rights));
        proof {
            lemma_same_bitboards(*old(self), *self);
            assert forall|i: int| 0 <= i < self.move_history@.len() implies (
            #[trigger] self.move_history@[i]).1 <= ALL_CASTLING_RIGHTS by {
                if i < old(self).move_history@.len() {
                    assert(self.move_history@[i] == old(self).move_history@[i]);
                }
            }
        }
        self.clear_square(victim_square);
        self.clear_square(from);
        self.place_piece(to, placed);
        if flag == ChessMove::CASTLE_FLAG {
            self.clear_square(rook_from);
            self.place_piece(rook_to, ChessPiece::new(PieceType::Rook, mover.white));
        }
        let ghost moved = *self;
        self.castling_rights = self.castling_rights & !lost;
        self.white_to_move = !self.white_to_move;
        proof {
            lemma_same_bitboards(moved, *self);
            crate::position::lemma_rights_kept(moved.castling_rights, lost);
            assert(self@.squares =~= before.squares_after(m));
            assert(self@.history =~= before.after_move(m).history);
        }
        true
    }

    /// Takes back the last move, and says whether there was one. With an
    /// empty history nothing changes.
    pub fn undo_move(&mut self) -> (undone: bool)
        requires
            old(self).wf(),
        ensures
            final(self).wf(),
            undone == (old(self)@.history.len() > 0),
            undone ==> final(self)@ == old(self)@.after_undo(),
            !undone ==> *final(self) == *old(self),
    {
        let n: usize = self.move_history.len();
        if n == 0 {
            return false;
        }
        let ghost before = self@;
        let entry: (ChessMove, u8) = self.move_history[n - 1];
        self.move_history.pop();
        proof {
            lemma_same_bitboards(*old(self), *self);
            assert(entry == old(self).move_history@[n - 1]);
            assert forall|i: int| 0 <= i < self.move_history@.len() implies (
            #[trigger] self.move_history@[i]).1 <= ALL_CASTLING_RIGHTS by {
                assert(self.move_history@[i] == old(self).move_history@[i]);
            }
        }
        let chess_move: ChessMove = entry.0;
        let from: u16 = chess_move.start_square();
        let to: u16 = chess_move.target_square();
        let flag: u16 = chess_move.flag();
        let white: bool = match chess_move.chess_piece {
            Some(piece) => piece.white,
            None => false,
        };
        if flag == ChessMove::CASTLE_FLAG {
            let base: u16 = (from / 8) * 8;
            let rook_from: u16 = if to > from {
                base + 7
            } else {
                base
            };
            let rook_to: u16 = if to > from {
                base + 5
            } else {
                base + 3
            };
            self.clear_square(rook_to);
            self.place_piece(rook_from, ChessPiece::new(PieceType::Rook, white));
        }
        self.clear_square(to);
        match chess_move.chess_piece {
            Some(piece) => {
                self.place_piece(from, piece);
            },
            None => {
                self.clear_square(from);
            },
        }
        if let Some(piece) = chess_move.capture {
            if flag == ChessMove::EN_PASSANT_CAPTURE_FLAG {
                if white {
                    if to >= 8 {
                        self.place_piece(to - 8, piece);
                    }
                } else {
                    if to < 56 {
                        self.place_piece(to + 8, piece);
                    }
                }
            } else {
                self.place_piece(to, piece);
            }
        }
        let ghost moved = *self;
        self.castling_rights = entry.1;
        self.white_to_move = !self.white_to_move;
        proof {
            lemma_same_bitboards(moved, *self);
            assert(self@.squares =~= before.squares_before(chess_move));
            assert(self@.history =~= before.history.drop_last());
        }
        true
    }
}

/// Both castling rights of one colour.
pub fn rights_of_color(white: bool) -> (r: u8)
    ensures
        r == color_rights(white),
{
    if white {
        0b1100
    } else {
        0b0011
    }
}

/// The castling right tied to a corner square, or zero elsewhere.
pub fn right_of_corner(square: u16) -> (r: u8)
    ensures
        r == corner_right(square as int),
{
    if square == 0 {
        WHITE_QUEEN_SIDE
    } else if square == 7 {
        WHITE_KING_SIDE
    } else if square == 56 {
        BLACK_QUEEN_SIDE
    } else if square == 63 {
        BLACK_KING_SIDE
    } else {
        0
    }
}

/// The FEN letters of the rights in a castling mask, in the order `KQkq`.
pub open spec fn rights_letters(rights: u8) -> Seq<char> {
    (if rights & WHITE_KING_SIDE != 0 {
        seq!['K']
    } else {
        Seq::<char>::empty()
    }) + (if rights & WHITE_QUEEN_SIDE != 0 {
        seq!['Q']
    } else {
        Seq::<char>::empty()
    }) + (if rights & BLACK_KING_SIDE != 0 {
        seq!['k']
    } else {
        Seq::<char>::empty()
    }) + (if rights & BLACK_QUEEN_SIDE != 0 {
        seq!['q']
    } else {
        Seq::<char>::empty()
    })
}

/// The castling mask of the rights whose FEN letter occurs in the text.
pub open spec fn rights_of_letters(text: Seq<char>) -> u8 {
    (if text.contains('K') {
        WHITE_KING_SIDE
    } else {
        0u8
    }) | (if text.contains('Q') {
        WHITE_QUEEN_SIDE
    } else {
        0u8
    }) | (if text.contains('k') {
        BLACK_KING_SIDE
    } else {
        0u8
    }) | (if text.contains('q') {
        BLACK_QUEEN_SIDE
    } else {
        0u8
    })
}

/// Whether a character occurs in a sequence of characters.
pub fn chars_contain(chars: &Vec<char>, c: char) -> (r: bool)
    ensures
        r == chars@.contains(c),
{
    let mut i: usize = 0;
    while i < chars.len()
        invariant
            i <= chars.len(),
            forall|j: int| 0 <= j < i ==> chars@[j] != c,
        decreases chars.len() - i,
    {
        if chars[i] == c {
            return true;
        }
        i = i + 1;
    }
    false
}

/// The castling mask of the rights whose FEN letter occurs in the text.
pub fn rights_from_chars(chars: &Vec<char>) -> (r: u8)
    ensures
        r == rights_of_letters(chars@),
{
    let k: u8 = if chars_contain(chars, 'K') {
        WHITE_KING_SIDE
    } else {
        0
    };
    let q: u8 = if chars_contain(chars, 'Q') {
        WHITE_QUEEN_SIDE
    } else {
        0
    };
    let bk: u8 = if chars_contain(chars, 'k') {
        BLACK_KING_SIDE
    } else {
        0
    };
    let bq: u8 = if chars_contain(chars, 'q') {
        BLACK_QUEEN_SIDE
    } else {
        0
    };
    k | q | bk | bq
}

/// The FEN letter of what stands on a square, or a dot for nothing.
pub open spec fn piece_character(piece: Option<ChessPiece>) -> char {
    match piece {
        Some(p) => if p.white {
            crate::piece::piece_letter(p.kind)
        } else {
            crate::piece::piece_letter_lower(p.kind)
        },
        None => '.',
    }
}

/// The bits of the eight words of the start position.
proof fn lemma_start_words(i: u64)
    by (bit_vector)
    requires
        i < 64,
    ensures
        ((0xFFFFu64 >> i) & 1 == 1) == (i < 16),
        ((0xFFFF_0000_0000_0000u64 >> i) & 1 == 1) == (i >= 48),
        ((0x00FF_0000_0000_FF00u64 >> i) & 1 == 1) == (8 <= i < 16 || 48 <= i < 56),
        ((0x4200_0000_0000_0042u64 >> i) & 1 == 1) == (i == 1 || i == 6 || i == 57 || i == 62),
        ((0x2400_0000_0000_0024u64 >> i) & 1 == 1) == (i == 2 || i == 5 || i == 58 || i == 61),
        ((0x8100_0000_0000_0081u64 >> i) & 1 == 1) == (i == 0 || i == 7 || i == 56 || i == 63),
        ((0x0800_0000_0000_0008u64 >> i) & 1 == 1) == (i == 3 || i == 59),
        ((0x1000_0000_0000_0010u64 >> i) & 1 == 1) == (i == 4 || i == 60),
{
}

/// Making an accepted move and taking it back leaves a board as it was.
/// Here `a` is the well-formed board before the move, and `b` the board
/// after the move was made and taken back: it holds the eight bitboards, the
/// side to move, the castling rights and the history of `a`.
pub proof fn lemma_board_make_undo(a: ChessBoard, m: ChessMove, b: ChessBoard)
    requires
        a.wf(),
        a@.accepts(m),
        b.wf(),
        b@ == a@.after_move(m).after_undo(),
    ensures
        b.white == a.white,
        b.black == a.black,
        b.pawns == a.pawns,
        b.knights == a.knights,
        b.bishops == a.bishops,
        b.rooks == a.rooks,
        b.queens == a.queens,
        b.kings == a.kings,
        b.white_to_move == a.white_to_move,
        b.castling_rights == a.castling_rights,
        b.move_history@ == a.move_history@,
{
    lemma_board_sets(a);
    crate::position::lemma_make_undo_roundtrip(a@, m);
    lemma_squares_determine_bitboards(a, b);
}

/// A castling mask read from FEN letters is a set of the four rights.
pub proof fn lemma_rights_of_letters(text: Seq<char>)
    ensures
        rights_of_letters(text) <= ALL_CASTLING_RIGHTS,
{
    let k = if text.contains('K') {
        WHITE_KING_SIDE
    } else {
        0u8
    };
    let q = if text.contains('Q') {
        WHITE_QUEEN_SIDE
    } else {
        0u8
    };
    let bk = if text.contains('k') {
        BLACK_KING_SIDE
    } else {
        0u8
    };
    let bq = if text.contains('q') {
        BLACK_QUEEN_SIDE
    } else {
        0u8
    };
    assert((k == 0 || k == 8) && (q == 0 || q == 4) && (bk == 0 || bk == 2) && (bq == 0 || bq == 1)
        ==> k | q | bk | bq <= 0b1111u8) by (bit_vector);
}

/// A board with the bitboards of a board whose bitboards agree has
/// bitboards that agree, and shows the same squares.
pub proof fn lemma_same_bitboards(a: ChessBoard, b: ChessBoard)
    requires
        a.boards_agree(),
        a.white == b.white,
        a.black == b.black,
        a.pawns == b.pawns,
        a.knights == b.knights,
        a.bishops == b.bishops,
        a.rooks == b.rooks,
        a.queens == b.queens,
        a.kings == b.kings,
    ensures
        b.boards_agree(),
        b@.squares == a@.squares,
{
    assert forall|sq: int| 0 <= sq < 64 implies #[trigger] b.square_ok(sq) by {
        assert(a.square_ok(sq));
    }
    assert(b@.squares =~= a@.squares);
}

/// On a well-formed board each bitboard holds exactly the squares that the
/// position shows for it.
pub proof fn lemma_board_sets(board: ChessBoard)
    requires
        board.wf(),
    ensures
        board.white@ == board@.color_squares(true),
        board.black@ == board@.color_squares(false),
        board.pawns@ == board@.kind_squares(PieceType::Pawn),
        board.knights@ == board@.kind_squares(PieceType::Knight),
        board.bishops@ == board@.kind_squares(PieceType::Bishop),
        board.rooks@ == board@.kind_squares(PieceType::Rook),
        board.queens@ == board@.kind_squares(PieceType::Queen),
        board.kings@ == board@.kind_squares(PieceType::King),
        board.white@.union(board.black@) == board@.occupied(),
        board@.wf(),
{
    lemma_bits_finite(board.white.0);
    lemma_bits_finite(board.black.0);
    lemma_bits_finite(board.pawns.0);
    lemma_bits_finite(board.knights.0);
    lemma_bits_finite(board.bishops.0);
    lemma_bits_finite(board.rooks.0);
    lemma_bits_finite(board.queens.0);
    lemma_bits_finite(board.kings.0);
    assert forall|sq: int| 0 <= sq < 64 implies #[trigger] board.square_ok(sq) by {}
    assert forall|sq: int| board.white@.contains(sq) == board@.color_squares(true).contains(sq) by {
        if 0 <= sq < 64 {
            assert(board.square_ok(sq));
        }
    }
    assert forall|sq: int| board.black@.contains(sq) == board@.color_squares(false).contains(sq) by {
        if 0 <= sq < 64 {
            assert(board.square_ok(sq));
        }
    }
    assert forall|sq: int|
        (board.white@.contains(sq) || board.black@.contains(sq)) == board@.occupied().contains(
            sq,
        ) by {
        if 0 <= sq < 64 {
            assert(board.square_ok(sq));
        }
    }
    assert forall|sq: int|
        board.pawns@.contains(sq) == board@.kind_squares(PieceType::Pawn).contains(sq) by {
        if 0 <= sq < 64 {
            assert(board.square_ok(sq));
        }
    }
    assert forall|sq: int|
        board.knights@.contains(sq) == board@.kind_squares(PieceType::Knight).contains(sq) by {
        if 0 <= sq < 64 {
            assert(board.square_ok(sq));
        }
    }
    assert forall|sq: int|
        board.bishops@.contains(sq) == board@.kind_squares(PieceType::Bishop).contains(sq) by {
        if 0 <= sq < 64 {
            assert(board.square_ok(sq));
        }
    }
    assert forall|sq: int|
        board.rooks@.contains(sq) == board@.kind_squares(PieceType::Rook).contains(sq) by {
        if 0 <= sq < 64 {
            assert(board.square_ok(sq));
        }
    }
    assert forall|sq: int|
        board.queens@.contains(sq) == board@.kind_squares(PieceType::Queen).contains(sq) by {
        if 0 <= sq < 64 {
            assert(board.square_ok(sq));
        }
    }
    assert forall|sq: int|
        board.kings@.contains(sq) == board@.kind_squares(PieceType::King).contains(sq) by {
        if 0 <= sq < 64 {
            assert(board.square_ok(sq));
        }
    }
    assert(board.white@ =~= board@.color_squares(true));
    assert(board.black@ =~= board@.color_squares(false));
    assert(board.pawns@ =~= board@.kind_squares(PieceType::Pawn));
    assert(board.knights@ =~= board@.kind_squares(PieceType::Knight));
    assert(board.bishops@ =~= board@.kind_squares(PieceType::Bishop));
    assert(board.rooks@ =~= board@.kind_squares(PieceType::Rook));
    assert(board.queens@ =~= board@.kind_squares(PieceType::Queen));
    assert(board.kings@ =~= board@.kind_squares(PieceType::King));
    assert(board.white@.union(board.black@) =~= board@.occupied());
}

/// On a well-formed board no square is both white and black, and the two
/// colours together hold exactly the squares that the six kinds hold.
pub proof fn lemma_occupancy_invariants(board: ChessBoard)
    requires
        board.wf(),
    ensures
        board.white@.intersect(board.black@) == Set::<int>::empty(),
        board.white.0 & board.black.0 == 0,
        board.white@.union(board.black@) == board.pawns@.union(board.knights@).union(
            board.bishops@,
        ).union(board.rooks@).union(board.queens@).union(board.kings@),
        board.white.0 | board.black.0 == board.pawns.0 | board.knights.0 | board.bishops.0
            | board.rooks.0 | board.queens.0 | board.kings.0,
{
    lemma_bits_finite(board.white.0);
    lemma_bits_finite(board.black.0);
    lemma_bits_finite(board.pawns.0);
    lemma_bits_finite(board.knights.0);
    lemma_bits_finite(board.bishops.0);
    lemma_bits_finite(board.rooks.0);
    lemma_bits_finite(board.queens.0);
    lemma_bits_finite(board.kings.0);
    let kinds = board.pawns@.union(board.knights@).union(board.bishops@).union(board.rooks@).union(
        board.queens@,
    ).union(board.kings@);
    assert forall|sq: int| !board.white@.intersect(board.black@).contains(sq) by {
        if 0 <= sq < 64 {
            assert(board.square_ok(sq));
        }
    }
    assert(board.white@.intersect(board.black@) =~= Set::<int>::empty());
    assert forall|sq: int| board.white@.union(board.black@).contains(sq) == kinds.contains(sq) by {
        if 0 <= sq < 64 {
            assert(board.square_ok(sq));
        }
    }
    assert(board.white@.union(board.black@) =~= kinds);
    lemma_bits_bitwise(board.white.0, board.black.0);
    crate::bits::lemma_bits_constants();
    lemma_bits_of_injective(board.white.0 & board.black.0, 0);
    let upto1 = board.pawns.0 | board.knights.0;
    let upto2 = upto1 | board.bishops.0;
    let upto3 = upto2 | board.rooks.0;
    let upto4 = upto3 | board.queens.0;
    let upto5 = upto4 | board.kings.0;
    lemma_bits_bitwise(board.pawns.0, board.knights.0);
    lemma_bits_bitwise(upto1, board.bishops.0);
    lemma_bits_bitwise(upto2, board.rooks.0);
    lemma_bits_bitwise(upto3, board.queens.0);
    lemma_bits_bitwise(upto4, board.kings.0);
    lemma_bits_of_injective(board.white.0 | board.black.0, upto5);
}

/// Two well-formed boards that show the same piece on every square hold the
/// same eight bitboards.
pub proof fn lemma_squares_determine_bitboards(a: ChessBoard, b: ChessBoard)
    requires
        a.wf(),
        b.wf(),
        a@.squares == b@.squares,
    ensures
        a.white == b.white,
        a.black == b.black,
        a.pawns == b.pawns,
        a.knights == b.knights,
        a.bishops == b.bishops,
        a.rooks == b.rooks,
        a.queens == b.queens,
        a.kings == b.kings,
{
    lemma_board_sets(a);
    lemma_board_sets(b);
    assert forall|sq: int| a@.at(sq) == b@.at(sq) by {}
    assert(a@.color_squares(true) =~= b@.color_squares(true));
    assert(a@.color_squares(false) =~= b@.color_squares(false));
    assert(a@.kind_squares(PieceType::Pawn) =~= b@.kind_squares(PieceType::Pawn));
    assert(a@.kind_squares(PieceType::Knight) =~= b@.kind_squares(PieceType::Knight));
    assert(a@.kind_squares(PieceType::Bishop) =~= b@.kind_squares(PieceType::Bishop));
    assert(a@.kind_squares(PieceType::Rook) =~= b@.kind_squares(PieceType::Rook));
    assert(a@.kind_squares(PieceType::Queen) =~= b@.kind_squares(PieceType::Queen));
    assert(a@.kind_squares(PieceType::King) =~= b@.kind_squares(PieceType::King));
    crate::bitboard::lemma_bitboard_view_injective(a.white, b.white);
    crate::bitboard::lemma_bitboard_view_injective(a.black, b.black);
    crate::bitboard::lemma_bitboard_view_injective(a.pawns, b.pawns);
    crate::bitboard::lemma_bitboard_view_injective(a.knights, b.knights);
    crate::bitboard::lemma_bitboard_view_injective(a.bishops, b.bishops);
    crate::bitboard::lemma_bitboard_view_injective(a.rooks, b.rooks);
    crate::bitboard::lemma_bitboard_view_injective(a.queens, b.queens);
    crate::bitboard::lemma_bitboard_view_injective(a.kings, b.kings);
}

} // verus!
