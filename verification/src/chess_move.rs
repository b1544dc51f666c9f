use crate::piece::{piece_letter, piece_letter_lower, piece_value, ChessPiece, PieceType};
use crate::text::{file_char, file_to_char, rank_char, rank_to_char};
use vstd::prelude::*;

verus! {

/// A move: start square, target square and flag packed into 16 bits, with
/// the moving piece and the captured piece beside them once they are known.
#[derive(Debug, Clone, Copy, PartialEq, Eq, Structural)]
pub struct ChessMove {
    pub move_value: u16,
    pub chess_piece: Option<ChessPiece>,
    pub capture: Option<ChessPiece>,
}

/// The 16-bit word that holds a start square, a target square and a flag.
pub open spec fn pack_move(start: u16, target: u16, flag: u16) -> u16 {
    start | (target << 6) | (flag << 12)
}

/// Material value of an optional piece: zero when there is none.
pub open spec fn optional_value(piece: Option<ChessPiece>) -> int {
    match piece {
        Some(p) => piece_value(p.kind),
        None => 0,
    }
}

/// Piece kind that a flag promotes to, if it is a promotion flag.
pub open spec fn promotion_of_flag(flag: int) -> Option<PieceType> {
    if flag == 4 {
        Some(PieceType::Queen)
    } else if flag == 5 {
        Some(PieceType::Knight)
    } else if flag == 6 {
        Some(PieceType::Rook)
    } else if flag == 7 {
        Some(PieceType::Bishop)
    } else {
        None
    }
}

/// The three fields of a packed move are read back as they were written.
pub proof fn lemma_pack_fields(start: u16, target: u16, flag: u16)
    by (bit_vector)
    requires
        start < 64,
        target < 64,
        flag < 16,
    ensures
        ({
            let v = start | (target << 6) | (flag << 12);
            v & 0x3f == start && (v & 0xfc0) >> 6 == target && (v & 0xf000) >> 12 == flag
        }),
{
}

/// Each field of a 16-bit move word lies in its range, and the fields
/// determine the word.
pub proof fn lemma_move_word(v: u16)
    by (bit_vector)
    ensures
        v & 0x3f < 64,
        (v & 0xfc0) >> 6 < 64,
        (v & 0xf000) >> 12 < 16,
        v == (v & 0x3f) | (((v & 0xfc0) >> 6) << 6) | (((v & 0xf000) >> 12) << 12),
{
}

/// Setting and clearing flag bits leaves the two squares of a move word as
/// they are.
proof fn lemma_flag_update(v: u16, flag: u16)
    by (bit_vector)
    requires
        flag < 16,
    ensures
        (v | (flag << 12)) & 0x3f == v & 0x3f,
        ((v | (flag << 12)) & 0xfc0) >> 6 == (v & 0xfc0) >> 6,
        ((v | (flag << 12)) & 0xf000) >> 12 == ((v & 0xf000) >> 12) | flag,
        (v & !(flag << 12)) & 0x3f == v & 0x3f,
        ((v & !(flag << 12)) & 0xfc0) >> 6 == (v & 0xfc0) >> 6,
        ((v & !(flag << 12)) & 0xf000) >> 12 == ((v & 0xf000) >> 12) & !flag,
{
}

impl ChessMove {
    /// The flag of a move that is none of the special moves.
    pub const NO_FLAG: u16 = 0b0000;

    /// The flag of a pawn's capture in passing.
    pub const EN_PASSANT_CAPTURE_FLAG: u16 = 0b0001;

    /// The flag of a king's castling move.
    pub const CASTLE_FLAG: u16 = 0b0010;

    /// The flag of a pawn's push over two ranks.
    pub const PAWN_TWO_UP_FLAG: u16 = 0b0011;

    /// The flag of a promotion to a queen.
    pub const PROMOTE_TO_QUEEN_FLAG: u16 = 0b0100;

    /// The flag of a promotion to a knight.
    pub const PROMOTE_TO_KNIGHT_FLAG: u16 = 0b0101;

    /// The flag of a promotion to a rook.
    pub const PROMOTE_TO_ROOK_FLAG: u16 = 0b0110;

    /// The flag of a promotion to a bishop.
    pub const PROMOTE_TO_BISHOP_FLAG: u16 = 0b0111;

    /// The bits of the start square in the packed word.
    pub const START_SQUARE_MASK: u16 = 0b0000000000111111;

    /// The bits of the target square in the packed word.
    pub const TARGET_SQUARE_MASK: u16 = 0b0000111111000000;

    /// The bits of the flag in the packed word.
    pub const FLAG_MASK: u16 = 0b1111000000000000;

    /// Start square of the move.
    pub open spec fn from_sq(&self) -> int {
        (self.move_value & 0x3f) as int
    }

    /// Target square of the move.
    pub open spec fn to_sq(&self) -> int {
        ((self.move_value & 0xfc0) >> 6) as int
    }

    /// Flag of the move.
    pub open spec fn flag_of(&self) -> int {
        ((self.move_value & 0xf000) >> 12) as int
    }

    /// Whether the flag is one of the four promotion flags.
    pub open spec fn promotes(&self) -> bool {
        4 <= self.flag_of() <= 7
    }

    /// Place of the move in the search order: a move with a smaller key is
    /// tried first. The key orders by, in turn: the captured piece's value,
    /// higher first; promotions before other moves; captures before other
    /// moves; the moving piece's value, lower first.
    pub open spec fn order_key(&self) -> int {
        (((20000 - optional_value(self.capture)) * 2 + if self.promotes() {
            0int
        } else {
            1int
        }) * 2 + if self.capture is Some {
            0int
        } else {
            1int
        }) * 20001 + optional_value(self.chess_piece)
    }

    /// The move from `start_square` to `target_square` without a flag.
    pub fn new(start_square: u16, target_square: u16) -> (r: ChessMove)
        requires
            start_square < 64,
            target_square < 64,
        ensures
            r.move_value == pack_move(start_square, target_square, 0),
            r.from_sq() == start_square,
            r.to_sq() == target_square,
            r.flag_of() == 0,
            r.chess_piece is None,
            r.capture is None,
    {
        proof {
            lemma_pack_fields(start_square, target_square, 0);
            assert(start_square | (target_square << 6) == start_square | (target_square << 6) | (0u16
                << 12)) by (bit_vector);
        }
        ChessMove {
            move_value: start_square | (target_square << 6),
            capture: None,
            chess_piece: None,
        }
    }

    /// The move from `start_square` to `target_square` with the given flag.
    pub fn new_with_flag(start_square: u16, target_square: u16, flag: u16) -> (r: ChessMove)
        requires
            start_square < 64,
            target_square < 64,
            flag < 16,
        ensures
            r.move_value == pack_move(start_square, target_square, flag),
            r.from_sq() == start_square,
            r.to_sq() == target_square,
            r.flag_of() == flag,
            r.chess_piece is None,
            r.capture is None,
    {
        proof {
            lemma_pack_fields(start_square, target_square, flag);
        }
        ChessMove {
            move_value: start_square | (target_square << 6) | (flag << 12),
            capture: None,
            chess_piece: None,
        }
    }

    /// The move from `start_square` to `target_square` with the given flag
    /// and captured piece.
    pub fn new_capture_with_flag(
        start_square: u16,
        capture: Option<ChessPiece>,
        target_square: u16,
        flag: u16,
    ) -> (r: ChessMove)
        requires
            start_square < 64,
            target_square < 64,
            flag < 16,
        ensures
            r.move_value == pack_move(start_square, target_square, flag),
            r.from_sq() == start_square,
            r.to_sq() == target_square,
            r.flag_of() == flag,
            r.chess_piece is None,
            r.capture == capture,
    {
        proof {
            lemma_pack_fields(start_square, target_square, flag);
        }
        ChessMove {
            move_value: start_square | (target_square << 6) | (flag << 12),
            capture: capture,
            chess_piece: None,
        }
    }

    /// Records the moving piece.
    pub fn set_piece(&mut self, piece: ChessPiece)
        ensures
            *final(self) == (ChessMove { chess_piece: Some(piece), ..*old(self) }),
    {
        self.chess_piece = Some(piece);
    }

    /// Records the captured piece.
    pub fn set_capture(&mut self, piece: ChessPiece)
        ensures
            *final(self) == (ChessMove { capture: Some(piece), ..*old(self) }),
    {
        self.capture = Some(piece);
    }

    /// The packed 16-bit word.
    pub fn value(&self) -> (r: u16)
        ensures
            r == self.move_value,
    {
        self.move_value
    }

    /// Start square of the move.
    pub fn start_square(&self) -> (r: u16)
        ensures
            r == self.from_sq(),
            r < 64,
    {
        proof {
            lemma_move_word(self.move_value);
        }
        self.move_value & Self::START_SQUARE_MASK
    }

    /// Target square of the move.
    pub fn target_square(&self) -> (r: u16)
        ensures
            r == self.to_sq(),
            r < 64,
    {
        proof {
            lemma_move_word(self.move_value);
        }
        (self.move_value & Self::TARGET_SQUARE_MASK) >> 6
    }

    /// Flag of the move.
    pub fn flag(&self) -> (r: u16)
        ensures
            r == self.flag_of(),
            r < 16,
    {
        proof {
            lemma_move_word(self.move_value);
        }
        (self.move_value & Self::FLAG_MASK) >> 12
    }

    /// Whether the move's flag equals `flag`.
    pub fn has_flag(&self, flag: u16) -> (r: bool)
        ensures
            r == (self.flag_of() == flag),
    {
        self.flag() == flag
    }

    /// Sets in the move's flag the bits that are set in `flag`.
    pub fn set_flag(&mut self, flag: u16)
        requires
            flag < 16,
        ensures
            final(self).move_value == old(self).move_value | (flag << 12),
            final(self).flag_of() == (((old(self).move_value & 0xf000) >> 12) | flag),
            final(self).from_sq() == old(self).from_sq(),
            final(self).to_sq() == old(self).to_sq(),
            final(self).chess_piece == old(self).chess_piece,
            final(self).capture == old(self).capture,
    {
        proof {
            lemma_flag_update(self.move_value, flag);
        }
        self.move_value = self.move_value | (flag << 12);
    }

    /// Clears in the move's flag the bits that are set in `flag`.
    pub fn clear_flag(&mut self, flag: u16)
        requires
            flag < 16,
        ensures
            final(self).move_value == old(self).move_value & !(flag << 12),
            final(self).flag_of() == (((old(self).move_value & 0xf000) >> 12) & !flag),
            final(self).from_sq() == old(self).from_sq(),
            final(self).to_sq() == old(self).to_sq(),
            final(self).chess_piece == old(self).chess_piece,
            final(self).capture == old(self).capture,
    {
        proof {
            lemma_flag_update(self.move_value, flag);
        }
        self.move_value = self.move_value & !(flag << 12);
    }

    /// Whether the flag is one of the four promotion flags.
    pub fn is_promotion(&self) -> (r: bool)
        ensures
            r == self.promotes(),
    {
        let flag: u16 = self.flag();
        flag >= Self::PROMOTE_TO_QUEEN_FLAG && flag <= Self::PROMOTE_TO_BISHOP_FLAG
    }

    /// The piece kind that the move promotes to, if it is a promotion.
    pub fn promotion_piece_type(&self) -> (r: Option<PieceType>)
        ensures
            r == promotion_of_flag(self.flag_of()),
            r is Some <==> self.promotes(),
    {
        let flag: u16 = self.flag();
        if flag == Self::PROMOTE_TO_ROOK_FLAG {
            Some(PieceType::Rook)
        } else if flag == Self::PROMOTE_TO_KNIGHT_FLAG {
            Some(PieceType::Knight)
        } else if flag == Self::PROMOTE_TO_BISHOP_FLAG {
            Some(PieceType::Bishop)
        } else if flag == Self::PROMOTE_TO_QUEEN_FLAG {
            Some(PieceType::Queen)
        } else {
            None
        }
    }

    /// Place of the move in the search order; see `order_key`.
    pub fn sort_key(&self) -> (r: i64)
        ensures
            r == self.order_key(),
            0 <= r <= 1_700_000_000,
    {
        let cap: i64 = match self.capture {
            Some(p) => p.value() as i64,
            None => 0,
        };
        let own: i64 = match self.chess_piece {
            Some(p) => p.value() as i64,
            None => 0,
        };
        let promo: i64 = if self.is_promotion() {
            0
        } else {
            1
        };
        let quiet: i64 = if self.capture.is_some() {
            0
        } else {
            1
        };
        (((20000 - cap) * 2 + promo) * 2 + quiet) * 20001 + own
    }

    /// Whether the move comes no later than `other` in the search order.
    pub fn ordered_before(&self, other: &ChessMove) -> (r: bool)
        ensures
            r == (self.order_key() <= other.order_key()),
    {
        self.sort_key() <= other.sort_key()
    }

    /// The move as start square, target square and, for a promotion, the
    /// lower-case letter of the new piece: `e2e4`, `e7e8q`.
    pub fn to_san_simple(&self) -> (r: String)
        ensures
            r@ == san_simple(*self),
    {
        let mut san: String = String::new();
        let start: u16 = self.start_square();
        let target: u16 = self.target_square();
        san.push(file_to_char((start % 8) as u8));
        san.push(rank_to_char((start / 8) as u8));
        san.push(file_to_char((target % 8) as u8));
        san.push(rank_to_char((target / 8) as u8));
        if let Some(kind) = self.promotion_piece_type() {
            san.push(ChessPiece::piecetype_to_lower_char(kind));
        }
        proof {
            assert(san@ =~= san_simple(*self));
        }
        san
    }

    /// The move as a piece letter (none for a pawn, the start file for a pawn
    /// that captures), `x` for a capture, the target square and, for a
    /// promotion, `=` and the letter of the new piece.
    pub fn to_san(&self) -> (r: String)
        ensures
            r@ == san_text(*self),
    {
        let mut san: String = String::new();
        let start: u16 = self.start_square();
        let target: u16 = self.target_square();
        if let Some(piece) = self.chess_piece {
            match piece.piece_type() {
                PieceType::Pawn => {
                    if self.capture.is_some() {
                        san.push(file_to_char((start % 8) as u8));
                    }
                },
                _ => {
                    san.push(piece.to_char());
                },
            }
        }
        if self.capture.is_some() {
            san.push('x');
        }
        san.push(file_to_char((target % 8) as u8));
        san.push(rank_to_char((target / 8) as u8));
        if let Some(kind) = self.promotion_piece_type() {
            san.push('=');
            san.push(ChessPiece::piecetype_to_char(kind));
        }
        proof {
            assert(san@ =~= san_text(*self));
        }
        san
    }
}

impl Default for ChessMove {
    fn default() -> (r: ChessMove)
        ensures
            r == (ChessMove { move_value: 0, chess_piece: None, capture: None }),
    {
        ChessMove { move_value: 0, chess_piece: None, capture: None }
    }
}

/// The text of a move in the short form: the two squares and, for a
/// promotion, the lower-case letter of the new piece.
pub open spec fn san_simple(m: ChessMove) -> Seq<char> {
    seq![
        file_char(m.from_sq() % 8),
        rank_char(m.from_sq() / 8),
        file_char(m.to_sq() % 8),
        rank_char(m.to_sq() / 8),
    ] + match promotion_of_flag(m.flag_of()) {
        Some(kind) => seq![piece_letter_lower(kind)],
        None => Seq::<char>::empty(),
    }
}

/// The text of a move in the long form.
pub open spec fn san_text(m: ChessMove) -> Seq<char> {
    (match m.chess_piece {
        Some(piece) => if piece.kind == PieceType::Pawn {
            if m.capture is Some {
                seq![file_char(m.from_sq() % 8)]
            } else {
                Seq::<char>::empty()
            }
        } else {
            seq![piece_letter(piece.kind)]
        },
        None => Seq::<char>::empty(),
    }) + (if m.capture is Some {
        seq!['x']
    } else {
        Seq::<char>::empty()
    }) + seq![file_char(m.to_sq() % 8), rank_char(m.to_sq() / 8)] + match promotion_of_flag(
        m.flag_of(),
    ) {
        Some(kind) => seq!['=', piece_letter(kind)],
        None => Seq::<char>::empty(),
    }
}

/// The order key compares moves by the captured piece's value, then by
/// promotion, then by capture, then by the moving piece's value.
pub proof fn lemma_order_key_lexicographic(a: ChessMove, b: ChessMove)
    ensures
        optional_value(a.capture) > optional_value(b.capture) ==> a.order_key() < b.order_key(),
        optional_value(a.capture) == optional_value(b.capture) && a.promotes() && !b.promotes()
            ==> a.order_key() < b.order_key(),
        optional_value(a.capture) == optional_value(b.capture) && a.promotes() == b.promotes() && (
        a.capture is Some) && (b.capture is None) ==> a.order_key() < b.order_key(),
        optional_value(a.capture) == optional_value(b.capture) && a.promotes() == b.promotes() && (
        a.capture is Some) == (b.capture is Some) ==> (a.order_key() < b.order_key()
            <==> optional_value(a.chess_piece) < optional_value(b.chess_piece)),
{
}

/// Two moves with the same squares and flag have the same packed word.
pub proof fn lemma_move_fields_determine_word(a: ChessMove, b: ChessMove)
    requires
        a.from_sq() == b.from_sq(),
        a.to_sq() == b.to_sq(),
        a.flag_of() == b.flag_of(),
    ensures
        a.move_value == b.move_value,
{
    lemma_move_word(a.move_value);
    lemma_move_word(b.move_value);
}

} // verus!
