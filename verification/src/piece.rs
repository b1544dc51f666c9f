use vstd::prelude::*;

verus! {

/// The six kinds of chess piece.
#[derive(Debug, Clone, Copy, PartialEq, Eq, Hash, Structural)]
pub enum PieceType {
    Pawn,
    Knight,
    Bishop,
    Rook,
    Queen,
    King,
}

/// Material value of a piece kind, in centipawns.
pub open spec fn piece_value(kind: PieceType) -> int {
    match kind {
        PieceType::Pawn => 100,
        PieceType::Knight => 320,
        PieceType::Bishop => 330,
        PieceType::Rook => 500,
        PieceType::Queen => 900,
        PieceType::King => 20000,
    }
}

/// Upper-case letter that stands for a piece kind.
pub open spec fn piece_letter(kind: PieceType) -> char {
    match kind {
        PieceType::Pawn => 'P',
        PieceType::Knight => 'N',
        PieceType::Bishop => 'B',
        PieceType::Rook => 'R',
        PieceType::Queen => 'Q',
        PieceType::King => 'K',
    }
}

/// Lower-case letter that stands for a piece kind.
pub open spec fn piece_letter_lower(kind: PieceType) -> char {
    match kind {
        PieceType::Pawn => 'p',
        PieceType::Knight => 'n',
        PieceType::Bishop => 'b',
        PieceType::Rook => 'r',
        PieceType::Queen => 'q',
        PieceType::King => 'k',
    }
}

impl PieceType {
    /// The letter of the kind in a move text: none for a pawn, else the
    /// upper-case letter of the kind.
    pub open spec fn label(self) -> Seq<char> {
        if self == PieceType::Pawn {
            Seq::empty()
        } else {
            seq![piece_letter(self)]
        }
    }

    /// The letter of the kind in a move text.
    pub fn to_text(&self) -> (r: String)
        ensures
            r@ == self.label(),
    {
        let mut text: String = String::new();
        match self {
            PieceType::Pawn => {},
            PieceType::Knight => {
                text.push('N');
            },
            PieceType::Bishop => {
                text.push('B');
            },
            PieceType::Rook => {
                text.push('R');
            },
            PieceType::Queen => {
                text.push('Q');
            },
            PieceType::King => {
                text.push('K');
            },
        }
        proof {
            assert(text@ =~= self.label());
        }
        text
    }

    /// Material value of the kind, in centipawns.
    pub fn value(&self) -> (r: i32)
        ensures
            r == piece_value(*self),
    {
        match self {
            PieceType::Pawn => 100,
            PieceType::Knight => 320,
            PieceType::Bishop => 330,
            PieceType::Rook => 500,
            PieceType::Queen => 900,
            PieceType::King => 20000,
        }
    }
}

/// A piece on the board: its kind and its colour.
#[derive(Debug, Clone, Copy, PartialEq, Eq, Hash, Structural)]
pub struct ChessPiece {
    pub kind: PieceType,
    pub white: bool,
}

impl ChessPiece {
    /// The piece of the given kind and colour.
    pub fn new(piece_type: PieceType, is_white: bool) -> (r: ChessPiece)
        ensures
            r == (ChessPiece { kind: piece_type, white: is_white }),
    {
        ChessPiece { kind: piece_type, white: is_white }
    }

    /// Whether the piece is black.
    pub fn is_black(&self) -> (r: bool)
        ensures
            r == !self.white,
    {
        !self.white
    }

    /// Whether the piece is white.
    pub fn is_white(&self) -> (r: bool)
        ensures
            r == self.white,
    {
        self.white
    }

    /// The kind of the piece.
    pub fn piece_type(&self) -> (r: PieceType)
        ensures
            r == self.kind,
    {
        self.kind
    }

    /// Material value of the piece, in centipawns.
    pub fn value(&self) -> (r: i32)
        ensures
            r == piece_value(self.kind),
    {
        self.kind.value()
    }

    /// Upper-case letter of a piece kind.
    pub fn piecetype_to_char(piece_type: PieceType) -> (r: char)
        ensures
            r == piece_letter(piece_type),
    {
        match piece_type {
            PieceType::Pawn => 'P',
            PieceType::Knight => 'N',
            PieceType::Bishop => 'B',
            PieceType::Rook => 'R',
            PieceType::Queen => 'Q',
            PieceType::King => 'K',
        }
    }

    /// Lower-case letter of a piece kind.
    pub fn piecetype_to_lower_char(piece_type: PieceType) -> (r: char)
        ensures
            r == piece_letter_lower(piece_type),
    {
        match piece_type {
            PieceType::Pawn => 'p',
            PieceType::Knight => 'n',
            PieceType::Bishop => 'b',
            PieceType::Rook => 'r',
            PieceType::Queen => 'q',
            PieceType::King => 'k',
        }
    }

    /// Upper-case letter of the piece's kind.
    pub fn to_char(&self) -> (r: char)
        ensures
            r == piece_letter(self.kind),
    {
        Self::piecetype_to_char(self.kind)
    }
}

} // verus!
