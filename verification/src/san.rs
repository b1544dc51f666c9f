use crate::chess_move::{lemma_move_word, pack_move, promotion_of_flag, san_simple, ChessMove};
use crate::piece::piece_letter_lower;
use crate::text::{chars_of, file_char, rank_char};
use vstd::prelude::*;

verus! {

/// The file for which a letter from `a` to `h` stands.
pub open spec fn file_of_char(c: char) -> Option<int> {
    if c == 'a' {
        Some(0)
    } else if c == 'b' {
        Some(1)
    } else if c == 'c' {
        Some(2)
    } else if c == 'd' {
        Some(3)
    } else if c == 'e' {
        Some(4)
    } else if c == 'f' {
        Some(5)
    } else if c == 'g' {
        Some(6)
    } else if c == 'h' {
        Some(7)
    } else {
        None
    }
}

/// The rank for which a digit from `1` to `8` stands.
pub open spec fn rank_of_char(c: char) -> Option<int> {
    if c == '1' {
        Some(0)
    } else if c == '2' {
        Some(1)
    } else if c == '3' {
        Some(2)
    } else if c == '4' {
        Some(3)
    } else if c == '5' {
        Some(4)
    } else if c == '6' {
        Some(5)
    } else if c == '7' {
        Some(6)
    } else if c == '8' {
        Some(7)
    } else {
        None
    }
}

/// The promotion flag for which a lower-case piece letter stands.
pub open spec fn promotion_flag_of_char(c: char) -> Option<u16> {
    if c == 'q' {
        Some(4u16)
    } else if c == 'n' {
        Some(5u16)
    } else if c == 'r' {
        Some(6u16)
    } else if c == 'b' {
        Some(7u16)
    } else {
        None
    }
}

/// The square that a file letter and a rank digit name.
pub open spec fn square_of_chars(file: char, rank: char) -> Option<int> {
    match (file_of_char(file), rank_of_char(rank)) {
        (Some(f), Some(r)) => Some(r * 8 + f),
        _ => None,
    }
}

/// The move that a text in the short form names: two squares and, as a
/// fifth character, the letter of a promotion. Any other text names no move.
pub open spec fn parse_san_simple(text: Seq<char>) -> Option<ChessMove> {
    if text.len() != 4 && text.len() != 5 {
        None
    } else {
        match (square_of_chars(text[0], text[1]), square_of_chars(text[2], text[3])) {
            (Some(from), Some(to)) => if text.len() == 4 {
                Some(
                    ChessMove {
                        move_value: pack_move(from as u16, to as u16, 0),
                        chess_piece: None,
                        capture: None,
                    },
                )
            } else {
                match promotion_flag_of_char(text[4]) {
                    Some(flag) => Some(
                        ChessMove {
                            move_value: pack_move(from as u16, to as u16, flag),
                            chess_piece: None,
                            capture: None,
                        },
                    ),
                    None => None,
                }
            },
            _ => None,
        }
    }
}

/// The file for which a letter from `a` to `h` stands.
pub fn file_from_char(c: char) -> (r: Option<u16>)
    ensures
        match r {
            Some(f) => file_of_char(c) == Some(f as int) && f < 8,
            None => file_of_char(c) is None,
        },
{
    if c == 'a' {
        Some(0)
    } else if c == 'b' {
        Some(1)
    } else if c == 'c' {
        Some(2)
    } else if c == 'd' {
        Some(3)
    } else if c == 'e' {
        Some(4)
    } else if c == 'f' {
        Some(5)
    } else if c == 'g' {
        Some(6)
    } else if c == 'h' {
        Some(7)
    } else {
        None
    }
}

/// The rank for which a digit from `1` to `8` stands.
pub fn rank_from_char(c: char) -> (r: Option<u16>)
    ensures
        match r {
            Some(k) => rank_of_char(c) == Some(k as int) && k < 8,
            None => rank_of_char(c) is None,
        },
{
    if c == '1' {
        Some(0)
    } else if c == '2' {
        Some(1)
    } else if c == '3' {
        Some(2)
    } else if c == '4' {
        Some(3)
    } else if c == '5' {
        Some(4)
    } else if c == '6' {
        Some(5)
    } else if c == '7' {
        Some(6)
    } else if c == '8' {
        Some(7)
    } else {
        None
    }
}

/// The square that a file letter and a rank digit name.
pub fn square_from_chars(file: char, rank: char) -> (r: Option<u16>)
    ensures
        match r {
            Some(sq) => square_of_chars(file, rank) == Some(sq as int) && sq < 64,
            None => square_of_chars(file, rank) is None,
        },
{
    match file_from_char(file) {
        Some(f) => match rank_from_char(rank) {
            Some(k) => Some(k * 8 + f),
            None => None,
        },
        None => None,
    }
}

impl ChessMove {
    /// The move that a text in the short form names, if it names one:
    /// `e2e4`, `e7e8q`.
    pub fn from_san(san: &str) -> (r: Option<ChessMove>)
        ensures
            r == parse_san_simple(san@),
    {
        let chars: Vec<char> = chars_of(san);
        if chars.len() != 4 && chars.len() != 5 {
            return None;
        }
        let from: u16 = match square_from_chars(chars[0], chars[1]) {
            Some(sq) => sq,
            None => {
                return None;
            },
        };
        let to: u16 = match square_from_chars(chars[2], chars[3]) {
            Some(sq) => sq,
            None => {
                return None;
            },
        };
        if chars.len() == 4 {
            return Some(ChessMove::new(from, to));
        }
        let c: char = chars[4];
        if c == 'q' {
            Some(ChessMove::new_with_flag(from, to, ChessMove::PROMOTE_TO_QUEEN_FLAG))
        } else if c == 'n' {
            Some(ChessMove::new_with_flag(from, to, ChessMove::PROMOTE_TO_KNIGHT_FLAG))
        } else if c == 'r' {
            Some(ChessMove::new_with_flag(from, to, ChessMove::PROMOTE_TO_ROOK_FLAG))
        } else if c == 'b' {
            Some(ChessMove::new_with_flag(from, to, ChessMove::PROMOTE_TO_BISHOP_FLAG))
        } else {
            None
        }
    }
}

/// Reading the short text of a move gives back its squares and its
/// promotion: the move with the same squares, with the same flag if it is a
/// promotion and with no flag if it is not.
pub proof fn lemma_san_simple_roundtrip(m: ChessMove)
    ensures
        parse_san_simple(san_simple(m)) == Some(
            ChessMove {
                move_value: pack_move(
                    m.from_sq() as u16,
                    m.to_sq() as u16,
                    if m.promotes() {
                        m.flag_of() as u16
                    } else {
                        0u16
                    },
                ),
                chess_piece: None,
                capture: None,
            },
        ),
{
    lemma_move_word(m.move_value);
    let from = m.from_sq();
    let to = m.to_sq();
    let text = san_simple(m);
    assert(file_of_char(file_char(from % 8)) == Some(from % 8));
    assert(rank_of_char(rank_char(from / 8)) == Some(from / 8));
    assert(file_of_char(file_char(to % 8)) == Some(to % 8));
    assert(rank_of_char(rank_char(to / 8)) == Some(to / 8));
    assert(text[0] == file_char(from % 8));
    assert(text[1] == rank_char(from / 8));
    assert(text[2] == file_char(to % 8));
    assert(text[3] == rank_char(to / 8));
    match promotion_of_flag(m.flag_of()) {
        Some(kind) => {
            assert(text.len() == 5);
            assert(text[4] == piece_letter_lower(kind));
        },
        None => {
            assert(text.len() == 4);
        },
    }
}

} // verus!
