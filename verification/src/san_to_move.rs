use crate::chess_move::{san_simple, ChessMove};
use crate::chessboard::{chars_contain, ChessBoard};
use crate::move_generator::{get_all_legal_moves_for_color, get_pseudo_legal_move_list_from_square};
use crate::piece::PieceType;
use crate::piece_conductor::PieceConductor;
use crate::position::{king_home, Position};
use crate::rules::{all_legal_moves, bare_move, pseudo_moves_from};
use crate::san::{square_from_chars, square_of_chars};
use crate::text::chars_of;
use vstd::prelude::*;

verus! {

/// The castling move that a text names for a side: `O-O` to the king's
/// side, `O-O-O` to the queen's side.
pub open spec fn castling_of_text(text: Seq<char>, white: bool) -> Option<ChessMove> {
    if text == seq!['O', '-', 'O'] {
        Some(bare_move(king_home(white), king_home(white) + 2, 2))
    } else if text == seq!['O', '-', 'O', '-', 'O'] {
        Some(bare_move(king_home(white), king_home(white) - 2, 2))
    } else {
        None
    }
}

/// The piece kind for which an upper-case letter stands.
pub open spec fn kind_of_upper(c: char) -> Option<PieceType> {
    if c == 'P' {
        Some(PieceType::Pawn)
    } else if c == 'N' {
        Some(PieceType::Knight)
    } else if c == 'B' {
        Some(PieceType::Bishop)
    } else if c == 'R' {
        Some(PieceType::Rook)
    } else if c == 'Q' {
        Some(PieceType::Queen)
    } else if c == 'K' {
        Some(PieceType::King)
    } else {
        None
    }
}

/// Whether a character is one of the letters from `A` to `Z`.
pub open spec fn is_upper(c: char) -> bool {
    65 <= c as u32 <= 90
}

/// The kind of the piece that a move text names: the piece of its first
/// letter if that is an upper-case piece letter, no piece for another
/// upper-case letter, and else a pawn.
pub open spec fn kind_of_text(text: Seq<char>) -> Option<PieceType> {
    if text.len() > 0 && is_upper(text[0]) {
        kind_of_upper(text[0])
    } else {
        Some(PieceType::Pawn)
    }
}

/// The square that the last two characters of a move text name.
pub open spec fn target_of_text(text: Seq<char>) -> Option<int> {
    if text.len() < 2 {
        None
    } else {
        square_of_chars(text[text.len() - 2], text[text.len() - 1])
    }
}

/// Whether a move answers a move text: it ends on the target, and if the
/// text names a capture it ends on an occupied square or is an en-passant
/// capture.
pub open spec fn answers(p: Position, m: ChessMove, target: int, capture: bool) -> bool {
    m.to_sq() == target && (!capture || p.at(target) is Some || m.flag_of() == 1)
}

/// The first of the moves from index `i` on that answers the move text.
pub open spec fn first_answer(
    p: Position,
    moves: Seq<ChessMove>,
    target: int,
    capture: bool,
    i: int,
) -> Option<ChessMove>
    decreases moves.len() - i,
{
    if i < 0 || i >= moves.len() {
        None
    } else if answers(p, moves[i], target, capture) {
        Some(moves[i])
    } else {
        first_answer(p, moves, target, capture, i + 1)
    }
}

/// The first pseudo-legal move that answers the move text, made by a piece
/// of the given kind of the side to move that stands on `sq` or on a higher
/// square.
pub open spec fn find_move_from(
    p: Position,
    kind: PieceType,
    target: int,
    capture: bool,
    sq: int,
) -> Option<ChessMove>
    decreases 64 - sq,
{
    if sq < 0 || sq >= 64 {
        None
    } else if p.has_piece(sq, kind, p.white_to_move) && first_answer(
        p,
        pseudo_moves_from(p, sq, p.white_to_move),
        target,
        capture,
        0,
    ) is Some {
        first_answer(p, pseudo_moves_from(p, sq, p.white_to_move), target, capture, 0)
    } else {
        find_move_from(p, kind, target, capture, sq + 1)
    }
}

/// The move that a move text names in a position: a castling move for `O-O`
/// and `O-O-O`; else the first pseudo-legal move of a piece of the named
/// kind, lowest square first, that ends on the named square, and on an
/// occupied square or en passant if the text holds an `x`.
pub open spec fn move_of_text(p: Position, text: Seq<char>) -> Option<ChessMove> {
    if castling_of_text(text, p.white_to_move) is Some {
        castling_of_text(text, p.white_to_move)
    } else {
        match (kind_of_text(text), target_of_text(text)) {
            (Some(kind), Some(target)) => find_move_from(p, kind, target, text.contains('x'), 0),
            _ => None,
        }
    }
}

/// The piece kind for which an upper-case letter stands.
pub fn char_to_piece_type(c: char) -> (r: Option<PieceType>)
    ensures
        r == kind_of_upper(c),
{
    if c == 'P' {
        Some(PieceType::Pawn)
    } else if c == 'N' {
        Some(PieceType::Knight)
    } else if c == 'B' {
        Some(PieceType::Bishop)
    } else if c == 'R' {
        Some(PieceType::Rook)
    } else if c == 'Q' {
        Some(PieceType::Queen)
    } else if c == 'K' {
        Some(PieceType::King)
    } else {
        None
    }
}

/// The square that the last two characters of a move text name.
pub fn san_to_target_square(san: &Vec<char>) -> (r: Option<u16>)
    ensures
        match r {
            Some(sq) => target_of_text(san@) == Some(sq as int) && sq < 64,
            None => target_of_text(san@) is None,
        },
{
    let len: usize = san.len();
    if len < 2 {
        return None;
    }
    square_from_chars(san[len - 2], san[len - 1])
}

/// The castling move that a text names for the side to move.
pub fn handle_san_castling(chess_board: &ChessBoard, san: &str) -> (r: Option<ChessMove>)
    ensures
        r == castling_of_text(san@, chess_board@.white_to_move),
{
    let chars: Vec<char> = chars_of(san);
    castling_from_chars(chess_board.is_white_active(), &chars)
}

/// The castling move that a text names for a side.
pub fn castling_from_chars(is_white: bool, chars: &Vec<char>) -> (r: Option<ChessMove>)
    ensures
        r == castling_of_text(chars@, is_white),
{
    let home: u16 = if is_white {
        4
    } else {
        60
    };
    let short: bool = chars.len() == 3 && chars[0] == 'O' && chars[1] == '-' && chars[2] == 'O';
    let long: bool = chars.len() == 5 && chars[0] == 'O' && chars[1] == '-' && chars[2] == 'O'
        && chars[3] == '-' && chars[4] == 'O';
    proof {
        let a = seq!['O', '-', 'O'];
        let b = seq!['O', '-', 'O', '-', 'O'];
        if short {
            assert(chars@ =~= a);
        }
        if long {
            assert(chars@ =~= b);
        }
        if chars@ == a {
            assert(a.len() == 3 && a[0] == 'O' && a[1] == '-' && a[2] == 'O');
        }
        if chars@ == b {
            assert(b.len() == 5 && b[0] == 'O' && b[1] == '-' && b[2] == 'O' && b[3] == '-' && b[4]
                == 'O');
        }
    }
    if short {
        Some(ChessMove::new_with_flag(home, home + 2, ChessMove::CASTLE_FLAG))
    } else if long {
        Some(ChessMove::new_with_flag(home, home - 2, ChessMove::CASTLE_FLAG))
    } else {
        None
    }
}

/// The first of the moves that answers a move text.
pub fn find_answer(
    chess_board: &ChessBoard,
    moves: &Vec<ChessMove>,
    target: u16,
    capture: bool,
) -> (r: Option<ChessMove>)
    requires
        target < 64,
    ensures
        r == first_answer(chess_board@, moves@, target as int, capture, 0),
{
    let occupied: bool = chess_board.get_piece_at_square(target).is_some();
    let mut i: usize = 0;
    while i < moves.len()
        invariant
            i <= moves@.len(),
            target < 64,
            occupied == chess_board@.at(target as int) is Some,
            first_answer(chess_board@, moves@, target as int, capture, i as int) == first_answer(
                chess_board@,
                moves@,
                target as int,
                capture,
                0,
            ),
        decreases moves@.len() - i,
    {
        let chess_move: ChessMove = moves[i];
        if chess_move.target_square() == target && (!capture || occupied || chess_move.has_flag(
            ChessMove::EN_PASSANT_CAPTURE_FLAG,
        )) {
            return Some(chess_move);
        }
        i = i + 1;
    }
    None
}

/// The first pseudo-legal move that answers a move text, made by a piece of
/// the given kind of the side to move, lowest square first.
pub fn find_start_square(
    chess_board: &ChessBoard,
    conductor: &PieceConductor,
    piece_type: PieceType,
    target_square: u16,
    is_capture: bool,
) -> (r: Option<ChessMove>)
    requires
        chess_board.wf(),
        conductor.wf(),
        target_square < 64,
    ensures
        r == find_move_from(chess_board@, piece_type, target_square as int, is_capture, 0),
{
    let is_white: bool = chess_board.is_white_active();
    let mut start_square: u16 = 0;
    while start_square < 64
        invariant
            start_square <= 64,
            target_square < 64,
            chess_board.wf(),
            conductor.wf(),
            is_white == chess_board@.white_to_move,
            find_move_from(
                chess_board@,
                piece_type,
                target_square as int,
                is_capture,
                start_square as int,
            ) == find_move_from(chess_board@, piece_type, target_square as int, is_capture, 0),
        decreases 64 - start_square,
    {
        let here: bool = match chess_board.get_piece_at_square(start_square) {
            Some(piece) => piece.kind == piece_type && piece.white == is_white,
            None => false,
        };
        if here {
            let pseudo_legal_moves = get_pseudo_legal_move_list_from_square(
                start_square,
                chess_board,
                conductor,
                is_white,
            );
            let found = find_answer(chess_board, &pseudo_legal_moves, target_square, is_capture);
            if found.is_some() {
                return found;
            }
        }
        start_square = start_square + 1;
    }
    None
}

/// The move that a move text names in the position on the board.
pub fn get_move_from_san(chess_board: &ChessBoard, conductor: &PieceConductor, san: &str) -> (r:
    Option<ChessMove>)
    requires
        chess_board.wf(),
        conductor.wf(),
    ensures
        r == move_of_text(chess_board@, san@),
{
    let chars: Vec<char> = chars_of(san);
    let castling = castling_from_chars(chess_board.is_white_active(), &chars);
    if castling.is_some() {
        return castling;
    }
    let piece_type: PieceType = if chars.len() > 0 && 65 <= chars[0] as u32 && chars[0] as u32
        <= 90 {
        match char_to_piece_type(chars[0]) {
            Some(kind) => kind,
            None => {
                return None;
            },
        }
    } else {
        PieceType::Pawn
    };
    let target_square: u16 = match san_to_target_square(&chars) {
        Some(square) => square,
        None => {
            return None;
        },
    };
    let is_capture: bool = chars_contain(&chars, 'x');
    find_start_square(chess_board, conductor, piece_type, target_square, is_capture)
}

/// The first of the moves from index `i` on whose short text is `text`.
pub open spec fn first_with_text(moves: Seq<ChessMove>, text: Seq<char>, i: int) -> Option<
    ChessMove,
>
    decreases moves.len() - i,
{
    if i < 0 || i >= moves.len() {
        None
    } else if san_simple(moves[i]) == text {
        Some(moves[i])
    } else {
        first_with_text(moves, text, i + 1)
    }
}

/// Whether two sequences of characters are the same.
pub fn same_chars(a: &Vec<char>, b: &Vec<char>) -> (r: bool)
    ensures
        r == (a@ == b@),
{
    if a.len() != b.len() {
        return false;
    }
    let mut i: usize = 0;
    while i < a.len()
        invariant
            i <= a@.len(),
            a@.len() == b@.len(),
            forall|k: int| 0 <= k < i ==> a@[k] == b@[k],
        decreases a@.len() - i,
    {
        if a[i] != b[i] {
            return false;
        }
        i = i + 1;
    }
    proof {
        assert(a@ =~= b@);
    }
    true
}

/// The legal move of the side to move whose short text is `san`, if there
/// is one. The board is left as it was.
pub fn legal_move_from_text(
    chess_board: &mut ChessBoard,
    conductor: &PieceConductor,
    san: &str,
) -> (r: Option<ChessMove>)
    requires
        old(chess_board).wf(),
        conductor.wf(),
    ensures
        final(chess_board).wf(),
        final(chess_board)@ == old(chess_board)@,
        r == first_with_text(
            all_legal_moves(old(chess_board)@, old(chess_board)@.white_to_move),
            san@,
            0,
        ),
{
    let wanted: Vec<char> = chars_of(san);
    let is_white: bool = chess_board.is_white_active();
    let legal_moves = get_all_legal_moves_for_color(chess_board, conductor, is_white);
    let mut i: usize = 0;
    while i < legal_moves.len()
        invariant
            i <= legal_moves@.len(),
            wanted@ == san@,
            chess_board.wf(),
            chess_board@ == old(chess_board)@,
            legal_moves@ == all_legal_moves(old(chess_board)@, old(chess_board)@.white_to_move),
            first_with_text(legal_moves@, san@, i as int) == first_with_text(legal_moves@, san@, 0),
        decreases legal_moves@.len() - i,
    {
        let text: Vec<char> = chars_of(legal_moves[i].to_san_simple().as_str());
        if same_chars(&text, &wanted) {
            return Some(legal_moves[i]);
        }
        i = i + 1;
    }
    None
}

} // verus!
