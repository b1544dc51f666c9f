use crate::chess_move::ChessMove;
use crate::chessboard::{rights_from_chars, rights_letters, rights_of_letters, ChessBoard};
use crate::piece::{piece_letter, piece_letter_lower, ChessPiece, PieceType};
use crate::position::Position;
use crate::text::{chars_of, string_of};
use vstd::prelude::*;

verus! {

/// What can be wrong with a FEN text.
#[derive(Debug, Clone, Copy, PartialEq, Eq, Structural)]
pub enum FenError {
    /// The placement does not hold eight ranks of eight squares each, or it
    /// holds a character that stands for no piece.
    MalformedFen,
}

/// Whether a character separates the fields of a FEN text.
pub open spec fn is_space(c: char) -> bool {
    c == ' ' || c == '\t' || c == '\n' || c == '\r'
}

/// The length of the longest prefix of `s` that holds no character
/// satisfying `stop`.
pub open spec fn run_len(s: Seq<char>, stop: spec_fn(char) -> bool) -> nat
    decreases s.len(),
{
    if s.len() == 0 || stop(s[0]) {
        0
    } else {
        1 + run_len(s.drop_first(), stop)
    }
}

/// The fields of a text: its longest runs of characters that are not
/// spaces.
pub open spec fn split_fields(s: Seq<char>) -> Seq<Seq<char>>
    decreases s.len(),
{
    if s.len() == 0 {
        Seq::empty()
    } else if is_space(s[0]) {
        split_fields(s.drop_first())
    } else {
        let n = run_len(s, |c: char| is_space(c));
        if 0 < n <= s.len() {
            seq![s.subrange(0, n as int)] + split_fields(s.subrange(n as int, s.len() as int))
        } else {
            Seq::empty()
        }
    }
}

/// The parts of a text between its slashes. A text without a slash is one
/// part.
pub open spec fn split_slash(s: Seq<char>) -> Seq<Seq<char>>
    decreases s.len(),
{
    let n = run_len(s, |c: char| c == '/');
    if n < s.len() {
        seq![s.subrange(0, n as int)] + split_slash(s.subrange(n as int + 1, s.len() as int))
    } else {
        seq![s]
    }
}

/// The piece kind for which a FEN letter of either case stands.
pub open spec fn kind_of_letter(c: char) -> Option<PieceType> {
    if c == 'p' || c == 'P' {
        Some(PieceType::Pawn)
    } else if c == 'n' || c == 'N' {
        Some(PieceType::Knight)
    } else if c == 'b' || c == 'B' {
        Some(PieceType::Bishop)
    } else if c == 'r' || c == 'R' {
        Some(PieceType::Rook)
    } else if c == 'q' || c == 'Q' {
        Some(PieceType::Queen)
    } else if c == 'k' || c == 'K' {
        Some(PieceType::King)
    } else {
        None
    }
}

/// Whether a FEN letter is one of the six upper-case piece letters.
pub open spec fn is_white_letter(c: char) -> bool {
    c == 'P' || c == 'N' || c == 'B' || c == 'R' || c == 'Q' || c == 'K'
}

/// The piece for which a FEN letter stands: White in upper case, Black in
/// lower case.
pub open spec fn piece_of_letter(c: char) -> Option<ChessPiece> {
    match kind_of_letter(c) {
        Some(kind) => Some(ChessPiece { kind, white: is_white_letter(c) }),
        None => None,
    }
}

/// The number of empty squares for which a FEN digit stands.
pub open spec fn digit_value(c: char) -> Option<int> {
    if c == '1' {
        Some(1)
    } else if c == '2' {
        Some(2)
    } else if c == '3' {
        Some(3)
    } else if c == '4' {
        Some(4)
    } else if c == '5' {
        Some(5)
    } else if c == '6' {
        Some(6)
    } else if c == '7' {
        Some(7)
    } else if c == '8' {
        Some(8)
    } else {
        None
    }
}

/// The FEN digit for a number of empty squares from 1 to 8.
pub open spec fn digit_char(n: int) -> char {
    ((48 + n) as u8) as char
}

/// `n` empty squares.
pub open spec fn empty_run(n: int) -> Seq<Option<ChessPiece>> {
    Seq::new(n as nat, |i: int| None::<ChessPiece>)
}

/// The squares that a rank text describes, from file a on: a digit stands
/// for that many empty squares, a letter for a piece. No squares if the
/// text holds any other character.
pub open spec fn parse_rank(text: Seq<char>) -> Option<Seq<Option<ChessPiece>>>
    decreases text.len(),
{
    if text.len() == 0 {
        Some(Seq::empty())
    } else {
        match parse_rank(text.drop_first()) {
            None => None,
            Some(rest) => match digit_value(text[0]) {
                Some(n) => Some(empty_run(n) + rest),
                None => match piece_of_letter(text[0]) {
                    Some(piece) => Some(seq![Some(piece)] + rest),
                    None => None,
                },
            },
        }
    }
}

/// Whether each of the eight rank texts describes eight squares.
pub open spec fn ranks_ok(ranks: Seq<Seq<char>>) -> bool {
    &&& ranks.len() == 8
    &&& forall|i: int|
        0 <= i < 8 ==> (#[trigger] parse_rank(ranks[i])) is Some && parse_rank(ranks[i])->0.len()
            == 8
}

/// The 64 squares that a placement text describes: eight rank texts
/// between slashes, rank 8 first, each of eight squares.
pub open spec fn parse_placement(text: Seq<char>) -> Option<Seq<Option<ChessPiece>>> {
    let ranks = split_slash(text);
    if ranks_ok(ranks) {
        Some(Seq::new(64, |sq: int| parse_rank(ranks[7 - sq / 8])->0[sq % 8]))
    } else {
        None
    }
}

/// The position that a FEN text describes. The first field is the
/// placement; the second names the side to move, White if it is `w` or
/// missing; the third holds the letters of the castling rights, none if it
/// is missing. Further fields are not read. The history is empty.
pub open spec fn parse_fen(text: Seq<char>) -> Option<Position> {
    let fields = split_fields(text);
    if fields.len() == 0 {
        None
    } else {
        match parse_placement(fields[0]) {
            None => None,
            Some(squares) => Some(
                Position {
                    squares,
                    white_to_move: fields.len() < 2 || fields[1] == seq!['w'],
                    castling_rights: if fields.len() < 3 {
                        0u8
                    } else {
                        rights_of_letters(fields[2])
                    },
                    history: Seq::empty(),
                },
            ),
        }
    }
}

/// The FEN letter of a piece.
pub open spec fn letter_of_piece(piece: ChessPiece) -> char {
    if piece.white {
        piece_letter(piece.kind)
    } else {
        piece_letter_lower(piece.kind)
    }
}

/// The text of the squares of a rank from index `i` on, after `empties`
/// empty squares that are not written yet: a run of empty squares is
/// written as its length, a piece as its letter.
pub open spec fn rank_text_from(row: Seq<Option<ChessPiece>>, i: int, empties: int) -> Seq<char>
    decreases row.len() - i,
{
    if i >= row.len() {
        if empties > 0 {
            seq![digit_char(empties)]
        } else {
            Seq::empty()
        }
    } else {
        match row[i] {
            Some(piece) => (if empties > 0 {
                seq![digit_char(empties)]
            } else {
                Seq::<char>::empty()
            }) + seq![letter_of_piece(piece)] + rank_text_from(row, i + 1, 0),
            None => rank_text_from(row, i + 1, empties + 1),
        }
    }
}

/// The eight squares of a rank, from file a to file h.
pub open spec fn rank_row(squares: Seq<Option<ChessPiece>>, rank: int) -> Seq<Option<ChessPiece>> {
    squares.subrange(rank * 8, rank * 8 + 8)
}

/// The placement text of the ranks from `rank` down to rank 1, with a slash
/// between two ranks.
pub open spec fn placement_text_from(squares: Seq<Option<ChessPiece>>, rank: int) -> Seq<char>
    decreases rank,
{
    if rank <= 0 {
        rank_text_from(rank_row(squares, 0), 0, 0)
    } else {
        rank_text_from(rank_row(squares, rank), 0, 0) + seq!['/'] + placement_text_from(
            squares,
            rank - 1,
        )
    }
}

/// The castling field of a FEN text: the letters of the rights, or a dash
/// when there is none.
pub open spec fn rights_field(rights: u8) -> Seq<char> {
    if rights_letters(rights).len() == 0 {
        seq!['-']
    } else {
        rights_letters(rights)
    }
}

/// The FEN text of a position: placement, side to move, castling rights,
/// and `- 0 1` for the en-passant square and the two move counters.
pub open spec fn fen_text(p: Position) -> Seq<char> {
    placement_text_from(p.squares, 7) + seq![' '] + seq![
        if p.white_to_move {
            'w'
        } else {
            'b'
        },
    ] + seq![' '] + rights_field(p.castling_rights) + seq![' ', '-', ' ', '0', ' ', '1']
}

/// Whether each part of `parts` holds the characters of the part of `texts`
/// in the same place.
pub open spec fn same_texts(parts: Seq<Vec<char>>, texts: Seq<Seq<char>>) -> bool {
    &&& parts.len() == texts.len()
    &&& forall|k: int| 0 <= k < parts.len() ==> (#[trigger] parts[k])@ == texts[k]
}

/// The fields of a text.
pub fn fields_of(text: &Vec<char>) -> (r: Vec<Vec<char>>)
    ensures
        same_texts(r@, split_fields(text@)),
{
    let mut fields: Vec<Vec<char>> = Vec::new();
    let mut i: usize = 0;
    let ghost stop = |c: char| is_space(c);
    let ghost mut done: Seq<Seq<char>> = Seq::empty();
    proof {
        assert(text@.subrange(0, text@.len() as int) =~= text@);
        assert(done + split_fields(text@) =~= split_fields(text@));
    }
    while i < text.len()
        invariant
            i <= text@.len(),
            stop == (|c: char| is_space(c)),
            same_texts(fields@, done),
            done + split_fields(text@.subrange(i as int, text@.len() as int)) == split_fields(text@),
        decreases text@.len() - i,
    {
        let ghost rest = text@.subrange(i as int, text@.len() as int);
        if text[i] == ' ' || text[i] == '\t' || text[i] == '\n' || text[i] == '\r' {
            proof {
                assert(rest.drop_first() =~= text@.subrange(i + 1, text@.len() as int));
            }
            i = i + 1;
        } else {
            let mut field: Vec<char> = Vec::new();
            let start: usize = i;
            proof {
                assert(text@.subrange(start as int, i as int) =~= Seq::<char>::empty());
            }
            while i < text.len() && !(text[i] == ' ' || text[i] == '\t' || text[i] == '\n'
                || text[i] == '\r')
                invariant
                    start <= i <= text@.len(),
                    stop == (|c: char| is_space(c)),
                    rest == text@.subrange(start as int, text@.len() as int),
                    field@ == text@.subrange(start as int, i as int),
                    run_len(rest, stop) == (i - start) + run_len(
                        text@.subrange(i as int, text@.len() as int),
                        stop,
                    ),
                decreases text@.len() - i,
            {
                proof {
                    let here = text@.subrange(i as int, text@.len() as int);
                    assert(here.drop_first() =~= text@.subrange(i + 1, text@.len() as int));
                    assert(!stop(here[0]));
                }
                field.push(text[i]);
                proof {
                    assert(field@ =~= text@.subrange(start as int, i + 1));
                }
                i = i + 1;
            }
            proof {
                let here = text@.subrange(i as int, text@.len() as int);
                assert(run_len(here, stop) == 0) by {
                    if here.len() > 0 {
                        assert(stop(here[0]));
                    }
                }
                let n = run_len(rest, stop);
                assert(n == i - start);
                assert(!is_space(rest[0]));
                assert(rest.subrange(0, n as int) =~= field@);
                assert(rest.subrange(n as int, rest.len() as int) =~= here);
                assert(split_fields(rest) == seq![field@] + split_fields(here));
                assert(done.push(field@) + split_fields(here) =~= done + split_fields(rest));
                done = done.push(field@);
            }
            fields.push(field);
        }
    }
    proof {
        assert(text@.subrange(text@.len() as int, text@.len() as int) =~= Seq::<char>::empty());
        assert(done + Seq::<Seq<char>>::empty() =~= done);
    }
    fields
}

/// The parts of a text between its slashes.
pub fn slash_parts_of(text: &Vec<char>) -> (r: Vec<Vec<char>>)
    ensures
        same_texts(r@, split_slash(text@)),
{
    let mut parts: Vec<Vec<char>> = Vec::new();
    let mut part: Vec<char> = Vec::new();
    let mut i: usize = 0;
    let mut start: usize = 0;
    let ghost stop = |c: char| c == '/';
    let ghost mut done: Seq<Seq<char>> = Seq::empty();
    proof {
        assert(text@.subrange(0, text@.len() as int) =~= text@);
        assert(done + split_slash(text@) =~= split_slash(text@));
        assert(part@ =~= text@.subrange(0, 0));
    }
    while i < text.len()
        invariant
            start <= i <= text@.len(),
            stop == (|c: char| c == '/'),
            part@ == text@.subrange(start as int, i as int),
            run_len(text@.subrange(start as int, text@.len() as int), stop) == (i - start)
                + run_len(text@.subrange(i as int, text@.len() as int), stop),
            same_texts(parts@, done),
            done + split_slash(text@.subrange(start as int, text@.len() as int)) == split_slash(
                text@,
            ),
        decreases text@.len() - i,
    {
        let ghost rest = text@.subrange(start as int, text@.len() as int);
        let ghost here = text@.subrange(i as int, text@.len() as int);
        if text[i] == '/' {
            proof {
                let after = text@.subrange(i + 1, text@.len() as int);
                assert(stop(here[0]));
                assert(run_len(here, stop) == 0);
                let n = run_len(rest, stop);
                assert(n == i - start);
                assert(rest.subrange(0, n as int) =~= part@);
                assert(rest.subrange(n as int + 1, rest.len() as int) =~= after);
                assert(split_slash(rest) == seq![part@] + split_slash(after));
                assert(done.push(part@) + split_slash(after) =~= done + split_slash(rest));
                done = done.push(part@);
            }
            parts.push(part);
            part = Vec::new();
            i = i + 1;
            start = i;
            proof {
                assert(part@ =~= text@.subrange(start as int, i as int));
            }
        } else {
            proof {
                assert(here.drop_first() =~= text@.subrange(i + 1, text@.len() as int));
                assert(!stop(here[0]));
            }
            part.push(text[i]);
            proof {
                assert(part@ =~= text@.subrange(start as int, i + 1));
            }
            i = i + 1;
        }
    }
    proof {
        let rest = text@.subrange(start as int, text@.len() as int);
        let here = text@.subrange(i as int, text@.len() as int);
        assert(here =~= Seq::<char>::empty());
        assert(run_len(here, stop) == 0);
        assert(run_len(rest, stop) == rest.len());
        assert(rest =~= part@);
        assert(split_slash(rest) == seq![rest]);
        assert(done.push(part@) =~= done + split_slash(rest));
        done = done.push(part@);
    }
    parts.push(part);
    parts
}

/// The number of empty squares for which a FEN digit stands.
pub fn digit_of(c: char) -> (r: Option<usize>)
    ensures
        match r {
            Some(n) => digit_value(c) == Some(n as int) && 1 <= n <= 8,
            None => digit_value(c) is None,
        },
{
    if c == '1' {
        Some(1)
    } else if c == '2' {
        Some(2)
    } else if c == '3' {
        Some(3)
    } else if c == '4' {
        Some(4)
    } else if c == '5' {
        Some(5)
    } else if c == '6' {
        Some(6)
    } else if c == '7' {
        Some(7)
    } else if c == '8' {
        Some(8)
    } else {
        None
    }
}

/// The squares that a rank text describes, if it is made of digits from 1
/// to 8 and piece letters.
pub fn rank_squares(text: &Vec<char>) -> (r: Option<Vec<Option<ChessPiece>>>)
    ensures
        match r {
            Some(row) => parse_rank(text@) == Some(row@),
            None => parse_rank(text@) is None,
        },
{
    let mut row: Vec<Option<ChessPiece>> = Vec::new();
    let mut i: usize = text.len();
    proof {
        assert(text@.subrange(text@.len() as int, text@.len() as int) =~= Seq::<char>::empty());
    }
    while i > 0
        invariant
            i <= text@.len(),
            parse_rank(text@.subrange(i as int, text@.len() as int)) == Some(row@.reverse()),
        decreases i,
    {
        i = i - 1;
        let c: char = text[i];
        let ghost tail = text@.subrange(i + 1, text@.len() as int);
        let ghost here = text@.subrange(i as int, text@.len() as int);
        let ghost before = row@;
        proof {
            assert(here.drop_first() =~= tail);
            assert(here[0] == c);
        }
        match digit_of(c) {
            Some(n) => {
                let mut k: usize = 0;
                while k < n
                    invariant
                        k <= n <= 8,
                        row@ == before + empty_run(k as int),
                    decreases n - k,
                {
                    row.push(None);
                    k = k + 1;
                    proof {
                        assert(row@ =~= before + empty_run(k as int));
                    }
                }
                proof {
                    assert(row@.reverse() =~= empty_run(n as int) + before.reverse());
                }
            },
            None => {
                match FENParser::piece_type_from_fen_char(c) {
                    Some(kind) => {
                        let white: bool = c == 'P' || c == 'N' || c == 'B' || c == 'R' || c == 'Q'
                            || c == 'K';
                        row.push(Some(ChessPiece::new(kind, white)));
                        proof {
                            assert(row@.reverse() =~= seq![
                                Some(ChessPiece { kind, white }),
                            ] + before.reverse());
                        }
                    },
                    None => {
                        proof {
                            lemma_parse_rank_fails(text@, i as int);
                        }
                        return None;
                    },
                }
            },
        }
    }
    let mut out: Vec<Option<ChessPiece>> = Vec::new();
    let mut j: usize = row.len();
    while j > 0
        invariant
            j <= row@.len(),
            out@ == row@.reverse().subrange(0, row@.len() - j),
        decreases j,
    {
        j = j - 1;
        out.push(row[j]);
        proof {
            assert(out@ =~= row@.reverse().subrange(0, row@.len() - j));
        }
    }
    proof {
        assert(text@.subrange(0, text@.len() as int) =~= text@);
        assert(out@ =~= row@.reverse());
    }
    Some(out)
}

/// A rank text with a character that is neither a digit from 1 to 8 nor a
/// piece letter describes no squares.
pub proof fn lemma_parse_rank_fails(text: Seq<char>, i: int)
    requires
        0 <= i < text.len(),
        digit_value(text[i]) is None,
        piece_of_letter(text[i]) is None,
    ensures
        parse_rank(text) is None,
    decreases i,
{
    if i > 0 {
        lemma_parse_rank_fails(text.drop_first(), i - 1);
    }
}

/// Reading and writing of positions in Forsyth-Edwards Notation.
pub struct FENParser;

impl FENParser {
    /// The FEN letter of a piece: upper case for White, lower case for
    /// Black.
    pub fn fen_char_from_piece_type(piece_type: PieceType, is_white: bool) -> (r: char)
        ensures
            r == letter_of_piece(ChessPiece { kind: piece_type, white: is_white }),
    {
        if is_white {
            ChessPiece::piecetype_to_char(piece_type)
        } else {
            ChessPiece::piecetype_to_lower_char(piece_type)
        }
    }

    /// The piece kind for which a FEN letter of either case stands, if any.
    pub fn piece_type_from_fen_char(c: char) -> (r: Option<PieceType>)
        ensures
            r == kind_of_letter(c),
    {
        if c == 'p' || c == 'P' {
            Some(PieceType::Pawn)
        } else if c == 'n' || c == 'N' {
            Some(PieceType::Knight)
        } else if c == 'b' || c == 'B' {
            Some(PieceType::Bishop)
        } else if c == 'r' || c == 'R' {
            Some(PieceType::Rook)
        } else if c == 'q' || c == 'Q' {
            Some(PieceType::Queen)
        } else if c == 'k' || c == 'K' {
            Some(PieceType::King)
        } else {
            None
        }
    }

    /// Puts the pieces of a placement text on an empty board, and says
    /// whether the text describes a placement. If it does not, the board is
    /// left with whatever was put before the fault was found.
    fn set_pieces_from_fen(board: &mut ChessBoard, layout: &Vec<char>) -> (ok: bool)
        requires
            old(board).wf(),
            old(board)@.squares == Seq::new(64, |sq: int| None::<ChessPiece>),
        ensures
            final(board).wf(),
            ok == parse_placement(layout@) is Some,
            ok ==> final(board)@ == (Position {
                squares: parse_placement(layout@)->0,
                ..old(board)@
            }),
            final(board)@.white_to_move == old(board)@.white_to_move,
            final(board)@.castling_rights == old(board)@.castling_rights,
            final(board)@.history == old(board)@.history,
    {
        let ranks: Vec<Vec<char>> = slash_parts_of(layout);
        if ranks.len() != 8 {
            return false;
        }
        let ghost parts = split_slash(layout@);
        let ghost start = board@;
        let mut rank_idx: usize = 0;
        while rank_idx < 8
            invariant
                rank_idx <= 8,
                ranks@.len() == 8,
                parts == split_slash(layout@),
                parts.len() == 8,
                start == old(board)@,
                same_texts(ranks@, parts),
                board.wf(),
                board@.white_to_move == start.white_to_move,
                board@.castling_rights == start.castling_rights,
                board@.history == start.history,
                board@.squares.len() == 64,
                forall|k: int|
                    0 <= k < rank_idx ==> (#[trigger] parse_rank(parts[k])) is Some && parse_rank(
                        parts[k],
                    )->0.len() == 8,
                forall|sq: int|
                    0 <= sq < 64 ==> #[trigger] board@.squares[sq] == if 7 - sq / 8 < rank_idx {
                        parse_rank(parts[7 - sq / 8])->0[sq % 8]
                    } else {
                        None
                    },
            decreases 8 - rank_idx,
        {
            proof {
                assert(ranks@[rank_idx as int]@ == parts[rank_idx as int]);
            }
            let row = match rank_squares(&ranks[rank_idx]) {
                Some(row) => row,
                None => {
                    proof {
                        assert(parse_rank(parts[rank_idx as int]) is None);
                    }
                    return false;
                },
            };
            if row.len() != 8 {
                proof {
                    assert(parse_rank(parts[rank_idx as int])->0.len() != 8);
                }
                return false;
            }
            let ghost outer = board@;
            let mut file_idx: usize = 0;
            while file_idx < 8
                invariant
                    file_idx <= 8,
                    rank_idx < 8,
                    row@.len() == 8,
                    board.wf(),
                    board@.white_to_move == start.white_to_move,
                    board@.castling_rights == start.castling_rights,
                    board@.history == start.history,
                    board@.squares.len() == 64,
                    outer.squares.len() == 64,
                    forall|sq: int|
                        0 <= sq < 64 && 7 - sq / 8 == rank_idx ==> (#[trigger] outer.squares[sq])
                            is None,
                    forall|sq: int|
                        0 <= sq < 64 ==> #[trigger] board@.squares[sq] == if 7 - sq / 8 == rank_idx
                            && sq % 8 < file_idx {
                            row@[sq % 8]
                        } else {
                            outer.squares[sq]
                        },
                decreases 8 - file_idx,
            {
                let square: usize = 8 * (7 - rank_idx) + file_idx;
                if let Some(piece) = row[file_idx] {
                    board.place_piece(square as u16, piece);
                }
                file_idx = file_idx + 1;
            }
            rank_idx = rank_idx + 1;
        }
        proof {
            assert(ranks_ok(parts));
            assert(board@.squares =~= parse_placement(layout@)->0);
        }
        true
    }

    /// Sets the board to the position that a FEN text describes, whatever
    /// the board held before: nothing of its earlier state is kept, and the
    /// board is well formed afterwards. A text that describes no position is
    /// refused, and the board is left as it was.
    pub fn set_board_from_fen(board: &mut ChessBoard, fen: &str) -> (r: Result<(), FenError>)
        ensures
            match parse_fen(fen@) {
                Some(position) => r is Ok && final(board).wf() && final(board)@ == position,
                None => r == Err::<(), FenError>(FenError::MalformedFen) && *final(board) == *old(
                    board,
                ),
            },
    {
        let chars: Vec<char> = chars_of(fen);
        let parts: Vec<Vec<char>> = fields_of(&chars);
        if parts.len() == 0 {
            return Err(FenError::MalformedFen);
        }
        let mut fresh = ChessBoard::new();
        fresh.clear();
        if !Self::set_pieces_from_fen(&mut fresh, &parts[0]) {
            return Err(FenError::MalformedFen);
        }
        let white: bool = if parts.len() < 2 {
            true
        } else {
            parts[1].len() == 1 && parts[1][0] == 'w'
        };
        fresh.set_active_color(white);
        let rights: u8 = if parts.len() < 3 {
            0
        } else {
            rights_from_chars(&parts[2])
        };
        let ghost colored = fresh;
        fresh.castling_rights = rights;
        proof {
            crate::chessboard::lemma_same_bitboards(colored, fresh);
            let fields = split_fields(fen@);
            assert(same_texts(parts@, fields));
            if parts.len() >= 2 {
                assert(parts@[1]@ == fields[1]);
                if white {
                    assert(fields[1] =~= seq!['w']);
                }
            }
            if parts.len() >= 3 {
                assert(parts@[2]@ == fields[2]);
                crate::chessboard::lemma_rights_of_letters(fields[2]);
            }
            assert(parts@[0]@ == fields[0]);
            assert(fresh@.squares =~= parse_fen(fen@)->0.squares);
            assert(fresh@.history =~= parse_fen(fen@)->0.history);
        }
        *board = fresh;
        Ok(())
    }

    /// The text of the squares of a rank of the board.
    pub fn rank_to_fen(board: &ChessBoard, rank: usize, out: &mut Vec<char>)
        requires
            rank < 8,
        ensures
            final(out)@ == old(out)@ + rank_text_from(rank_row(board@.squares, rank as int), 0, 0),
    {
        let ghost row = rank_row(board@.squares, rank as int);
        let ghost start = out@;
        let mut empty_squares: u8 = 0;
        let mut file: usize = 0;
        while file < 8
            invariant
                file <= 8,
                rank < 8,
                empty_squares <= file,
                row == rank_row(board@.squares, rank as int),
                out@ + rank_text_from(row, file as int, empty_squares as int) == start
                    + rank_text_from(row, 0, 0),
            decreases 8 - file,
        {
            let square: usize = rank * 8 + file;
            let ghost before = out@;
            proof {
                assert(row[file as int] == board@.at(square as int));
            }
            let ghost pending = empty_squares as int;
            match board.get_piece_at_square(square as u16) {
                Some(piece) => {
                    if empty_squares > 0 {
                        out.push((48u8 + empty_squares) as char);
                        empty_squares = 0;
                    }
                    out.push(Self::fen_char_from_piece_type(piece.piece_type(), piece.is_white()));
                    proof {
                        assert(out@ + rank_text_from(row, file + 1, 0) =~= before + rank_text_from(
                            row,
                            file as int,
                            pending,
                        ));
                    }
                },
                None => {
                    empty_squares = empty_squares + 1;
                },
            }
            file = file + 1;
        }
        let ghost before = out@;
        if empty_squares > 0 {
            out.push((48u8 + empty_squares) as char);
        }
        proof {
            assert(row.len() == 8);
            assert(out@ =~= before + rank_text_from(row, 8, empty_squares as int));
            assert(out@ =~= start + rank_text_from(row, 0, 0));
        }
    }

    /// The FEN text of the position on the board. Read again, the text of a
    /// well-formed board gives its squares, its side to move and its
    /// castling rights, with an empty history.
    pub fn board_to_fen(board: &ChessBoard) -> (r: String)
        ensures
            r@ == fen_text(board@),
            board.wf() ==> parse_fen(r@) == Some(
                Position { history: Seq::<(ChessMove, u8)>::empty(), ..board@ },
            ),
    {
        let mut fen: Vec<char> = Vec::new();
        let mut rank: usize = 8;
        while rank > 0
            invariant
                rank <= 8,
                fen@ + (if rank > 0 {
                    placement_text_from(board@.squares, rank - 1)
                } else {
                    Seq::<char>::empty()
                }) == placement_text_from(board@.squares, 7),
            decreases rank,
        {
            rank = rank - 1;
            let ghost before = fen@;
            Self::rank_to_fen(board, rank, &mut fen);
            if rank > 0 {
                fen.push('/');
                proof {
                    assert(fen@ + placement_text_from(board@.squares, rank - 1) =~= before
                        + placement_text_from(board@.squares, rank as int));
                }
            } else {
                proof {
                    assert(fen@ + Seq::<char>::empty() =~= before + placement_text_from(
                        board@.squares,
                        0,
                    ));
                }
            }
        }
        let ghost placement = fen@;
        proof {
            assert(placement =~= placement_text_from(board@.squares, 7));
        }
        fen.push(' ');
        fen.push(
            if board.is_white_active() {
                'w'
            } else {
                'b'
            },
        );
        fen.push(' ');
        let rights: Vec<char> = chars_of(board.get_castling_rights().as_str());
        if rights.len() == 0 {
            fen.push('-');
        } else {
            let mut i: usize = 0;
            let ghost head = fen@;
            while i < rights.len()
                invariant
                    i <= rights@.len(),
                    fen@ == head + rights@.subrange(0, i as int),
                decreases rights@.len() - i,
            {
                fen.push(rights[i]);
                proof {
                    assert(fen@ =~= head + rights@.subrange(0, i + 1));
                }
                i = i + 1;
            }
            proof {
                assert(rights@.subrange(0, rights@.len() as int) =~= rights@);
            }
        }
        fen.push(' ');
        fen.push('-');
        fen.push(' ');
        fen.push('0');
        fen.push(' ');
        fen.push('1');
        proof {
            assert(fen@ =~= fen_text(board@));
            if board.wf() {
                crate::fen_roundtrip::lemma_fen_roundtrip(board@);
            }
        }
        string_of(&fen)
    }
}

impl ChessBoard {
    /// Sets the board to the position that a FEN text describes, whatever
    /// the board held before. A text that describes none is refused, and the
    /// board is left as it was.
    pub fn set_from_fen(&mut self, fen: &str) -> (r: Result<(), FenError>)
        ensures
            match parse_fen(fen@) {
                Some(position) => r is Ok && final(self).wf() && final(self)@ == position,
                None => r == Err::<(), FenError>(FenError::MalformedFen) && *final(self) == *old(
                    self,
                ),
            },
    {
        FENParser::set_board_from_fen(self, fen)
    }
}

/// A digit from 1 to 8 stands for its value, and a piece letter stands for
/// its piece and for no number.
pub proof fn lemma_fen_characters(n: int, piece: ChessPiece)
    ensures
        1 <= n <= 8 ==> digit_value(digit_char(n)) == Some(n),
        1 <= n <= 8 ==> !is_space(digit_char(n)) && digit_char(n) != '/',
        piece_of_letter(letter_of_piece(piece)) == Some(piece),
        digit_value(letter_of_piece(piece)) is None,
        !is_space(letter_of_piece(piece)),
        letter_of_piece(piece) != '/',
{
}

} // verus!
