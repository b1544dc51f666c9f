use crate::chessboard::{
    lemma_squares_determine_bitboards, rights_letters, rights_of_letters, ChessBoard,
};
use crate::fen::{
    digit_char, digit_value, empty_run, fen_text, is_space, lemma_fen_characters, letter_of_piece,
    parse_fen, parse_placement, parse_rank, piece_of_letter, placement_text_from, rank_row,
    rank_text_from, ranks_ok, rights_field, run_len, split_fields, split_slash,
};
use crate::piece::ChessPiece;
use crate::position::Position;
use vstd::prelude::*;

verus! {

/// Whether a character can stand in a rank text: a digit from 1 to 8 or a
/// piece letter.
pub open spec fn is_rank_char(c: char) -> bool {
    digit_value(c) is Some || piece_of_letter(c) is Some
}

/// A run of characters that are not stopped, followed by nothing or by a
/// stop, has the length of the run.
pub proof fn lemma_run_len_prefix(a: Seq<char>, rest: Seq<char>, stop: spec_fn(char) -> bool)
    requires
        forall|i: int| 0 <= i < a.len() ==> !stop(#[trigger] a[i]),
        rest.len() == 0 || stop(rest[0]),
    ensures
        run_len(a + rest, stop) == a.len(),
    decreases a.len(),
{
    if a.len() == 0 {
        assert(a + rest =~= rest);
    } else {
        assert((a + rest).drop_first() =~= a.drop_first() + rest);
        assert forall|i: int| 0 <= i < a.drop_first().len() implies !stop(
            #[trigger] a.drop_first()[i],
        ) by {
            assert(a.drop_first()[i] == a[i + 1]);
        }
        lemma_run_len_prefix(a.drop_first(), rest, stop);
        assert((a + rest)[0] == a[0]);
    }
}

/// The first field of a text that starts with a run without spaces is that
/// run.
pub proof fn lemma_split_fields_first(a: Seq<char>, rest: Seq<char>)
    requires
        a.len() > 0,
        forall|i: int| 0 <= i < a.len() ==> !is_space(#[trigger] a[i]),
        rest.len() == 0 || is_space(rest[0]),
    ensures
        split_fields(a + rest) == seq![a] + split_fields(rest),
{
    let s = a + rest;
    let stop = |c: char| is_space(c);
    assert forall|i: int| 0 <= i < a.len() implies !stop(#[trigger] a[i]) by {}
    lemma_run_len_prefix(a, rest, stop);
    assert(s[0] == a[0]);
    assert(s.subrange(0, a.len() as int) =~= a);
    assert(s.subrange(a.len() as int, s.len() as int) =~= rest);
}

/// A space in front of a text does not change its fields.
pub proof fn lemma_split_fields_space(rest: Seq<char>)
    ensures
        split_fields(seq![' '] + rest) == split_fields(rest),
{
    let s = seq![' '] + rest;
    assert(s[0] == ' ');
    assert(s.drop_first() =~= rest);
}

/// The first part of a text that starts with a run without slashes,
/// followed by a slash, is that run.
pub proof fn lemma_split_slash_first(a: Seq<char>, rest: Seq<char>)
    requires
        forall|i: int| 0 <= i < a.len() ==> #[trigger] a[i] != '/',
    ensures
        split_slash(a + seq!['/'] + rest) == seq![a] + split_slash(rest),
        split_slash(a) == seq![a],
{
    let stop = |c: char| c == '/';
    let tail = seq!['/'] + rest;
    let s = a + tail;
    assert(a + seq!['/'] + rest =~= s);
    assert forall|i: int| 0 <= i < a.len() implies !stop(#[trigger] a[i]) by {}
    lemma_run_len_prefix(a, tail, stop);
    assert(s.subrange(0, a.len() as int) =~= a);
    assert(s.subrange(a.len() as int + 1, s.len() as int) =~= rest);
    lemma_run_len_prefix(a, Seq::<char>::empty(), stop);
    assert(a + Seq::<char>::empty() =~= a);
}

/// Every character of a rank text is a digit from 1 to 8 or a piece letter.
pub proof fn lemma_rank_text_chars(row: Seq<Option<ChessPiece>>, i: int, empties: int)
    requires
        0 <= i <= row.len(),
        0 <= empties,
        empties + row.len() - i <= 8,
    ensures
        forall|k: int|
            0 <= k < rank_text_from(row, i, empties).len() ==> is_rank_char(
                #[trigger] rank_text_from(row, i, empties)[k],
            ),
        i < row.len() || empties > 0 ==> rank_text_from(row, i, empties).len() > 0,
    decreases row.len() - i,
{
    if i < row.len() {
        match row[i] {
            Some(piece) => {
                lemma_rank_text_chars(row, i + 1, 0);
                lemma_fen_characters(empties, piece);
                let text = rank_text_from(row, i, empties);
                let rest = rank_text_from(row, i + 1, 0);
                let head = if empties > 0 {
                    seq![digit_char(empties)]
                } else {
                    Seq::<char>::empty()
                };
                assert(text == head + seq![letter_of_piece(piece)] + rest);
                assert forall|k: int| 0 <= k < text.len() implies is_rank_char(
                    #[trigger] text[k],
                ) by {
                    if k < head.len() {
                        assert(text[k] == digit_char(empties));
                    } else if k == head.len() {
                        assert(text[k] == letter_of_piece(piece));
                    } else {
                        assert(text[k] == rest[k - head.len() - 1]);
                    }
                }
            },
            None => {
                lemma_rank_text_chars(row, i + 1, empties + 1);
            },
        }
    } else if empties > 0 {
        lemma_fen_characters(empties, arbitrary());
        let text = rank_text_from(row, i, empties);
        assert forall|k: int| 0 <= k < text.len() implies is_rank_char(#[trigger] text[k]) by {
            assert(text[k] == digit_char(empties));
        }
    }
}

/// Reading a character in front of a rank text: a digit stands for empty
/// squares, a letter for its piece.
pub proof fn lemma_parse_rank_cons(c: char, rest: Seq<char>)
    ensures
        parse_rank(seq![c] + rest) == match parse_rank(rest) {
            None => None,
            Some(squares) => match digit_value(c) {
                Some(n) => Some(empty_run(n) + squares),
                None => match piece_of_letter(c) {
                    Some(piece) => Some(seq![Some(piece)] + squares),
                    None => None,
                },
            },
        },
{
    let s = seq![c] + rest;
    assert(s.drop_first() =~= rest);
    assert(s[0] == c);
}

/// Reading the text of a rank gives back its squares.
pub proof fn lemma_parse_rank_text(row: Seq<Option<ChessPiece>>, i: int, empties: int)
    requires
        0 <= i <= row.len(),
        0 <= empties,
        empties + row.len() - i <= 8,
    ensures
        parse_rank(rank_text_from(row, i, empties)) == Some(
            empty_run(empties) + row.subrange(i, row.len() as int),
        ),
    decreases row.len() - i,
{
    let tail = row.subrange(i, row.len() as int);
    if i >= row.len() {
        assert(tail =~= Seq::<Option<ChessPiece>>::empty());
        if empties > 0 {
            lemma_fen_characters(empties, arbitrary());
            lemma_parse_rank_cons(digit_char(empties), Seq::<char>::empty());
            assert(seq![digit_char(empties)] + Seq::<char>::empty() =~= seq![digit_char(empties)]);
            assert(empty_run(empties) + Seq::<Option<ChessPiece>>::empty() =~= empty_run(empties)
                + tail);
        } else {
            assert(empty_run(0) + tail =~= Seq::<Option<ChessPiece>>::empty());
        }
    } else {
        let next = row.subrange(i + 1, row.len() as int);
        match row[i] {
            Some(piece) => {
                lemma_parse_rank_text(row, i + 1, 0);
                lemma_fen_characters(empties, piece);
                let rest = rank_text_from(row, i + 1, 0);
                let lettered = seq![letter_of_piece(piece)] + rest;
                lemma_parse_rank_cons(letter_of_piece(piece), rest);
                assert(empty_run(0) + next =~= next);
                assert(seq![Some(piece)] + next =~= tail);
                if empties > 0 {
                    lemma_parse_rank_cons(digit_char(empties), lettered);
                    assert(rank_text_from(row, i, empties) =~= seq![digit_char(empties)]
                        + lettered);
                } else {
                    assert(rank_text_from(row, i, empties) =~= lettered);
                    assert(empty_run(0) + tail =~= tail);
                }
            },
            None => {
                lemma_parse_rank_text(row, i + 1, empties + 1);
                assert(empty_run(empties + 1) + next =~= empty_run(empties) + tail);
            },
        }
    }
}

/// The placement text of the ranks from `rank` down splits at its slashes
/// into the texts of these ranks.
pub proof fn lemma_split_placement(squares: Seq<Option<ChessPiece>>, rank: int)
    requires
        squares.len() == 64,
        0 <= rank <= 7,
    ensures
        split_slash(placement_text_from(squares, rank)).len() == rank + 1,
        forall|k: int|
            0 <= k <= rank ==> #[trigger] split_slash(placement_text_from(squares, rank))[k]
                == rank_text_from(rank_row(squares, rank - k), 0, 0),
        forall|k: int|
            0 <= k < placement_text_from(squares, rank).len() ==> !is_space(
                #[trigger] placement_text_from(squares, rank)[k],
            ),
        placement_text_from(squares, rank).len() > 0,
    decreases rank,
{
    let row = rank_row(squares, rank);
    let text = rank_text_from(row, 0, 0);
    lemma_rank_text_chars(row, 0, 0);
    assert forall|i: int| 0 <= i < text.len() implies #[trigger] text[i] != '/' && !is_space(
        text[i],
    ) by {
        assert(is_rank_char(text[i]));
    }
    if rank == 0 {
        lemma_split_slash_first(text, Seq::<char>::empty());
    } else {
        lemma_split_placement(squares, rank - 1);
        let rest = placement_text_from(squares, rank - 1);
        lemma_split_slash_first(text, rest);
        let parts = split_slash(placement_text_from(squares, rank));
        assert(parts == seq![text] + split_slash(rest));
        assert forall|k: int| 0 <= k <= rank implies #[trigger] parts[k] == rank_text_from(
            rank_row(squares, rank - k),
            0,
            0,
        ) by {
            if k > 0 {
                assert(parts[k] == split_slash(rest)[k - 1]);
            }
        }
    }
}

/// Reading the placement text of 64 squares gives back the squares.
pub proof fn lemma_parse_placement_text(squares: Seq<Option<ChessPiece>>)
    requires
        squares.len() == 64,
    ensures
        parse_placement(placement_text_from(squares, 7)) == Some(squares),
{
    let text = placement_text_from(squares, 7);
    let ranks = split_slash(text);
    lemma_split_placement(squares, 7);
    assert forall|i: int| 0 <= i < 8 implies (#[trigger] parse_rank(ranks[i])) == Some(
        rank_row(squares, 7 - i),
    ) by {
        let row = rank_row(squares, 7 - i);
        lemma_parse_rank_text(row, 0, 0);
        assert(empty_run(0) + row.subrange(0, row.len() as int) =~= row);
    }
    assert(ranks_ok(ranks));
    let read = parse_placement(text)->0;
    assert forall|sq: int| 0 <= sq < 64 implies read[sq] == squares[sq] by {
        let i = 7 - sq / 8;
        assert(parse_rank(ranks[i]) == Some(rank_row(squares, 7 - i)));
        assert(rank_row(squares, sq / 8)[sq % 8] == squares[(sq / 8) * 8 + sq % 8]);
    }
    assert(read =~= squares);
}

/// A castling mask below 16 is the union of its four bits.
proof fn lemma_rights_bits(r: u8)
    by (bit_vector)
    requires
        r < 16,
    ensures
        (if r & 8 != 0 {
            8u8
        } else {
            0u8
        }) | (if r & 4 != 0 {
            4u8
        } else {
            0u8
        }) | (if r & 2 != 0 {
            2u8
        } else {
            0u8
        }) | (if r & 1 != 0 {
            1u8
        } else {
            0u8
        }) == r,
{
}

/// Reading the castling field of a castling mask gives back the mask.
pub proof fn lemma_rights_roundtrip(rights: u8)
    requires
        rights < 16,
    ensures
        rights_of_letters(rights_field(rights)) == rights,
        rights_field(rights).len() > 0,
        forall|k: int|
            0 <= k < rights_field(rights).len() ==> !is_space(#[trigger] rights_field(rights)[k]),
{
    let field = rights_field(rights);
    let letters = rights_letters(rights);
    let wk = rights & 8 != 0;
    let wq = rights & 4 != 0;
    let bk = rights & 2 != 0;
    let bq = rights & 1 != 0;
    let a = if wk {
        seq!['K']
    } else {
        Seq::<char>::empty()
    };
    let b = if wq {
        seq!['Q']
    } else {
        Seq::<char>::empty()
    };
    let c = if bk {
        seq!['k']
    } else {
        Seq::<char>::empty()
    };
    let d = if bq {
        seq!['q']
    } else {
        Seq::<char>::empty()
    };
    assert(letters == a + b + c + d);
    lemma_rights_bits(rights);
    assert forall|k: int| 0 <= k < letters.len() implies (#[trigger] letters[k] == 'K' && wk) || (
    letters[k] == 'Q' && wq) || (letters[k] == 'k' && bk) || (letters[k] == 'q' && bq) by {
        if k < a.len() {
            assert(letters[k] == a[k]);
        } else if k < a.len() + b.len() {
            assert(letters[k] == b[k - a.len()]);
        } else if k < a.len() + b.len() + c.len() {
            assert(letters[k] == c[k - a.len() - b.len()]);
        } else {
            assert(letters[k] == d[k - a.len() - b.len() - c.len()]);
        }
    }
    if wk {
        assert(letters[0] == 'K');
    }
    if wq {
        assert(letters[a.len() as int] == 'Q');
    }
    if bk {
        assert(letters[(a.len() + b.len()) as int] == 'k');
    }
    if bq {
        assert(letters[(a.len() + b.len() + c.len()) as int] == 'q');
    }
    if letters.len() == 0 {
        assert(field[0] == '-');
        assert(!field.contains('K')) by {
            if field.contains('K') {
                let i = choose|i: int| 0 <= i < field.len() && field[i] == 'K';
            }
        }
        assert(!field.contains('Q')) by {
            if field.contains('Q') {
                let i = choose|i: int| 0 <= i < field.len() && field[i] == 'Q';
            }
        }
        assert(!field.contains('k')) by {
            if field.contains('k') {
                let i = choose|i: int| 0 <= i < field.len() && field[i] == 'k';
            }
        }
        assert(!field.contains('q')) by {
            if field.contains('q') {
                let i = choose|i: int| 0 <= i < field.len() && field[i] == 'q';
            }
        }
    } else {
        assert(field.contains('K') == wk) by {
            if field.contains('K') {
                let i = choose|i: int| 0 <= i < field.len() && field[i] == 'K';
                assert(letters[i] == 'K');
            }
        }
        assert(field.contains('Q') == wq) by {
            if field.contains('Q') {
                let i = choose|i: int| 0 <= i < field.len() && field[i] == 'Q';
                assert(letters[i] == 'Q');
            }
        }
        assert(field.contains('k') == bk) by {
            if field.contains('k') {
                let i = choose|i: int| 0 <= i < field.len() && field[i] == 'k';
                assert(letters[i] == 'k');
            }
        }
        assert(field.contains('q') == bq) by {
            if field.contains('q') {
                let i = choose|i: int| 0 <= i < field.len() && field[i] == 'q';
                assert(letters[i] == 'q');
            }
        }
    }
}

/// Reading the FEN text of a position gives back its squares, its side to
/// move and its castling rights, with an empty history.
pub proof fn lemma_fen_roundtrip(p: Position)
    requires
        p.wf(),
    ensures
        parse_fen(fen_text(p)) == Some(
            Position {
                squares: p.squares,
                white_to_move: p.white_to_move,
                castling_rights: p.castling_rights,
                history: Seq::empty(),
            },
        ),
{
    let placement = placement_text_from(p.squares, 7);
    let side = seq![
        if p.white_to_move {
            'w'
        } else {
            'b'
        },
    ];
    let rights = rights_field(p.castling_rights);
    let tail = seq![' ', '-', ' ', '0', ' ', '1'];
    let rest3 = rights + tail;
    let rest2 = seq![' '] + rest3;
    let rest1 = side + rest2;
    let rest0 = seq![' '] + rest1;
    assert(fen_text(p) =~= placement + rest0);
    lemma_split_placement(p.squares, 7);
    lemma_parse_placement_text(p.squares);
    lemma_rights_roundtrip(p.castling_rights);
    lemma_split_fields_first(placement, rest0);
    lemma_split_fields_space(rest1);
    lemma_split_fields_first(side, rest2);
    lemma_split_fields_space(rest3);
    lemma_split_fields_first(rights, tail);
    let fields = split_fields(fen_text(p));
    assert(fields == seq![placement] + (seq![side] + (seq![rights] + split_fields(tail))));
    assert(fields[0] == placement);
    assert(fields[1] == side);
    assert(fields[2] == rights);
    assert(fields.len() >= 3);
    assert((side == seq!['w']) == p.white_to_move) by {
        if side == seq!['w'] {
            assert(side[0] == 'w');
        } else if p.white_to_move {
            assert(side =~= seq!['w']);
        }
    }
}

/// Setting a board from the FEN text of a well-formed board `a` gives it the
/// eight bitboards, the side to move and the castling rights of `a`, and no
/// last move, whatever it held before. Here `b` is the board after it was
/// set: well formed, and showing the position that the text describes.
pub proof fn lemma_board_fen_roundtrip(a: ChessBoard, b: ChessBoard)
    requires
        a.wf(),
        b.wf(),
        Some(b@) == parse_fen(fen_text(a@)),
    ensures
        b.white == a.white,
        b.black == a.black,
        b.pawns == a.pawns,
        b.knights == a.knights,
        b.bishops == a.bishops,
        b.rooks == a.rooks,
        b.queens == a.queens,
        b.kings == a.kings,
        b.white_to_move == a.white_to_move,
        b.castling_rights == a.castling_rights,
        b@.last_move() is None,
        b.move_history@.len() == 0,
{
    lemma_fen_roundtrip(a@);
    lemma_squares_determine_bitboards(a, b);
}

} // verus!
