use crate::attacks::{king_targets, knight_targets, pawn_attack_targets};
use crate::bitboard::{edge_word, Bitboard, ALL_EDGES};
use crate::bits::bits_of;
use crate::piece_patterns::{
    get_king_move_patterns, get_knight_move_patterns, get_pawn_move_patterns, pawn_push_targets,
};
use crate::position::{is_square, sq_file, sq_rank};
use vstd::prelude::*;

verus! {

/// The squares on the rank or on the file of `sq`, but for `sq` itself.
pub open spec fn rook_lines(sq: int) -> Set<int> {
    Set::new(
        |t: int| is_square(t) && t != sq && (sq_rank(t) == sq_rank(sq) || sq_file(t) == sq_file(sq)),
    )
}

/// The squares on the two diagonals of `sq`, but for `sq` itself.
pub open spec fn bishop_lines(sq: int) -> Set<int> {
    Set::new(
        |t: int|
            is_square(t) && t != sq && (sq_rank(t) + sq_file(t) == sq_rank(sq) + sq_file(sq)
                || sq_rank(t) - sq_file(t) == sq_rank(sq) - sq_file(sq)),
    )
}

/// The edge squares that a move pattern from `sq` leaves out: every edge
/// square, but for those of the edge on which `sq` itself lies.
pub open spec fn left_out_edges(sq: int) -> Set<int> {
    bits_of(ALL_EDGES).difference(bits_of(edge_word(set![sq])))
}

/// The move pattern of a rook on `sq`: its lines without the edge squares
/// that are left out.
pub open spec fn rook_move_pattern(sq: int) -> Set<int> {
    rook_lines(sq).difference(left_out_edges(sq))
}

/// The move pattern of a bishop on `sq`: its diagonals without the edge
/// squares that are left out.
pub open spec fn bishop_move_pattern(sq: int) -> Set<int> {
    bishop_lines(sq).difference(left_out_edges(sq))
}

/// The squares on the lines of a rook, or on the diagonals of a bishop
/// (`diagonal`), through `square`, but for `square` itself.
pub fn line_pattern(square: usize, diagonal: bool) -> (r: Bitboard)
    requires
        square < 64,
    ensures
        r@ == if diagonal {
            bishop_lines(square as int)
        } else {
            rook_lines(square as int)
        },
{
    let row: usize = square / 8;
    let col: usize = square % 8;
    let mut pattern = Bitboard::new();
    let mut target: usize = 0;
    let ghost lines = if diagonal {
        bishop_lines(square as int)
    } else {
        rook_lines(square as int)
    };
    while target < 64
        invariant
            target <= 64,
            square < 64,
            row == square / 8,
            col == square % 8,
            lines == if diagonal {
                bishop_lines(square as int)
            } else {
                rook_lines(square as int)
            },
            pattern@ == Set::new(|t: int| t < target && lines.contains(t)),
        decreases 64 - target,
    {
        let to_row: usize = target / 8;
        let to_col: usize = target % 8;
        let on_line: bool = if diagonal {
            to_row + to_col == row + col || to_row + col == row + to_col
        } else {
            to_row == row || to_col == col
        };
        if target != square && on_line {
            pattern.set_bit(target);
        }
        target = target + 1;
        proof {
            assert(pattern@ =~= Set::new(|t: int| t < target && lines.contains(t)));
        }
    }
    proof {
        assert(pattern@ =~= lines);
    }
    pattern
}

/// The lines of `pattern` without the edge squares that are left out for
/// `square`.
pub fn without_edges(pattern: Bitboard, square: usize) -> (r: Bitboard)
    requires
        square < 64,
    ensures
        r@ == pattern@.difference(left_out_edges(square as int)),
{
    let special_case_mask = Bitboard::edge_mask(Bitboard::from_square_index(square as u16)).not();
    let mask = Bitboard::from_edges().and(special_case_mask).not();
    let kept = pattern.and(mask);
    proof {
        crate::bitboard::lemma_bitboard_in_range(pattern);
        assert(kept@ =~= pattern@.difference(left_out_edges(square as int)));
    }
    kept
}

/// For each square, the move pattern of a rook on it.
pub fn get_rook_move_patterns() -> (r: Vec<Bitboard>)
    ensures
        r@.len() == 64,
        forall|sq: int| 0 <= sq < 64 ==> (#[trigger] r@[sq])@ == rook_move_pattern(sq),
{
    let mut move_patterns: Vec<Bitboard> = Vec::new();
    let mut square: usize = 0;
    while square < 64
        invariant
            square <= 64,
            move_patterns@.len() == square,
            forall|sq: int|
                0 <= sq < square ==> (#[trigger] move_patterns@[sq])@ == rook_move_pattern(sq),
        decreases 64 - square,
    {
        let move_pattern = line_pattern(square, false);
        move_patterns.push(without_edges(move_pattern, square));
        square = square + 1;
    }
    move_patterns
}

/// For each square, the move pattern of a bishop on it.
pub fn get_bishop_move_patterns() -> (r: Vec<Bitboard>)
    ensures
        r@.len() == 64,
        forall|sq: int| 0 <= sq < 64 ==> (#[trigger] r@[sq])@ == bishop_move_pattern(sq),
{
    let mut move_patterns: Vec<Bitboard> = Vec::new();
    let mut square: usize = 0;
    while square < 64
        invariant
            square <= 64,
            move_patterns@.len() == square,
            forall|sq: int|
                0 <= sq < square ==> (#[trigger] move_patterns@[sq])@ == bishop_move_pattern(sq),
        decreases 64 - square,
    {
        let move_pattern = line_pattern(square, true);
        move_patterns.push(without_edges(move_pattern, square));
        square = square + 1;
    }
    move_patterns
}

/// The pushes and the captures of a pawn on one square, each for White
/// first and for Black second.
pub struct PawnMovePatterns {
    pub moves: (Bitboard, Bitboard),
    pub captures: (Bitboard, Bitboard),
}

/// The move patterns of all pieces, one for each square.
pub struct MovePatterns {
    pub rook_move_patterns: Vec<Bitboard>,
    pub bishop_move_patterns: Vec<Bitboard>,
    pub knight_move_patterns: Vec<Bitboard>,
    pub king_move_patterns: Vec<Bitboard>,
    pub pawn_move_patterns: Vec<PawnMovePatterns>,
}

impl MovePatterns {
    /// Whether the patterns of one square are those of the pieces.
    pub open spec fn square_ok(&self, sq: int) -> bool {
        &&& self.rook_move_patterns@[sq]@ == rook_move_pattern(sq)
        &&& self.bishop_move_patterns@[sq]@ == bishop_move_pattern(sq)
        &&& self.knight_move_patterns@[sq]@ == knight_targets(sq)
        &&& self.king_move_patterns@[sq]@ == king_targets(sq)
        &&& self.pawn_move_patterns@[sq].moves.0@ == pawn_push_targets(true, sq)
        &&& self.pawn_move_patterns@[sq].moves.1@ == pawn_push_targets(false, sq)
        &&& self.pawn_move_patterns@[sq].captures.0@ == pawn_attack_targets(true, sq)
        &&& self.pawn_move_patterns@[sq].captures.1@ == pawn_attack_targets(false, sq)
    }

    /// Whether there are patterns for each of the 64 squares, and they are
    /// those of the pieces.
    pub open spec fn wf(&self) -> bool {
        &&& self.rook_move_patterns@.len() == 64
        &&& self.bishop_move_patterns@.len() == 64
        &&& self.knight_move_patterns@.len() == 64
        &&& self.king_move_patterns@.len() == 64
        &&& self.pawn_move_patterns@.len() == 64
        &&& forall|sq: int| 0 <= sq < 64 ==> #[trigger] self.square_ok(sq)
    }

    /// The move patterns of all pieces.
    pub fn new() -> (r: MovePatterns)
        ensures
            r.wf(),
    {
        let pawns = get_pawn_move_patterns();
        let mut pawn_move_patterns: Vec<PawnMovePatterns> = Vec::new();
        let mut square: usize = 0;
        while square < 64
            invariant
                square <= 64,
                pawns@.len() == 64,
                pawn_move_patterns@.len() == square,
                forall|sq: int|
                    0 <= sq < square ==> (#[trigger] pawn_move_patterns@[sq]).moves == pawns@[sq].0
                        && pawn_move_patterns@[sq].captures == pawns@[sq].1,
            decreases 64 - square,
        {
            let entry = pawns[square];
            pawn_move_patterns.push(PawnMovePatterns { moves: entry.0, captures: entry.1 });
            square = square + 1;
        }
        let patterns = MovePatterns {
            rook_move_patterns: get_rook_move_patterns(),
            bishop_move_patterns: get_bishop_move_patterns(),
            knight_move_patterns: get_knight_move_patterns(),
            king_move_patterns: get_king_move_patterns(),
            pawn_move_patterns,
        };
        proof {
            assert forall|sq: int| 0 <= sq < 64 implies #[trigger] patterns.square_ok(sq) by {
                let entry = pawns@[sq];
                assert(patterns.pawn_move_patterns@[sq].moves == entry.0);
            }
        }
        patterns
    }
}

} // verus!
