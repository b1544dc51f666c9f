use crate::attacks::{king_targets, knight_targets, pawn_attack_targets};
use crate::bitboard::Bitboard;
use crate::position::{is_square, sq_rank};
use vstd::prelude::*;

verus! {

/// The squares to which a pawn of the given colour on `sq` can be pushed on
/// an empty board: one rank ahead, and two ranks ahead from its start rank.
pub open spec fn pawn_push_targets(white: bool, sq: int) -> Set<int> {
    Set::new(
        |t: int|
            is_square(t) && if white {
                t == sq + 8 || (sq_rank(sq) == 1 && t == sq + 16)
            } else {
                t == sq - 8 || (sq_rank(sq) == 6 && t == sq - 16)
            },
    )
}

/// A knight's target lies at one of eight offsets from its square.
pub proof fn lemma_knight_offsets(sq: int, t: int)
    requires
        is_square(sq),
        knight_targets(sq).contains(t),
    ensures
        t - sq == -17 || t - sq == -15 || t - sq == -10 || t - sq == -6 || t - sq == 6 || t - sq
            == 10 || t - sq == 15 || t - sq == 17,
{
}

/// A king's target lies at one of eight offsets from its square.
pub proof fn lemma_king_offsets(sq: int, t: int)
    requires
        is_square(sq),
        king_targets(sq).contains(t),
    ensures
        t - sq == -9 || t - sq == -8 || t - sq == -7 || t - sq == -1 || t - sq == 1 || t - sq == 7
            || t - sq == 8 || t - sq == 9,
{
}

/// Adds the square at `offset` from `square` to the pattern if a knight on
/// `square` attacks it.
fn knight_hop(pattern: &mut Bitboard, square: i32, offset: i32)
    requires
        0 <= square < 64,
        -17 <= offset <= 17,
    ensures
        final(pattern)@ == if knight_targets(square as int).contains(square + offset) {
            old(pattern)@.insert(square + offset)
        } else {
            old(pattern)@
        },
{
    let to_square: i32 = square + offset;
    if to_square >= 0 && to_square < 64 {
        let row_diff: i32 = to_square / 8 - square / 8;
        let col_diff: i32 = to_square % 8 - square % 8;
        let rows: i32 = if row_diff < 0 {
            -row_diff
        } else {
            row_diff
        };
        let cols: i32 = if col_diff < 0 {
            -col_diff
        } else {
            col_diff
        };
        if rows + cols == 3 && rows != 0 && cols != 0 {
            pattern.set_bit(to_square as usize);
        }
    }
}

/// Adds the square at `offset` from `square` to the pattern if a king on
/// `square` attacks it.
fn king_hop(pattern: &mut Bitboard, square: i32, offset: i32)
    requires
        0 <= square < 64,
        -9 <= offset <= 9,
        offset != 0,
    ensures
        final(pattern)@ == if king_targets(square as int).contains(square + offset) {
            old(pattern)@.insert(square + offset)
        } else {
            old(pattern)@
        },
{
    let to_square: i32 = square + offset;
    if to_square >= 0 && to_square < 64 {
        let row_diff: i32 = to_square / 8 - square / 8;
        let col_diff: i32 = to_square % 8 - square % 8;
        let rows: i32 = if row_diff < 0 {
            -row_diff
        } else {
            row_diff
        };
        let cols: i32 = if col_diff < 0 {
            -col_diff
        } else {
            col_diff
        };
        if rows <= 1 && cols <= 1 {
            pattern.set_bit(to_square as usize);
        }
    }
}

/// The squares that a knight on `square` attacks.
pub fn knight_pattern(square: i32) -> (r: Bitboard)
    requires
        0 <= square < 64,
    ensures
        r@ == knight_targets(square as int),
{
    let mut pattern = Bitboard::new();
    knight_hop(&mut pattern, square, -17);
    knight_hop(&mut pattern, square, -15);
    knight_hop(&mut pattern, square, -10);
    knight_hop(&mut pattern, square, -6);
    knight_hop(&mut pattern, square, 6);
    knight_hop(&mut pattern, square, 10);
    knight_hop(&mut pattern, square, 15);
    knight_hop(&mut pattern, square, 17);
    proof {
        assert forall|t: int| knight_targets(square as int).contains(t) implies pattern@.contains(
            t,
        ) by {
            lemma_knight_offsets(square as int, t);
        }
        assert(pattern@ =~= knight_targets(square as int));
    }
    pattern
}

/// The squares that a king on `square` attacks.
pub fn king_pattern(square: i32) -> (r: Bitboard)
    requires
        0 <= square < 64,
    ensures
        r@ == king_targets(square as int),
{
    let mut pattern = Bitboard::new();
    king_hop(&mut pattern, square, -9);
    king_hop(&mut pattern, square, -8);
    king_hop(&mut pattern, square, -7);
    king_hop(&mut pattern, square, -1);
    king_hop(&mut pattern, square, 1);
    king_hop(&mut pattern, square, 7);
    king_hop(&mut pattern, square, 8);
    king_hop(&mut pattern, square, 9);
    proof {
        assert forall|t: int| king_targets(square as int).contains(t) implies pattern@.contains(
            t,
        ) by {
            lemma_king_offsets(square as int, t);
        }
        assert(pattern@ =~= king_targets(square as int));
    }
    pattern
}

/// For each square, the squares that a knight on it attacks.
pub fn get_knight_move_patterns() -> (r: Vec<Bitboard>)
    ensures
        r@.len() == 64,
        forall|sq: int| 0 <= sq < 64 ==> (#[trigger] r@[sq])@ == knight_targets(sq),
{
    let mut move_patterns: Vec<Bitboard> = Vec::new();
    let mut square: i32 = 0;
    while square < 64
        invariant
            0 <= square <= 64,
            move_patterns@.len() == square,
            forall|sq: int| 0 <= sq < square ==> (#[trigger] move_patterns@[sq])@ == knight_targets(sq),
        decreases 64 - square,
    {
        move_patterns.push(knight_pattern(square));
        square = square + 1;
    }
    move_patterns
}

/// For each square, the squares that a king on it attacks.
pub fn get_king_move_patterns() -> (r: Vec<Bitboard>)
    ensures
        r@.len() == 64,
        forall|sq: int| 0 <= sq < 64 ==> (#[trigger] r@[sq])@ == king_targets(sq),
{
    let mut move_patterns: Vec<Bitboard> = Vec::new();
    let mut square: i32 = 0;
    while square < 64
        invariant
            0 <= square <= 64,
            move_patterns@.len() == square,
            forall|sq: int| 0 <= sq < square ==> (#[trigger] move_patterns@[sq])@ == king_targets(sq),
        decreases 64 - square,
    {
        move_patterns.push(king_pattern(square));
        square = square + 1;
    }
    move_patterns
}

/// The squares that a pawn of the given colour on `square` attacks.
pub fn pawn_attack_pattern(square: usize, is_white: bool) -> (r: Bitboard)
    requires
        square < 64,
    ensures
        r@ == pawn_attack_targets(is_white, square as int),
{
    let mut attacks = Bitboard::new();
    let col: usize = square % 8;
    if is_white {
        if square < 56 {
            if col > 0 {
                attacks.set_bit(square + 7);
            }
            if col < 7 {
                attacks.set_bit(square + 9);
            }
        }
    } else {
        if square > 7 {
            if col > 0 {
                attacks.set_bit(square - 9);
            }
            if col < 7 {
                attacks.set_bit(square - 7);
            }
        }
    }
    proof {
        assert(attacks@ =~= pawn_attack_targets(is_white, square as int));
    }
    attacks
}

/// The squares to which a pawn of the given colour on `square` can be
/// pushed on an empty board.
pub fn pawn_push_pattern(square: usize, is_white: bool) -> (r: Bitboard)
    requires
        square < 64,
    ensures
        r@ == pawn_push_targets(is_white, square as int),
{
    let mut moves = Bitboard::new();
    let row: usize = square / 8;
    if is_white {
        if row < 7 {
            moves.set_bit(square + 8);
            if row == 1 {
                moves.set_bit(square + 16);
            }
        }
    } else {
        if row > 0 {
            moves.set_bit(square - 8);
            if row == 6 {
                moves.set_bit(square - 16);
            }
        }
    }
    proof {
        assert(moves@ =~= pawn_push_targets(is_white, square as int));
    }
    moves
}

/// For each square, the pushes of a white and of a black pawn on it, and
/// the squares that a white and a black pawn on it attack.
pub fn get_pawn_move_patterns() -> (r: Vec<((Bitboard, Bitboard), (Bitboard, Bitboard))>)
    ensures
        r@.len() == 64,
        forall|sq: int|
            0 <= sq < 64 ==> {
                let entry = #[trigger] r@[sq];
                &&& entry.0.0@ == pawn_push_targets(true, sq)
                &&& entry.0.1@ == pawn_push_targets(false, sq)
                &&& entry.1.0@ == pawn_attack_targets(true, sq)
                &&& entry.1.1@ == pawn_attack_targets(false, sq)
            },
{
    let mut move_patterns: Vec<((Bitboard, Bitboard), (Bitboard, Bitboard))> = Vec::new();
    let mut square: usize = 0;
    while square < 64
        invariant
            square <= 64,
            move_patterns@.len() == square,
            forall|sq: int|
                0 <= sq < square ==> {
                    let entry = #[trigger] move_patterns@[sq];
                    &&& entry.0.0@ == pawn_push_targets(true, sq)
                    &&& entry.0.1@ == pawn_push_targets(false, sq)
                    &&& entry.1.0@ == pawn_attack_targets(true, sq)
                    &&& entry.1.1@ == pawn_attack_targets(false, sq)
                },
        decreases 64 - square,
    {
        let white_moves = pawn_push_pattern(square, true);
        let black_moves = pawn_push_pattern(square, false);
        let white_captures = pawn_attack_pattern(square, true);
        let black_captures = pawn_attack_pattern(square, false);
        move_patterns.push(((white_moves, black_moves), (white_captures, black_captures)));
        square = square + 1;
    }
    move_patterns
}

} // verus!
