use vstd::prelude::*;

verus! {

/// The bonus of a white pawn on each square, from a1 to h8.
pub const PAWN_TABLE: [i32; 64] = [
    0, 0, 0, 0, 0, 0, 0, 0,
    5, 10, 10, -20, -20, 10, 10, 5,
    5, -5, -10, 0, 0, -10, -5, 5,
    0, 0, 0, 20, 20, 0, 0, 0,
    5, 5, 10, 25, 25, 10, 5, 5,
    10, 10, 20, 30, 30, 20, 10, 10,
    50, 50, 50, 50, 50, 50, 50, 50,
    0, 0, 0, 0, 0, 0, 0, 0,
];

/// The bonus of a pawn of the given colour on `sq`: White reads the table
/// at the square, Black at the square mirrored through the centre.
pub open spec fn pawn_bonus(sq: int, white: bool) -> int {
    if white {
        PAWN_TABLE[sq] as int
    } else {
        PAWN_TABLE[63 - sq] as int
    }
}

/// Every entry of the pawn table lies between -20 and 50.
pub proof fn lemma_pawn_table_bounds(sq: int)
    requires
        0 <= sq < 64,
    ensures
        -20 <= PAWN_TABLE[sq] <= 50,
{
}

/// The bonus of a pawn of the given colour on `square`.
pub fn evaluate_pawn_position(square: usize, is_white: bool) -> (r: i32)
    requires
        square < 64,
    ensures
        r == pawn_bonus(square as int, is_white),
        -20 <= r <= 50,
{
    proof {
        lemma_pawn_table_bounds(square as int);
        lemma_pawn_table_bounds(63 - square);
    }
    if is_white {
        PAWN_TABLE[square]
    } else {
        PAWN_TABLE[63 - square]
    }
}

} // verus!
