use crate::coord::Coord;
use vstd::prelude::*;

verus! {

/// File of a square: 0 for file a up to 7 for file h.
pub open spec fn file_of(sq: int) -> int {
    sq % 8
}

/// Rank of a square: 0 for rank 1 up to 7 for rank 8.
pub open spec fn rank_of(sq: int) -> int {
    sq / 8
}

/// The square on the given file and rank.
pub open spec fn square_at(file: int, rank: int) -> int {
    rank * 8 + file
}

/// Whether file and rank both lie on the board.
pub open spec fn on_board(file: int, rank: int) -> bool {
    0 <= file < 8 && 0 <= rank < 8
}

/// For 16-bit words, the low three bits are the remainder by 8 and a shift by
/// three is the quotient by 8.
pub proof fn lemma_file_rank_bits(x: u16)
    by (bit_vector)
    ensures
        x & 7 == x % 8,
        x >> 3 == x / 8,
{
}

/// File of a square.
pub fn file_index(square_index: u16) -> (r: u16)
    ensures
        r == file_of(square_index as int),
        r < 8,
{
    proof {
        lemma_file_rank_bits(square_index);
    }
    square_index & 0b000111
}

/// Rank of a square.
pub fn rank_index(square_index: u16) -> (r: u16)
    ensures
        r == rank_of(square_index as int),
{
    proof {
        lemma_file_rank_bits(square_index);
    }
    square_index >> 3
}

/// The square index of a coordinate.
pub fn index_from_coord(coord: &Coord) -> (r: i32)
    requires
        i32::MIN <= square_at(coord.file_index as int, coord.rank_index as int) <= i32::MAX,
        i32::MIN <= coord.rank_index * 8 <= i32::MAX,
    ensures
        r == square_at(coord.file_index as int, coord.rank_index as int),
{
    coord.rank_index * 8 + coord.file_index
}

/// Row and column of a square in a grid printed from rank 8 down to rank 1.
pub fn square_index_to_board_row_col(index: i32) -> (r: (usize, usize))
    requires
        0 <= index < 64,
    ensures
        r.0 == 7 - rank_of(index as int),
        r.1 == file_of(index as int),
{
    let col: i32 = index % 8;
    let row: i32 = 7 - index / 8;
    (row as usize, col as usize)
}

/// The square at a row and column of a grid printed from rank 8 down to rank 1.
pub fn board_row_col_to_square_index(row: usize, col: usize) -> (r: u16)
    requires
        row < 8,
        col < 8,
    ensures
        r == square_at(col as int, 7 - row),
{
    ((7 - row) * 8 + col) as u16
}

} // verus!
