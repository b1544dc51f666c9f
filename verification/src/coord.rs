use crate::board_helper::{index_from_coord, on_board, square_at};
use vstd::prelude::*;

verus! {

/// A file and a rank, each counted from 0; either may lie off the board.
#[derive(Debug, Clone, Copy, PartialEq, Eq, PartialOrd, Ord, Structural)]
pub struct Coord {
    pub file_index: i32,
    pub rank_index: i32,
}

impl Coord {
    /// The coordinate with the given file and rank.
    pub fn new(file_index: i32, rank_index: i32) -> (r: Coord)
        ensures
            r == (Coord { file_index, rank_index }),
    {
        Coord { file_index, rank_index }
    }

    /// The coordinate of a square.
    pub fn from_square_index(square_index: i32) -> (r: Coord)
        requires
            0 <= square_index < 64,
        ensures
            r.file_index == square_index % 8,
            r.rank_index == square_index / 8,
            r.valid(),
    {
        Coord { file_index: square_index % 8, rank_index: square_index / 8 }
    }

    /// Whether the coordinate lies on the board.
    pub open spec fn valid(&self) -> bool {
        on_board(self.file_index as int, self.rank_index as int)
    }

    /// Whether the sum of file and rank is odd.
    pub fn is_light_square(&self) -> (r: bool)
        ensures
            r == ((self.file_index + self.rank_index) % 2 != 0),
    {
        let f: bool = self.file_index % 2 != 0;
        let k: bool = self.rank_index % 2 != 0;
        f != k
    }

    /// Whether the coordinate lies on the board.
    pub fn is_valid_square(&self) -> (r: bool)
        ensures
            r == self.valid(),
    {
        self.file_index >= 0 && self.file_index < 8 && self.rank_index >= 0 && self.rank_index < 8
    }

    /// The square index of the coordinate.
    pub fn square_index(&self) -> (r: i32)
        requires
            i32::MIN <= square_at(self.file_index as int, self.rank_index as int) <= i32::MAX,
            i32::MIN <= self.rank_index * 8 <= i32::MAX,
        ensures
            r == square_at(self.file_index as int, self.rank_index as int),
    {
        index_from_coord(self)
    }

    /// The sum of two coordinates, file by file and rank by rank.
    pub fn add(self, other: Coord) -> (r: Coord)
        requires
            i32::MIN <= self.file_index + other.file_index <= i32::MAX,
            i32::MIN <= self.rank_index + other.rank_index <= i32::MAX,
        ensures
            r.file_index == self.file_index + other.file_index,
            r.rank_index == self.rank_index + other.rank_index,
    {
        Coord {
            file_index: self.file_index + other.file_index,
            rank_index: self.rank_index + other.rank_index,
        }
    }

    /// The difference of two coordinates, file by file and rank by rank.
    pub fn sub(self, other: Coord) -> (r: Coord)
        requires
            i32::MIN <= self.file_index - other.file_index <= i32::MAX,
            i32::MIN <= self.rank_index - other.rank_index <= i32::MAX,
        ensures
            r.file_index == self.file_index - other.file_index,
            r.rank_index == self.rank_index - other.rank_index,
    {
        Coord {
            file_index: self.file_index - other.file_index,
            rank_index: self.rank_index - other.rank_index,
        }
    }

    /// The coordinate with file and rank multiplied by `m`.
    pub fn mul(self, m: i32) -> (r: Coord)
        requires
            i32::MIN <= self.file_index * m <= i32::MAX,
            i32::MIN <= self.rank_index * m <= i32::MAX,
        ensures
            r.file_index == self.file_index * m,
            r.rank_index == self.rank_index * m,
    {
        Coord { file_index: self.file_index * m, rank_index: self.rank_index * m }
    }

    /// The coordinate moved by `steps` times the direction `(file_step, rank_step)`.
    pub fn offset(&self, file_step: i32, rank_step: i32, steps: i32) -> (r: Coord)
        requires
            self.valid(),
            -1 <= file_step <= 1,
            -1 <= rank_step <= 1,
            0 <= steps <= 8,
        ensures
            r.file_index == self.file_index + file_step * steps,
            r.rank_index == self.rank_index + rank_step * steps,
    {
        assert(-8 <= file_step * steps <= 8) by (nonlinear_arith)
            requires
                -1 <= file_step <= 1,
                0 <= steps <= 8,
        ;
        assert(-8 <= rank_step * steps <= 8) by (nonlinear_arith)
            requires
                -1 <= rank_step <= 1,
                0 <= steps <= 8,
        ;
        Coord {
            file_index: self.file_index + file_step * steps,
            rank_index: self.rank_index + rank_step * steps,
        }
    }
}

} // verus!
