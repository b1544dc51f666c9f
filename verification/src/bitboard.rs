use crate::bits::{
    all_squares, bit_at, bits_of, count_below, count_bits, lemma_bits_bitwise, lemma_bits_constants,
    lemma_bits_finite, lemma_bits_injective, lemma_bits_of_injective, lemma_lowest_bit,
};
use vstd::prelude::*;
use vstd::std_specs::bits::u64_trailing_zeros;

verus! {

/// A set of squares of the chessboard, held as one 64-bit word: bit `i` is set
/// exactly when square `i` belongs to the set.
#[derive(Debug, Clone, Copy, PartialEq, Eq, Hash, Structural)]
pub struct Bitboard(pub u64);

impl View for Bitboard {
    type V = Set<int>;

    open spec fn view(&self) -> Set<int> {
        bits_of(self.0)
    }
}

/// The squares that the four edge constants cover together.
pub const ALL_EDGES: u64 = 0x7e81_8181_8181_817e;

/// The first of the top, bottom, left and right edge constants that shares
/// a square with `position`, or the full board when none does.
pub open spec fn edge_word(position: Set<int>) -> u64 {
    if !position.disjoint(bits_of(Bitboard::TOP_EDGE)) {
        Bitboard::TOP_EDGE
    } else if !position.disjoint(bits_of(Bitboard::BOTTOM_EDGE)) {
        Bitboard::BOTTOM_EDGE
    } else if !position.disjoint(bits_of(Bitboard::LEFT_EDGE)) {
        Bitboard::LEFT_EDGE
    } else if !position.disjoint(bits_of(Bitboard::RIGHT_EDGE)) {
        Bitboard::RIGHT_EDGE
    } else {
        0xffff_ffff_ffff_ffffu64
    }
}

impl Bitboard {
    /// The six inner squares of rank 8.
    pub const TOP_EDGE: u64 = 0x7e00_0000_0000_0000;

    /// The six inner squares of rank 1.
    pub const BOTTOM_EDGE: u64 = 0x0000_0000_0000_007e;

    /// The six inner squares of file h.
    pub const LEFT_EDGE: u64 = 0x0080_8080_8080_8000;

    /// The six inner squares of file a.
    pub const RIGHT_EDGE: u64 = 0x0001_0101_0101_0100;

    /// The empty set.
    pub fn new() -> (r: Bitboard)
        ensures
            r.0 == 0,
            r@ == Set::<int>::empty(),
    {
        proof {
            lemma_bits_constants();
        }
        Bitboard(0)
    }

    /// The set of all 64 squares.
    pub fn max() -> (r: Bitboard)
        ensures
            r.0 == 0xffff_ffff_ffff_ffff,
            r@ == all_squares(),
    {
        proof {
            lemma_bits_constants();
        }
        Bitboard(0xFFFF_FFFF_FFFF_FFFF)
    }

    /// The set that holds the square `index` alone.
    pub fn from_square_index(index: u16) -> (r: Bitboard)
        requires
            index < 64,
        ensures
            r.0 == 1u64 << (index as u64),
            r@ == set![index as int],
    {
        proof {
            lemma_bits_constants();
        }
        Bitboard(1u64 << (index as u64))
    }

    /// The union of the four edge constants.
    pub fn from_edges() -> (r: Bitboard)
        ensures
            r.0 == ALL_EDGES,
            r@ == bits_of(Self::TOP_EDGE).union(bits_of(Self::BOTTOM_EDGE)).union(
                bits_of(Self::LEFT_EDGE),
            ).union(bits_of(Self::RIGHT_EDGE)),
    {
        let t = Bitboard(Self::TOP_EDGE).or(Bitboard(Self::BOTTOM_EDGE));
        let u = t.or(Bitboard(Self::LEFT_EDGE));
        let r = u.or(Bitboard(Self::RIGHT_EDGE));
        assert(0x7e00_0000_0000_0000u64 | 0x0000_0000_0000_007eu64 | 0x0080_8080_8080_8000u64
            | 0x0001_0101_0101_0100u64 == 0x7e81_8181_8181_817eu64) by (bit_vector);
        r
    }

    /// The first of the top, bottom, left and right edge constants that
    /// `piece_position` meets, or the full board when it meets none.
    pub fn edge_mask(piece_position: Bitboard) -> (r: Bitboard)
        ensures
            r.0 == edge_word(piece_position@),
    {
        proof {
            lemma_disjoint_empty(piece_position@, bits_of(Self::TOP_EDGE));
            lemma_disjoint_empty(piece_position@, bits_of(Self::BOTTOM_EDGE));
            lemma_disjoint_empty(piece_position@, bits_of(Self::LEFT_EDGE));
            lemma_disjoint_empty(piece_position@, bits_of(Self::RIGHT_EDGE));
        }
        if !piece_position.and(Bitboard(Self::TOP_EDGE)).is_empty() {
            Bitboard(Self::TOP_EDGE)
        } else if !piece_position.and(Bitboard(Self::BOTTOM_EDGE)).is_empty() {
            Bitboard(Self::BOTTOM_EDGE)
        } else if !piece_position.and(Bitboard(Self::LEFT_EDGE)).is_empty() {
            Bitboard(Self::LEFT_EDGE)
        } else if !piece_position.and(Bitboard(Self::RIGHT_EDGE)).is_empty() {
            Bitboard(Self::RIGHT_EDGE)
        } else {
            Bitboard::max()
        }
    }

    /// The number of squares in the set.
    pub fn count_ones(&self) -> (r: u32)
        ensures
            r == count_bits(self.0),
            r <= 64,
    {
        let mut n: u32 = 0;
        let mut i: u64 = 0;
        while i < 64
            invariant
                i <= 64,
                n <= i,
                n == count_below(self.0, i as int),
            decreases 64 - i,
        {
            if (self.0 >> i) & 1 == 1 {
                n = n + 1;
            }
            i = i + 1;
        }
        n
    }

    /// The empty set.
    pub fn default() -> (r: Bitboard)
        ensures
            r.0 == 0,
            r@ == Set::<int>::empty(),
    {
        Bitboard::new()
    }

    /// Whether the set holds no square.
    pub fn is_empty(&self) -> (r: bool)
        ensures
            r == (self.0 == 0),
            r == (self@ == Set::<int>::empty()),
    {
        proof {
            lemma_bits_constants();
            if self@ == Set::<int>::empty() {
                lemma_bits_of_injective(self.0, 0);
            }
        }
        self.0 == 0
    }

    /// Whether the square `index` belongs to the set. An index outside the
    /// board belongs to no set.
    pub fn contains_square(&self, index: i32) -> (r: bool)
        ensures
            r == self@.contains(index as int),
    {
        if index < 0 || index >= 64 {
            false
        } else {
            self.is_set(index as usize)
        }
    }

    /// Removes the lowest square of the set and returns it.
    pub fn pop_lsb(&mut self) -> (r: usize)
        requires
            old(self).0 != 0,
        ensures
            r < 64,
            r == u64_trailing_zeros(old(self).0),
            old(self)@.contains(r as int),
            forall|j: int| 0 <= j < r ==> !old(self)@.contains(j),
            final(self)@ == old(self)@.remove(r as int),
    {
        proof {
            lemma_lowest_bit(self.0);
        }
        let lsb = self.0.trailing_zeros() as usize;
        self.clear_bit(lsb);
        lsb
    }

    /// Adds the square `index` to the set.
    pub fn set_bit(&mut self, index: usize)
        requires
            index < 64,
        ensures
            final(self).0 == old(self).0 | (1u64 << (index as u64)),
            final(self)@ == old(self)@.insert(index as int),
    {
        proof {
            lemma_bits_constants();
            lemma_bits_bitwise(self.0, 1u64 << (index as u64));
            assert(bits_of(self.0).union(set![index as int]) =~= bits_of(self.0).insert(
                index as int,
            ));
        }
        self.0 = self.0 | (1u64 << (index as u64));
    }

    /// Removes the square `index` from the set.
    pub fn clear_bit(&mut self, index: usize)
        requires
            index < 64,
        ensures
            final(self).0 == old(self).0 & !(1u64 << (index as u64)),
            final(self)@ == old(self)@.remove(index as int),
    {
        proof {
            lemma_bits_constants();
            lemma_bits_bitwise(self.0, 1u64 << (index as u64));
            assert(bits_of(self.0).difference(set![index as int]) =~= bits_of(self.0).remove(
                index as int,
            ));
        }
        self.0 = self.0 & !(1u64 << (index as u64));
    }

    /// Whether the square `index` belongs to the set. An index outside the
    /// board belongs to no set.
    pub fn is_set(&self, index: usize) -> (r: bool)
        ensures
            r == self@.contains(index as int),
    {
        if index >= 64 {
            false
        } else {
            let bit: u64 = 1u64 << (index as u64);
            proof {
                lemma_bits_constants();
                lemma_bits_bitwise(self.0, bit);
                lemma_bits_constants();
                if self.0 & bit == 0 {
                    assert(!bit_at(self.0 & bit, index as int));
                } else {
                    if !bit_at(self.0, index as int) {
                        assert forall|i: int| 0 <= i < 64 implies bit_at(self.0 & bit, i) == bit_at(
                            0,
                            i,
                        ) by {}
                        lemma_bits_injective(self.0 & bit, 0);
                    }
                }
            }
            (self.0 & bit) != 0
        }
    }

    /// The squares that belong to both sets.
    pub fn and(&self, other: Bitboard) -> (r: Bitboard)
        ensures
            r.0 == self.0 & other.0,
            r@ == self@.intersect(other@),
    {
        proof {
            lemma_bits_bitwise(self.0, other.0);
        }
        Bitboard(self.0 & other.0)
    }

    /// The squares that belong to either set.
    pub fn or(&self, other: Bitboard) -> (r: Bitboard)
        ensures
            r.0 == self.0 | other.0,
            r@ == self@.union(other@),
    {
        proof {
            lemma_bits_bitwise(self.0, other.0);
        }
        Bitboard(self.0 | other.0)
    }

    /// The squares that belong to exactly one of the two sets.
    pub fn xor(&self, other: Bitboard) -> (r: Bitboard)
        ensures
            r.0 == self.0 ^ other.0,
            forall|i: int| r@.contains(i) == (self@.contains(i) != other@.contains(i)),
    {
        proof {
            lemma_bits_bitwise(self.0, other.0);
        }
        Bitboard(self.0 ^ other.0)
    }

    /// The squares of the board that do not belong to the set.
    pub fn not(&self) -> (r: Bitboard)
        ensures
            r.0 == !self.0,
            r@ == all_squares().difference(self@),
    {
        proof {
            lemma_bits_bitwise(self.0, self.0);
            assert(bits_of(!self.0) =~= all_squares().difference(self@));
        }
        Bitboard(!self.0)
    }

    /// The squares of this set that do not belong to `other`.
    pub fn and_not(&self, other: Bitboard) -> (r: Bitboard)
        ensures
            r.0 == self.0 & !other.0,
            r@ == self@.difference(other@),
    {
        proof {
            lemma_bits_bitwise(self.0, other.0);
        }
        Bitboard(self.0 & !other.0)
    }

    /// The set drawn as eight lines of eight characters, rank 8 first and
    /// each rank from file a to file h, `1` for a square of the set and `0`
    /// for any other, with a line feed after each rank.
    pub fn to_text(&self) -> (r: String)
        ensures
            r@ == grid_text(self@, 64),
    {
        let mut text: String = String::new();
        let mut k: usize = 0;
        while k < 64
            invariant
                k <= 64,
                text@ == grid_text(self@, k as int),
            decreases 64 - k,
        {
            let square: usize = (7 - k / 8) * 8 + k % 8;
            let ghost before = text@;
            if self.is_set(square) {
                text.push('1');
            } else {
                text.push('0');
            }
            if k % 8 == 7 {
                text.push('\n');
            }
            k = k + 1;
            proof {
                assert(text@ =~= grid_text(self@, k as int));
            }
        }
        text
    }

    /// Replaces the set by the squares at which `board` holds a value other
    /// than zero.
    pub fn set_from_board_array(&mut self, board: &Vec<u8>)
        requires
            board.len() >= 64,
        ensures
            final(self)@ == Set::new(|i: int| 0 <= i < 64 && board[i] != 0),
    {
        let mut bitboard = Bitboard::new();
        let mut i: usize = 0;
        while i < 64
            invariant
                i <= 64,
                board.len() >= 64,
                bitboard@ == Set::new(|j: int| 0 <= j < i && board[j] != 0),
            decreases 64 - i,
        {
            let ghost before = bitboard@;
            if board[i] != 0 {
                bitboard.set_bit(i);
            }
            i = i + 1;
            assert(bitboard@ =~= Set::new(|j: int| 0 <= j < i && board[j] != 0));
        }
        *self = bitboard;
    }

    /// The squares at which `board` holds a value other than zero.
    pub fn from_board_array(board: &Vec<u8>) -> (r: Bitboard)
        requires
            board.len() <= 64,
        ensures
            r@ == Set::new(|i: int| 0 <= i < board.len() && board[i] != 0),
    {
        let mut bitboard = Bitboard::new();
        let mut i: usize = 0;
        while i < board.len()
            invariant
                i <= board.len() <= 64,
                bitboard@ == Set::new(|j: int| 0 <= j < i && board[j] != 0),
            decreases board.len() - i,
        {
            if board[i] != 0 {
                bitboard.set_bit(i);
            }
            i = i + 1;
            assert(bitboard@ =~= Set::new(|j: int| 0 <= j < i && board[j] != 0));
        }
        bitboard
    }
}

/// The first `n` cells of the drawing of a set of squares, rank 8 first.
pub open spec fn grid_text(squares: Set<int>, n: int) -> Seq<char>
    decreases n,
{
    if n <= 0 {
        Seq::empty()
    } else {
        let k = n - 1;
        let cell = seq![
            if squares.contains((7 - k / 8) * 8 + k % 8) {
                '1'
            } else {
                '0'
            },
        ];
        grid_text(squares, k) + cell + if k % 8 == 7 {
            seq!['\n']
        } else {
            Seq::<char>::empty()
        }
    }
}

/// Two sets are disjoint exactly when they share no element.
proof fn lemma_disjoint_empty(a: Set<int>, b: Set<int>)
    ensures
        a.disjoint(b) == (a.intersect(b) == Set::<int>::empty()),
{
    if a.disjoint(b) {
        assert(a.intersect(b) =~= Set::<int>::empty());
    } else {
        let x = choose|x: int| a.contains(x) && b.contains(x);
        assert(a.intersect(b).contains(x));
    }
}

/// Two bitboards that hold the same squares are the same word.
pub proof fn lemma_bitboard_view_injective(a: Bitboard, b: Bitboard)
    requires
        a@ == b@,
    ensures
        a == b,
{
    lemma_bits_of_injective(a.0, b.0);
}

/// Every square of a bitboard lies on the board.
pub proof fn lemma_bitboard_in_range(a: Bitboard)
    ensures
        forall|i: int| a@.contains(i) ==> 0 <= i < 64,
        a@.finite(),
{
    lemma_bits_finite(a.0);
}

} // verus!
