use vstd::prelude::*;
use vstd::std_specs::bits::{axiom_u64_trailing_zeros, u64_trailing_zeros};

verus! {

/// Whether bit `i` of `x` is set. No bit is set outside `0..64`.
pub open spec fn bit_at(x: u64, i: int) -> bool {
    0 <= i < 64 && (x >> (i as u64)) & 1 == 1
}

/// The set of indices whose bit is set in `x`.
pub open spec fn bits_of(x: u64) -> Set<int> {
    Set::new(|i: int| bit_at(x, i))
}

/// Every index of the 64-bit word.
pub open spec fn all_squares() -> Set<int> {
    Set::new(|i: int| 0 <= i < 64)
}

/// Number of set bits of `x` among the indices below `n`.
pub open spec fn count_below(x: u64, n: int) -> nat
    decreases n,
{
    if n <= 0 {
        0
    } else {
        count_below(x, n - 1) + if bit_at(x, n - 1) {
            1nat
        } else {
            0nat
        }
    }
}

/// Number of set bits of `x`.
pub open spec fn count_bits(x: u64) -> nat {
    count_below(x, 64)
}

/// Bit by bit, `|`, `&`, `^` and `!` are or, and, exclusive or and not.
proof fn lemma_bv_bitwise(a: u64, b: u64, i: u64)
    by (bit_vector)
    requires
        i < 64,
    ensures
        (((a | b) >> i) & 1 == 1) == (((a >> i) & 1 == 1) || ((b >> i) & 1 == 1)),
        (((a & b) >> i) & 1 == 1) == (((a >> i) & 1 == 1) && ((b >> i) & 1 == 1)),
        (((a ^ b) >> i) & 1 == 1) == (((a >> i) & 1 == 1) != ((b >> i) & 1 == 1)),
        (((!a) >> i) & 1 == 1) == !((a >> i) & 1 == 1),
        (0u64 >> i) & 1 == 0,
        (0xffff_ffff_ffff_ffffu64 >> i) & 1 == 1,
{
}

/// The word `1 << j` has the bit `j` alone.
proof fn lemma_bv_single(j: u64, i: u64)
    by (bit_vector)
    requires
        i < 64,
        j < 64,
    ensures
        (((1u64 << j) >> i) & 1 == 1) == (i == j),
{
}

/// Two words that agree in each of their 64 bits are equal.
proof fn lemma_bv_equal(a: u64, b: u64)
    by (bit_vector)
    requires
        (a >> 0u64) & 1 == (b >> 0u64) & 1,
        (a >> 1u64) & 1 == (b >> 1u64) & 1,
        (a >> 2u64) & 1 == (b >> 2u64) & 1,
        (a >> 3u64) & 1 == (b >> 3u64) & 1,
        (a >> 4u64) & 1 == (b >> 4u64) & 1,
        (a >> 5u64) & 1 == (b >> 5u64) & 1,
        (a >> 6u64) & 1 == (b >> 6u64) & 1,
        (a >> 7u64) & 1 == (b >> 7u64) & 1,
        (a >> 8u64) & 1 == (b >> 8u64) & 1,
        (a >> 9u64) & 1 == (b >> 9u64) & 1,
        (a >> 10u64) & 1 == (b >> 10u64) & 1,
        (a >> 11u64) & 1 == (b >> 11u64) & 1,
        (a >> 12u64) & 1 == (b >> 12u64) & 1,
        (a >> 13u64) & 1 == (b >> 13u64) & 1,
        (a >> 14u64) & 1 == (b >> 14u64) & 1,
        (a >> 15u64) & 1 == (b >> 15u64) & 1,
        (a >> 16u64) & 1 == (b >> 16u64) & 1,
        (a >> 17u64) & 1 == (b >> 17u64) & 1,
        (a >> 18u64) & 1 == (b >> 18u64) & 1,
        (a >> 19u64) & 1 == (b >> 19u64) & 1,
        (a >> 20u64) & 1 == (b >> 20u64) & 1,
        (a >> 21u64) & 1 == (b >> 21u64) & 1,
        (a >> 22u64) & 1 == (b >> 22u64) & 1,
        (a >> 23u64) & 1 == (b >> 23u64) & 1,
        (a >> 24u64) & 1 == (b >> 24u64) & 1,
        (a >> 25u64) & 1 == (b >> 25u64) & 1,
        (a >> 26u64) & 1 == (b >> 26u64) & 1,
        (a >> 27u64) & 1 == (b >> 27u64) & 1,
        (a >> 28u64) & 1 == (b >> 28u64) & 1,
        (a >> 29u64) & 1 == (b >> 29u64) & 1,
        (a >> 30u64) & 1 == (b >> 30u64) & 1,
        (a >> 31u64) & 1 == (b >> 31u64) & 1,
        (a >> 32u64) & 1 == (b >> 32u64) & 1,
        (a >> 33u64) & 1 == (b >> 33u64) & 1,
        (a >> 34u64) & 1 == (b >> 34u64) & 1,
        (a >> 35u64) & 1 == (b >> 35u64) & 1,
        (a >> 36u64) & 1 == (b >> 36u64) & 1,
        (a >> 37u64) & 1 == (b >> 37u64) & 1,
        (a >> 38u64) & 1 == (b >> 38u64) & 1,
        (a >> 39u64) & 1 == (b >> 39u64) & 1,
        (a >> 40u64) & 1 == (b >> 40u64) & 1,
        (a >> 41u64) & 1 == (b >> 41u64) & 1,
        (a >> 42u64) & 1 == (b >> 42u64) & 1,
        (a >> 43u64) & 1 == (b >> 43u64) & 1,
        (a >> 44u64) & 1 == (b >> 44u64) & 1,
        (a >> 45u64) & 1 == (b >> 45u64) & 1,
        (a >> 46u64) & 1 == (b >> 46u64) & 1,
        (a >> 47u64) & 1 == (b >> 47u64) & 1,
        (a >> 48u64) & 1 == (b >> 48u64) & 1,
        (a >> 49u64) & 1 == (b >> 49u64) & 1,
        (a >> 50u64) & 1 == (b >> 50u64) & 1,
        (a >> 51u64) & 1 == (b >> 51u64) & 1,
        (a >> 52u64) & 1 == (b >> 52u64) & 1,
        (a >> 53u64) & 1 == (b >> 53u64) & 1,
        (a >> 54u64) & 1 == (b >> 54u64) & 1,
        (a >> 55u64) & 1 == (b >> 55u64) & 1,
        (a >> 56u64) & 1 == (b >> 56u64) & 1,
        (a >> 57u64) & 1 == (b >> 57u64) & 1,
        (a >> 58u64) & 1 == (b >> 58u64) & 1,
        (a >> 59u64) & 1 == (b >> 59u64) & 1,
        (a >> 60u64) & 1 == (b >> 60u64) & 1,
        (a >> 61u64) & 1 == (b >> 61u64) & 1,
        (a >> 62u64) & 1 == (b >> 62u64) & 1,
        (a >> 63u64) & 1 == (b >> 63u64) & 1,
    ensures
        a == b,
{
}

/// The bits of `a | b`, `a & b`, `a ^ b` and `!a` are the union, the
/// intersection, the symmetric difference and the complement of the bits of
/// the operands.
pub proof fn lemma_bits_bitwise(a: u64, b: u64)
    ensures
        forall|i: int| #[trigger] bit_at(a | b, i) == (bit_at(a, i) || bit_at(b, i)),
        forall|i: int| #[trigger] bit_at(a & b, i) == (bit_at(a, i) && bit_at(b, i)),
        forall|i: int| #[trigger] bit_at(a ^ b, i) == (bit_at(a, i) != bit_at(b, i)),
        forall|i: int| #[trigger] bit_at(!a, i) == (0 <= i < 64 && !bit_at(a, i)),
        bits_of(a | b) == bits_of(a).union(bits_of(b)),
        bits_of(a & b) == bits_of(a).intersect(bits_of(b)),
        bits_of(a & !b) == bits_of(a).difference(bits_of(b)),
{
    assert forall|i: int| #[trigger] bit_at(a | b, i) == (bit_at(a, i) || bit_at(b, i)) by {
        if 0 <= i < 64 {
            lemma_bv_bitwise(a, b, i as u64);
        }
    }
    assert forall|i: int| #[trigger] bit_at(a & b, i) == (bit_at(a, i) && bit_at(b, i)) by {
        if 0 <= i < 64 {
            lemma_bv_bitwise(a, b, i as u64);
        }
    }
    assert forall|i: int| #[trigger] bit_at(a ^ b, i) == (bit_at(a, i) != bit_at(b, i)) by {
        if 0 <= i < 64 {
            lemma_bv_bitwise(a, b, i as u64);
        }
    }
    assert forall|i: int| #[trigger] bit_at(!a, i) == (0 <= i < 64 && !bit_at(a, i)) by {
        if 0 <= i < 64 {
            lemma_bv_bitwise(a, b, i as u64);
        }
    }
    assert forall|i: int| #[trigger] bit_at(a & !b, i) == (bit_at(a, i) && !bit_at(b, i)) by {
        if 0 <= i < 64 {
            lemma_bv_bitwise(b, b, i as u64);
            lemma_bv_bitwise(a, !b, i as u64);
        }
    }
    assert(bits_of(a | b) =~= bits_of(a).union(bits_of(b)));
    assert(bits_of(a & b) =~= bits_of(a).intersect(bits_of(b)));
    assert(bits_of(a & !b) =~= bits_of(a).difference(bits_of(b)));
}

/// The empty word has no bit, the full word has every bit, and `1 << j` has
/// the bit `j` alone.
pub proof fn lemma_bits_constants()
    ensures
        bits_of(0) == Set::<int>::empty(),
        bits_of(0xffff_ffff_ffff_ffff) == all_squares(),
        forall|i: int| !#[trigger] bit_at(0, i),
        forall|j: u64, i: int| j < 64 ==> (#[trigger] bit_at(1u64 << j, i) == (i == j)),
        forall|j: u64| j < 64 ==> #[trigger] bits_of(1u64 << j) == set![j as int],
{
    assert forall|i: int| !#[trigger] bit_at(0, i) by {
        if 0 <= i < 64 {
            lemma_bv_bitwise(0, 0, i as u64);
        }
    }
    assert forall|i: int| #[trigger] bit_at(0xffff_ffff_ffff_ffff, i) == (0 <= i < 64) by {
        if 0 <= i < 64 {
            lemma_bv_bitwise(0, 0, i as u64);
        }
    }
    assert forall|j: u64, i: int| j < 64 implies (#[trigger] bit_at(1u64 << j, i) == (i == j)) by {
        if 0 <= i < 64 {
            lemma_bv_single(j, i as u64);
        }
    }
    assert(bits_of(0) =~= Set::<int>::empty());
    assert(bits_of(0xffff_ffff_ffff_ffff) =~= all_squares());
    assert forall|j: u64| j < 64 implies #[trigger] bits_of(1u64 << j) == set![j as int] by {
        assert(bits_of(1u64 << j) =~= set![j as int]);
    }
}

/// Two words with the same bits are equal.
pub proof fn lemma_bits_injective(a: u64, b: u64)
    requires
        forall|i: int| 0 <= i < 64 ==> bit_at(a, i) == bit_at(b, i),
    ensures
        a == b,
{
    assert forall|i: u64| i < 64 implies (a >> i) & 1 == (b >> i) & 1 by {
        assert(bit_at(a, i as int) == bit_at(b, i as int));
        let x = (a >> i) & 1;
        let y = (b >> i) & 1;
        assert(x == 0 || x == 1) by (bit_vector)
            requires
                x == (a >> i) & 1,
        ;
        assert(y == 0 || y == 1) by (bit_vector)
            requires
                y == (b >> i) & 1,
        ;
    }
    lemma_bv_equal(a, b);
}

/// Two words with the same set of bits are equal.
pub proof fn lemma_bits_of_injective(a: u64, b: u64)
    requires
        bits_of(a) == bits_of(b),
    ensures
        a == b,
{
    assert forall|i: int| 0 <= i < 64 implies bit_at(a, i) == bit_at(b, i) by {
        assert(bits_of(a).contains(i) == bit_at(a, i));
        assert(bits_of(b).contains(i) == bit_at(b, i));
    }
    lemma_bits_injective(a, b);
}

/// The word whose bits are the given set, if there is one.
pub open spec fn word_of(s: Set<int>) -> u64 {
    choose|w: u64| bits_of(w) == s
}

/// The word of the bits of a word is that word.
pub proof fn lemma_word_of(w: u64)
    ensures
        word_of(bits_of(w)) == w,
{
    let found = word_of(bits_of(w));
    assert(bits_of(found) == bits_of(w));
    lemma_bits_of_injective(found, w);
}

/// The bits of a word form a finite set of at most 64 squares.
pub proof fn lemma_bits_finite(a: u64)
    ensures
        bits_of(a).finite(),
        bits_of(a).subset_of(all_squares()),
{
    let full = vstd::set_lib::set_int_range(0, 64);
    vstd::set_lib::lemma_int_range(0, 64);
    assert(bits_of(a).subset_of(full));
    vstd::set_lib::lemma_len_subset(bits_of(a), full);
}

/// For a word that is not zero, the number of trailing zeros is the index of
/// its lowest set bit.
pub proof fn lemma_lowest_bit(x: u64)
    requires
        x != 0,
    ensures
        u64_trailing_zeros(x) < 64,
        bit_at(x, u64_trailing_zeros(x) as int),
        forall|j: int| 0 <= j < u64_trailing_zeros(x) ==> !bit_at(x, j),
{
    axiom_u64_trailing_zeros(x);
    let tz = u64_trailing_zeros(x);
    assert forall|j: int| 0 <= j < tz implies !bit_at(x, j) by {
        assert((x >> (j as u64)) & 1u64 == 0u64);
    }
}

} // verus!
