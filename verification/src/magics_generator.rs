use crate::attacks::{
    bishop_attacks, bishop_mask, mask_scan, ray_scan, rook_attacks, rook_mask, slider_attacks,
    slider_mask,
};
use crate::bitboard::Bitboard;
use crate::bits::{bits_of, lemma_bits_bitwise, lemma_bits_of_injective};
use rand::Rng;
use vstd::prelude::*;

verus! {

/// The 64-bit word made of four words of 16 bits, the first in the lowest
/// bits.
pub open spec fn joined_words(w0: u16, w1: u16, w2: u16, w3: u16) -> u64 {
    (w0 as u64) | ((w1 as u64) << 16) | ((w2 as u64) << 32) | ((w3 as u64) << 48)
}

/// Whether every bit of `t` is a bit of `mask`.
pub open spec fn within(t: u64, mask: u64) -> bool {
    t & !mask == 0
}

/// The slot of an attack table in which a blocker set is looked up: the top
/// bits of its product with the magic multiplier.
pub open spec fn magic_index(blockers: u64, magic: u64, shift: u32) -> int {
    (blockers.wrapping_mul(magic) >> shift) as int
}

/// Whether `magic` is a magic multiplier for the slider on `sq`: two blocker
/// sets on its blocking squares that share a slot give the same attacks.
pub open spec fn is_magic(sq: int, ortho: bool, magic: u64, shift: u32) -> bool {
    forall|a: u64, b: u64|
        bits_of(a).subset_of(slider_mask(sq, ortho)) && bits_of(b).subset_of(
            slider_mask(sq, ortho),
        ) && #[trigger] magic_index(a, magic, shift) == #[trigger] magic_index(b, magic, shift)
            ==> slider_attacks(sq, bits_of(a), ortho) == slider_attacks(sq, bits_of(b), ortho)
}

/// Whether an attack table answers every blocker set on the blocking
/// squares of the slider on `sq` with its attacks.
pub open spec fn table_ok(
    table: Seq<Bitboard>,
    sq: int,
    ortho: bool,
    magic: u64,
    shift: u32,
) -> bool {
    forall|t: u64|
        bits_of(t).subset_of(slider_mask(sq, ortho)) ==> 0 <= #[trigger] magic_index(
            t,
            magic,
            shift,
        ) < table.len() && table[magic_index(t, magic, shift)]@ == slider_attacks(
            sq,
            bits_of(t),
            ortho,
        )
}

/// Whether every slot of an attack table in which no blocker set on the
/// blocking squares of the slider is looked up holds the empty set.
pub open spec fn free_slots_empty(
    table: Seq<Bitboard>,
    sq: int,
    ortho: bool,
    magic: u64,
    shift: u32,
) -> bool {
    forall|j: int|
        0 <= j < table.len() && (forall|t: u64|
            bits_of(t).subset_of(slider_mask(sq, ortho)) ==> #[trigger] magic_index(
                t,
                magic,
                shift,
            ) != j) ==> (#[trigger] table[j]).0 == 0
}

/// A word lies within a mask exactly when its bits are among the bits of
/// the mask.
pub proof fn lemma_within_subset(t: u64, mask: u64)
    ensures
        within(t, mask) == bits_of(t).subset_of(bits_of(mask)),
{
    lemma_bits_bitwise(t, mask);
    crate::bits::lemma_bits_constants();
    let rest = bits_of(t).difference(bits_of(mask));
    assert(bits_of(t & !mask) == rest);
    if bits_of(t).subset_of(bits_of(mask)) {
        assert(rest =~= Set::<int>::empty());
        crate::bits::lemma_bits_of_injective(t & !mask, 0);
    }
    if within(t, mask) {
        assert forall|i: int| bits_of(t).contains(i) implies bits_of(mask).contains(i) by {
            assert(!rest.contains(i));
        }
    }
}

/// The next subset of a mask lies within the mask and, unless it is the
/// empty set that follows the last subset, is greater than the subset
/// before it.
proof fn lemma_next_subset(sub: u64, mask: u64)
    by (bit_vector)
    requires
        sub & !mask == 0,
    ensures
        (sub.wrapping_sub(mask) & mask) & !mask == 0,
        sub <= mask,
        sub.wrapping_sub(mask) & mask != 0 ==> sub.wrapping_sub(mask) & mask > sub,
{
}

/// No subset of a mask lies between a subset and the next one.
proof fn lemma_next_subset_least(sub: u64, mask: u64, t: u64)
    by (bit_vector)
    requires
        sub & !mask == 0,
        t & !mask == 0,
        t > sub,
    ensures
        sub.wrapping_sub(mask) & mask != 0,
        t >= sub.wrapping_sub(mask) & mask,
{
}

/// The top `bits` bits of a word are a number below two to the power of
/// `bits`.
pub proof fn lemma_index_bound(x: u64, bits: u32, shift: u32)
    by (bit_vector)
    requires
        1 <= bits <= 12,
        shift == 64 - bits,
    ensures
        (1u64 << bits) <= 4096,
        (x >> shift) < (1u64 << bits),
        (x >> shift) & (((1u64 << bits) - 1) as u64) == x >> shift,
{
}

/// The top `bits` bits of a word are a number below two to the power of
/// `bits`, for up to 31 bits.
proof fn lemma_slot_bound(x: u64, bits: u32, shift: u32)
    by (bit_vector)
    requires
        1 <= bits <= 31,
        shift == 64 - bits,
    ensures
        (x >> shift) < 0x8000_0000,
        bits <= 12 ==> (x >> shift) < 4096,
        1 <= (1u64 << bits),
        (x >> shift) & (((1u64 << bits) - 1) as u64) == x >> shift,
{
}

/// A word cut down to a mask lies within the mask, and so does zero.
pub proof fn lemma_masked_within(occ: u64, mask: u64)
    by (bit_vector)
    ensures
        (occ & mask) & !mask == 0,
        0u64 & !mask == 0,
{
}

/// Every subset of `movement_mask`, in increasing order.
pub fn generate_blocker_bitboards(movement_mask: Bitboard) -> (r: Vec<Bitboard>)
    ensures
        forall|k: int| 0 <= k < r@.len() ==> within(#[trigger] r@[k].0, movement_mask.0),
        forall|t: u64| #[trigger]
            within(t, movement_mask.0) ==> exists|k: int|
                0 <= k < r@.len() && #[trigger] r@[k].0 == t,
        forall|i: int, j: int| 0 <= i < j < r@.len() ==> r@[i].0 < r@[j].0,
{
    let mask: u64 = movement_mask.0;
    let mut out: Vec<Bitboard> = Vec::new();
    let mut sub: u64 = 0;
    let mut done: bool = false;
    proof {
        lemma_masked_within(0, mask);
    }
    while !done
        invariant
            within(sub, mask),
            forall|k: int| 0 <= k < out@.len() ==> within(#[trigger] out@[k].0, mask),
            forall|i: int, j: int| 0 <= i < j < out@.len() ==> out@[i].0 < out@[j].0,
            !done ==> forall|k: int| 0 <= k < out@.len() ==> #[trigger] out@[k].0 < sub,
            !done ==> forall|t: u64| #[trigger]
                within(t, mask) && t < sub ==> exists|k: int|
                    0 <= k < out@.len() && #[trigger] out@[k].0 == t,
            done ==> forall|t: u64| #[trigger]
                within(t, mask) ==> exists|k: int| 0 <= k < out@.len() && #[trigger] out@[k].0 == t,
        decreases mask - sub + if done { 0int } else { 1int },
    {
        let ghost before = out@;
        out.push(Bitboard(sub));
        let next: u64 = sub.wrapping_sub(mask) & mask;
        proof {
            lemma_next_subset(sub, mask);
            lemma_next_subset(next, mask);
            assert forall|t: u64| #[trigger]
                within(t, mask) && (t < next || next == 0) implies exists|k: int|
                0 <= k < out@.len() && #[trigger] out@[k].0 == t by {
                if t > sub {
                    lemma_next_subset_least(sub, mask, t);
                }
                if t == sub {
                    assert(out@[before.len() as int].0 == t);
                } else {
                    let k = choose|k: int| 0 <= k < before.len() && #[trigger] before[k].0 == t;
                    assert(out@[k].0 == t);
                }
            }
        }
        if next == 0 {
            done = true;
        } else {
            sub = next;
        }
    }
    out
}

/// The tools with which magic multipliers are found and attack tables are
/// filled.
pub struct MagicGenerator {}

impl MagicGenerator {
    /// The table slot of a blocker set: the top `bits` bits of its product
    /// with the magic multiplier.
    pub fn transform(b: u64, magic: u64, bits: i32) -> (r: i32)
        requires
            1 <= bits <= 31,
        ensures
            r == magic_index(b, magic, (64 - bits) as u32),
            0 <= r,
            bits <= 12 ==> r < 4096,
    {
        let width: u32 = bits as u32;
        let shift: u32 = 64 - width;
        proof {
            lemma_slot_bound(b.wrapping_mul(magic), width, shift);
        }
        let low: u64 = (1u64 << width) - 1;
        (((b.wrapping_mul(magic)) >> shift) & low) as i32
    }

    /// The squares on which a piece can block a rook on `sq`.
    pub fn rmask(sq: i32) -> (r: u64)
        requires
            0 <= sq < 64,
        ensures
            bits_of(r) == rook_mask(sq as int),
    {
        let s: u16 = sq as u16;
        let a: u64 = mask_scan(s, 0, 1);
        let b: u64 = mask_scan(s, 0, -1);
        let c: u64 = mask_scan(s, 1, 0);
        let d: u64 = mask_scan(s, -1, 0);
        proof {
            lemma_bits_bitwise(a, b);
            lemma_bits_bitwise(a | b, c);
            lemma_bits_bitwise(a | b | c, d);
        }
        a | b | c | d
    }

    /// The squares on which a piece can block a bishop on `sq`.
    pub fn bmask(sq: i32) -> (r: u64)
        requires
            0 <= sq < 64,
        ensures
            bits_of(r) == bishop_mask(sq as int),
    {
        let s: u16 = sq as u16;
        let a: u64 = mask_scan(s, 1, 1);
        let b: u64 = mask_scan(s, -1, 1);
        let c: u64 = mask_scan(s, 1, -1);
        let d: u64 = mask_scan(s, -1, -1);
        proof {
            lemma_bits_bitwise(a, b);
            lemma_bits_bitwise(a | b, c);
            lemma_bits_bitwise(a | b | c, d);
        }
        a | b | c | d
    }

    /// The squares that a rook on `sq` attacks when the squares `block` are
    /// occupied.
    pub fn ratt(sq: i32, block: u64) -> (r: u64)
        requires
            0 <= sq < 64,
        ensures
            bits_of(r) == rook_attacks(sq as int, bits_of(block)),
    {
        let s: u16 = sq as u16;
        let a: u64 = ray_scan(s, 0, 1, block);
        let b: u64 = ray_scan(s, 0, -1, block);
        let c: u64 = ray_scan(s, 1, 0, block);
        let d: u64 = ray_scan(s, -1, 0, block);
        proof {
            lemma_bits_bitwise(a, b);
            lemma_bits_bitwise(a | b, c);
            lemma_bits_bitwise(a | b | c, d);
        }
        a | b | c | d
    }

    /// The squares that a bishop on `sq` attacks when the squares `block`
    /// are occupied.
    pub fn batt(sq: i32, block: u64) -> (r: u64)
        requires
            0 <= sq < 64,
        ensures
            bits_of(r) == bishop_attacks(sq as int, bits_of(block)),
    {
        let s: u16 = sq as u16;
        let a: u64 = ray_scan(s, 1, 1, block);
        let b: u64 = ray_scan(s, -1, 1, block);
        let c: u64 = ray_scan(s, 1, -1, block);
        let d: u64 = ray_scan(s, -1, -1, block);
        proof {
            lemma_bits_bitwise(a, b);
            lemma_bits_bitwise(a | b, c);
            lemma_bits_bitwise(a | b | c, d);
        }
        a | b | c | d
    }

    /// The squares on which a piece can block a bishop (`bishop`) or a rook
    /// on `sq`.
    pub fn mask_for(sq: i32, bishop: bool) -> (r: u64)
        requires
            0 <= sq < 64,
        ensures
            bits_of(r) == slider_mask(sq as int, !bishop),
    {
        if bishop {
            Self::bmask(sq)
        } else {
            Self::rmask(sq)
        }
    }

    /// The squares that a bishop (`bishop`) or a rook on `sq` attacks when
    /// the squares `block` are occupied.
    pub fn attacks_for(sq: i32, block: u64, bishop: bool) -> (r: u64)
        requires
            0 <= sq < 64,
        ensures
            bits_of(r) == slider_attacks(sq as int, bits_of(block), !bishop),
    {
        if bishop {
            Self::batt(sq, block)
        } else {
            Self::ratt(sq, block)
        }
    }

    /// Fills the attack table of the slider on `sq` for the multiplier
    /// `magic` with `bits` index bits, and says whether the multiplier is
    /// magic. If it is, the table answers every blocker set on the blocking
    /// squares of the slider.
    pub fn fill_table(sq: i32, magic: u64, bits: u32, bishop: bool) -> (r: (Vec<Bitboard>, bool))
        requires
            0 <= sq < 64,
            1 <= bits <= 12,
        ensures
            r.1 == is_magic(sq as int, !bishop, magic, (64 - bits) as u32),
            r.1 ==> table_ok(r.0@, sq as int, !bishop, magic, (64 - bits) as u32),
            r.1 ==> r.0@.len() == (1u64 << bits) && free_slots_empty(
                r.0@,
                sq as int,
                !bishop,
                magic,
                (64 - bits) as u32,
            ),
            !r.1 ==> r.0@.len() == 0,
    {
        let mask: u64 = Self::mask_for(sq, bishop);
        let shift: u32 = 64 - bits;
        let ghost ortho = !bishop;
        proof {
            lemma_index_bound(0, bits, shift);
        }
        let size: usize = (1u64 << bits) as usize;
        let mut table: Vec<Bitboard> = Vec::new();
        let mut used: Vec<bool> = Vec::new();
        let mut n: usize = 0;
        while n < size
            invariant
                n <= size,
                table@.len() == n,
                used@.len() == n,
                forall|j: int| 0 <= j < n ==> !used@[j],
                forall|j: int| 0 <= j < n ==> (#[trigger] table@[j]).0 == 0,
            decreases size - n,
        {
            table.push(Bitboard(0));
            used.push(false);
            n = n + 1;
        }
        let subsets: Vec<Bitboard> = generate_blocker_bitboards(Bitboard(mask));
        proof {
            assert forall|t: u64| #[trigger] within(t, mask) implies exists|k: int|
                0 <= k < subsets@.len() && #[trigger] subsets@[k].0 == t by {
                assert(within(t, Bitboard(mask).0));
            }
        }
        let ghost mut owner: Seq<u64> = Seq::new(size as nat, |j: int| 0u64);
        let mut i: usize = 0;
        while i < subsets.len()
            invariant
                0 <= sq < 64,
                1 <= bits <= 12,
                shift == 64 - bits,
                size == (1u64 << bits),
                ortho == !bishop,
                i <= subsets@.len(),
                table@.len() == size,
                used@.len() == size,
                owner.len() == size,
                bits_of(mask) == slider_mask(sq as int, ortho),
                forall|k: int| 0 <= k < subsets@.len() ==> within(#[trigger] subsets@[k].0, mask),
                forall|t: u64| #[trigger]
                    within(t, mask) ==> exists|k: int|
                        0 <= k < subsets@.len() && #[trigger] subsets@[k].0 == t,
                forall|j: int| 0 <= j < size && !used@[j] ==> (#[trigger] table@[j]).0 == 0,
                forall|j: int|
                    0 <= j < size && used@[j] ==> within(#[trigger] owner[j], mask) && magic_index(
                        owner[j],
                        magic,
                        shift,
                    ) == j && table@[j]@ == slider_attacks(sq as int, bits_of(owner[j]), ortho),
                forall|k: int|
                    0 <= k < i ==> {
                        let slot = #[trigger] magic_index(subsets@[k].0, magic, shift);
                        0 <= slot < size && used@[slot] && table@[slot]@ == slider_attacks(
                            sq as int,
                            bits_of(subsets@[k].0),
                            ortho,
                        )
                    },
            decreases subsets@.len() - i,
        {
            let blockers: u64 = subsets[i].0;
            proof {
                lemma_index_bound(blockers.wrapping_mul(magic), bits, shift);
            }
            let slot: usize = (blockers.wrapping_mul(magic) >> shift) as usize;
            let attack: u64 = Self::attacks_for(sq, blockers, bishop);
            if used[slot] {
                if table[slot].0 != attack {
                    proof {
                        let a = owner[slot as int];
                        assert(within(a, mask) && within(blockers, mask));
                        lemma_within_subset(a, mask);
                        lemma_within_subset(blockers, mask);
                        assert(magic_index(a, magic, shift) == magic_index(blockers, magic, shift));
                        if bits_of(table@[slot as int].0) == bits_of(attack) {
                            lemma_bits_of_injective(table@[slot as int].0, attack);
                        }
                        assert(slider_attacks(sq as int, bits_of(a), ortho) != slider_attacks(
                            sq as int,
                            bits_of(blockers),
                            ortho,
                        ));
                        assert(!is_magic(sq as int, ortho, magic, shift));
                    }
                    return (Vec::new(), false);
                }
            } else {
                table.set(slot, Bitboard(attack));
                used.set(slot, true);
                proof {
                    owner = owner.update(slot as int, blockers);
                }
            }
            i = i + 1;
        }
        proof {
            assert forall|t: u64| bits_of(t).subset_of(slider_mask(sq as int, ortho)) implies 0
                <= #[trigger] magic_index(t, magic, shift) < table@.len() && table@[magic_index(
                t,
                magic,
                shift,
            )]@ == slider_attacks(sq as int, bits_of(t), ortho) by {
                lemma_within_subset(t, mask);
                assert(within(t, mask));
                let k = choose|k: int| 0 <= k < subsets@.len() && #[trigger] subsets@[k].0 == t;
                assert(magic_index(subsets@[k].0, magic, shift) == magic_index(t, magic, shift));
            }
            assert(table_ok(table@, sq as int, ortho, magic, shift));
            assert forall|a: u64, b: u64|
                bits_of(a).subset_of(slider_mask(sq as int, ortho)) && bits_of(b).subset_of(
                    slider_mask(sq as int, ortho),
                ) && #[trigger] magic_index(a, magic, shift) == #[trigger] magic_index(
                    b,
                    magic,
                    shift,
                ) implies slider_attacks(sq as int, bits_of(a), ortho) == slider_attacks(
                sq as int,
                bits_of(b),
                ortho,
            ) by {}
            assert(is_magic(sq as int, ortho, magic, shift));
            assert forall|j: int|
                0 <= j < table@.len() && (forall|t: u64|
                    bits_of(t).subset_of(slider_mask(sq as int, ortho)) ==> #[trigger] magic_index(
                        t,
                        magic,
                        shift,
                    ) != j) implies (#[trigger] table@[j]).0 == 0 by {
                if used@[j] {
                    lemma_within_subset(owner[j], mask);
                    assert(magic_index(owner[j], magic, shift) == j);
                }
            }
        }
        (table, true)
    }

    /// Whether `magic` is a magic multiplier with `bits` index bits for the
    /// slider on `sq`.
    pub fn is_magic_for(sq: i32, magic: u64, bits: i32, bishop: bool) -> (r: bool)
        requires
            0 <= sq < 64,
            1 <= bits <= 12,
        ensures
            r == is_magic(sq as int, !bishop, magic, (64 - bits) as u32),
    {
        let filled = Self::fill_table(sq, magic, bits as u32, bishop);
        filled.1
    }

    /// The 64-bit word made of four words of 16 bits, the first in the
    /// lowest bits.
    pub fn join_words(w0: u16, w1: u16, w2: u16, w3: u16) -> (r: u64)
        ensures
            r == joined_words(w0, w1, w2, w3),
    {
        let u1: u64 = w0 as u64;
        let u2: u64 = w1 as u64;
        let u3: u64 = w2 as u64;
        let u4: u64 = w3 as u64;
        u1 | (u2 << 16) | (u3 << 32) | (u4 << 48)
    }

    /// The bits that three words share.
    pub fn shared_bits(a: u64, b: u64, c: u64) -> (r: u64)
        ensures
            r == a & b & c,
            bits_of(r) == bits_of(a).intersect(bits_of(b)).intersect(bits_of(c)),
    {
        proof {
            lemma_bits_bitwise(a, b);
            lemma_bits_bitwise(a & b, c);
        }
        a & b & c
    }

    /// A random 64-bit word, drawn as four words of 16 bits.
    pub fn random_uint64() -> (r: u64) {
        let w0: u16 = random_u16();
        let w1: u16 = random_u16();
        let w2: u16 = random_u16();
        let w3: u16 = random_u16();
        Self::join_words(w0, w1, w2, w3)
    }

    /// A random 64-bit word with few bits set: the bits that three random
    /// words share.
    pub fn random_uint64_fewbits() -> (r: u64) {
        let a: u64 = Self::random_uint64();
        let b: u64 = Self::random_uint64();
        let c: u64 = Self::random_uint64();
        Self::shared_bits(a, b, c)
    }

    /// Whether a candidate multiplier is worth a full test: its product with
    /// the mask has at least six bits in the top byte.
    pub fn is_promising(mask: u64, magic: u64) -> (r: bool)
        ensures
            r == (crate::bits::count_bits(mask.wrapping_mul(magic) & 0xFF00_0000_0000_0000) >= 6),
    {
        Bitboard(mask.wrapping_mul(magic) & 0xFF00_0000_0000_0000).count_ones() >= 6
    }

    /// Whether a candidate multiplier is taken for the slider on `sq`: it is
    /// promising for the mask of the slider, and it is magic with `m` index
    /// bits.
    pub fn accepts_candidate(sq: i32, m: i32, bishop: bool, candidate: u64) -> (r: bool)
        requires
            0 <= sq < 64,
            1 <= m <= 12,
        ensures
            r == (is_magic(sq as int, !bishop, candidate, (64 - m) as u32)
                && crate::bits::count_bits(
                crate::bits::word_of(slider_mask(sq as int, !bishop)).wrapping_mul(candidate)
                    & 0xFF00_0000_0000_0000,
            ) >= 6),
    {
        let mask: u64 = Self::mask_for(sq, bishop);
        proof {
            crate::bits::lemma_word_of(mask);
        }
        Self::is_promising(mask, candidate) && Self::is_magic_for(sq, candidate, m, bishop)
    }

    /// Draws random candidates, at most `attempts` of them, until one is
    /// taken as the magic multiplier with `m` index bits for the slider on
    /// `sq`.
    pub fn find_magic_within(sq: i32, m: i32, bishop: bool, attempts: u64) -> (r: Option<u64>)
        requires
            0 <= sq < 64,
            1 <= m <= 12,
        ensures
            r is Some ==> is_magic(sq as int, !bishop, r->0, (64 - m) as u32),
            attempts == 0 ==> r is None,
    {
        let mut tried: u64 = 0;
        while tried < attempts
            invariant
                0 <= sq < 64,
                1 <= m <= 12,
            decreases attempts - tried,
        {
            let candidate: u64 = Self::random_uint64_fewbits();
            if Self::accepts_candidate(sq, m, bishop, candidate) {
                return Some(candidate);
            }
            tried = tried + 1;
        }
        None
    }

    /// Draws random candidates, at most a hundred million of them, until one
    /// is a magic multiplier with `m` index bits for the slider on `sq`.
    pub fn find_magic(sq: i32, m: i32, bishop: bool) -> (r: Option<u64>)
        requires
            0 <= sq < 64,
            1 <= m <= 12,
        ensures
            r is Some ==> is_magic(sq as int, !bishop, r->0, (64 - m) as u32),
    {
        Self::find_magic_within(sq, m, bishop, 100_000_000)
    }
}

/// `rand::thread_rng().gen::<u16>()` returns a 16-bit word drawn by the
/// thread's random number generator; nothing is known of its value.
#[verifier::external_body]
fn random_u16() -> (r: u16) {
    rand::thread_rng().gen::<u16>()
}

} // verus!
