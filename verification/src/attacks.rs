use crate::bitboard::Bitboard;
use crate::bits::bits_of;
use crate::board_helper::{on_board, square_at};
use crate::position::{is_square, sq_file, sq_rank};
use vstd::prelude::*;

verus! {

/// Absolute value of an integer.
pub open spec fn abs(x: int) -> int {
    if x < 0 {
        -x
    } else {
        x
    }
}

/// The squares that a knight on `sq` attacks: those at a distance of one
/// file and two ranks, or of two files and one rank.
pub open spec fn knight_targets(sq: int) -> Set<int> {
    Set::new(
        |t: int|
            is_square(t) && {
                let df = abs(sq_file(t) - sq_file(sq));
                let dr = abs(sq_rank(t) - sq_rank(sq));
                (df == 1 && dr == 2) || (df == 2 && dr == 1)
            },
    )
}

/// The squares that a king on `sq` attacks: the squares next to it.
pub open spec fn king_targets(sq: int) -> Set<int> {
    Set::new(
        |t: int|
            is_square(t) && t != sq && abs(sq_file(t) - sq_file(sq)) <= 1 && abs(
                sq_rank(t) - sq_rank(sq),
            ) <= 1,
    )
}

/// The squares that a pawn of the given colour on `sq` attacks: the two
/// squares one rank ahead on the neighbouring files.
pub open spec fn pawn_attack_targets(white: bool, sq: int) -> Set<int> {
    Set::new(
        |t: int|
            is_square(t) && abs(sq_file(t) - sq_file(sq)) == 1 && sq_rank(t) == sq_rank(sq) + (
            if white {
                1int
            } else {
                -1int
            }),
    )
}

/// The squares that a slider sees from `(file, rank)` in the direction
/// `(df, dr)`: it walks square by square, takes each square it reaches, and
/// stops behind the edge of the board or on the first occupied square, which
/// it still takes. `steps` bounds the length of the walk.
pub open spec fn ray(file: int, rank: int, df: int, dr: int, occ: Set<int>, steps: nat) -> Set<int>
    decreases steps,
{
    let f = file + df;
    let r = rank + dr;
    if steps == 0 || !on_board(f, r) {
        Set::empty()
    } else if occ.contains(square_at(f, r)) {
        set![square_at(f, r)]
    } else {
        ray(f, r, df, dr, occ, (steps - 1) as nat).insert(square_at(f, r))
    }
}

/// The squares of a ray on which a piece can block it: every square of the
/// empty-board ray but the last one before the edge.
pub open spec fn mask_ray(file: int, rank: int, df: int, dr: int, steps: nat) -> Set<int>
    decreases steps,
{
    let f = file + df;
    let r = rank + dr;
    if steps == 0 || !on_board(f, r) || !on_board(f + df, r + dr) {
        Set::empty()
    } else {
        mask_ray(f, r, df, dr, (steps - 1) as nat).insert(square_at(f, r))
    }
}

/// The squares that a rook on `sq` attacks when the squares `occ` are
/// occupied.
pub open spec fn rook_attacks(sq: int, occ: Set<int>) -> Set<int> {
    let f = sq_file(sq);
    let r = sq_rank(sq);
    ray(f, r, 0, 1, occ, 7).union(ray(f, r, 0, -1, occ, 7)).union(ray(f, r, 1, 0, occ, 7)).union(
        ray(f, r, -1, 0, occ, 7),
    )
}

/// The squares that a bishop on `sq` attacks when the squares `occ` are
/// occupied.
pub open spec fn bishop_attacks(sq: int, occ: Set<int>) -> Set<int> {
    let f = sq_file(sq);
    let r = sq_rank(sq);
    ray(f, r, 1, 1, occ, 7).union(ray(f, r, -1, 1, occ, 7)).union(ray(f, r, 1, -1, occ, 7)).union(
        ray(f, r, -1, -1, occ, 7),
    )
}

/// The squares that a queen on `sq` attacks when the squares `occ` are
/// occupied.
pub open spec fn queen_attacks(sq: int, occ: Set<int>) -> Set<int> {
    rook_attacks(sq, occ).union(bishop_attacks(sq, occ))
}

/// The squares that a rook (`ortho`) or a bishop on `sq` attacks.
pub open spec fn slider_attacks(sq: int, occ: Set<int>, ortho: bool) -> Set<int> {
    if ortho {
        rook_attacks(sq, occ)
    } else {
        bishop_attacks(sq, occ)
    }
}

/// The squares on which a piece can block a rook on `sq`.
pub open spec fn rook_mask(sq: int) -> Set<int> {
    let f = sq_file(sq);
    let r = sq_rank(sq);
    mask_ray(f, r, 0, 1, 7).union(mask_ray(f, r, 0, -1, 7)).union(mask_ray(f, r, 1, 0, 7)).union(
        mask_ray(f, r, -1, 0, 7),
    )
}

/// The squares on which a piece can block a bishop on `sq`.
pub open spec fn bishop_mask(sq: int) -> Set<int> {
    let f = sq_file(sq);
    let r = sq_rank(sq);
    mask_ray(f, r, 1, 1, 7).union(mask_ray(f, r, -1, 1, 7)).union(mask_ray(f, r, 1, -1, 7)).union(
        mask_ray(f, r, -1, -1, 7),
    )
}

/// The squares on which a piece can block a rook (`ortho`) or a bishop on
/// `sq`.
pub open spec fn slider_mask(sq: int, ortho: bool) -> Set<int> {
    if ortho {
        rook_mask(sq)
    } else {
        bishop_mask(sq)
    }
}

/// A ray sees the same squares when only the pieces on its blocking squares
/// are counted.
pub proof fn lemma_ray_relevant(
    file: int,
    rank: int,
    df: int,
    dr: int,
    occ: Set<int>,
    mask: Set<int>,
    steps: nat,
)
    requires
        mask_ray(file, rank, df, dr, steps).subset_of(mask),
    ensures
        ray(file, rank, df, dr, occ, steps) == ray(file, rank, df, dr, occ.intersect(mask), steps),
    decreases steps,
{
    let f = file + df;
    let r = rank + dr;
    if steps == 0 || !on_board(f, r) {
    } else {
        let s = square_at(f, r);
        let rest = (steps - 1) as nat;
        if rest == 0 || !on_board(f + df, r + dr) {
            assert(ray(f, r, df, dr, occ, rest) =~= Set::<int>::empty());
            assert(ray(f, r, df, dr, occ.intersect(mask), rest) =~= Set::<int>::empty());
            assert(Set::<int>::empty().insert(s) =~= set![s]);
        } else {
            assert(mask_ray(file, rank, df, dr, steps).contains(s));
            assert(mask.contains(s));
            assert forall|x: int| mask_ray(f, r, df, dr, rest).contains(x) implies mask.contains(
                x,
            ) by {
                assert(mask_ray(file, rank, df, dr, steps).contains(x));
            }
            lemma_ray_relevant(f, r, df, dr, occ, mask, rest);
        }
    }
}

/// A slider attacks the same squares when only the pieces on its blocking
/// squares are counted.
pub proof fn lemma_slider_relevant(sq: int, occ: Set<int>, ortho: bool)
    ensures
        slider_attacks(sq, occ, ortho) == slider_attacks(
            sq,
            occ.intersect(slider_mask(sq, ortho)),
            ortho,
        ),
{
    let f = sq_file(sq);
    let r = sq_rank(sq);
    let m = slider_mask(sq, ortho);
    if ortho {
        lemma_ray_relevant(f, r, 0, 1, occ, m, 7);
        lemma_ray_relevant(f, r, 0, -1, occ, m, 7);
        lemma_ray_relevant(f, r, 1, 0, occ, m, 7);
        lemma_ray_relevant(f, r, -1, 0, occ, m, 7);
    } else {
        lemma_ray_relevant(f, r, 1, 1, occ, m, 7);
        lemma_ray_relevant(f, r, -1, 1, occ, m, 7);
        lemma_ray_relevant(f, r, 1, -1, occ, m, 7);
        lemma_ray_relevant(f, r, -1, -1, occ, m, 7);
    }
}

/// Every square that a ray sees lies on the board.
pub proof fn lemma_ray_on_board(file: int, rank: int, df: int, dr: int, occ: Set<int>, steps: nat)
    ensures
        forall|x: int| ray(file, rank, df, dr, occ, steps).contains(x) ==> is_square(x),
    decreases steps,
{
    if steps > 0 && on_board(file + df, rank + dr) {
        lemma_ray_on_board(file + df, rank + dr, df, dr, occ, (steps - 1) as nat);
    }
}

/// Walks from `square` in the direction `(df, dr)` and returns the squares
/// of the ray, the first blocker in `block` included.
pub fn ray_scan(square: u16, df: i32, dr: i32, block: u64) -> (r: u64)
    requires
        square < 64,
        -1 <= df <= 1,
        -1 <= dr <= 1,
    ensures
        bits_of(r) == ray(
            sq_file(square as int),
            sq_rank(square as int),
            df as int,
            dr as int,
            bits_of(block),
            7,
        ),
{
    let blockers = Bitboard(block);
    let mut result = Bitboard::new();
    let mut f: i32 = (square % 8) as i32;
    let mut r: i32 = (square / 8) as i32;
    let mut steps: u32 = 7;
    let mut done: bool = false;
    let ghost occ = bits_of(block);
    let ghost total = ray(f as int, r as int, df as int, dr as int, occ, 7);
    proof {
        assert(result@.union(total) =~= total);
    }
    while steps > 0 && !done
        invariant
            0 <= f < 8,
            0 <= r < 8,
            -1 <= df <= 1,
            -1 <= dr <= 1,
            steps <= 7,
            blockers@ == occ,
            total == result@.union(
                if done {
                    Set::<int>::empty()
                } else {
                    ray(f as int, r as int, df as int, dr as int, occ, steps as nat)
                },
            ),
        decreases steps + if done { 0int } else { 1int },
    {
        let nf: i32 = f + df;
        let nr: i32 = r + dr;
        let ghost before = result@;
        if nf < 0 || nf >= 8 || nr < 0 || nr >= 8 {
            done = true;
        } else {
            let s: usize = (nr * 8 + nf) as usize;
            result.set_bit(s);
            if blockers.is_set(s) {
                done = true;
                proof {
                    assert(before.union(set![s as int]) =~= result@.union(Set::<int>::empty()));
                }
            } else {
                proof {
                    let rest = ray(nf as int, nr as int, df as int, dr as int, occ, (steps - 1) as nat);
                    assert(before.union(rest.insert(s as int)) =~= result@.union(rest));
                }
                f = nf;
                r = nr;
                steps = steps - 1;
            }
        }
    }
    proof {
        if !done {
            assert(ray(f as int, r as int, df as int, dr as int, occ, 0) =~= Set::<int>::empty());
        }
        assert(result@.union(Set::<int>::empty()) =~= result@);
    }
    result.0
}

/// Walks from `square` in the direction `(df, dr)` and returns the squares
/// on which a piece can block the ray.
pub fn mask_scan(square: u16, df: i32, dr: i32) -> (r: u64)
    requires
        square < 64,
        -1 <= df <= 1,
        -1 <= dr <= 1,
    ensures
        bits_of(r) == mask_ray(
            sq_file(square as int),
            sq_rank(square as int),
            df as int,
            dr as int,
            7,
        ),
{
    let mut result = Bitboard::new();
    let mut f: i32 = (square % 8) as i32;
    let mut r: i32 = (square / 8) as i32;
    let mut steps: u32 = 7;
    let mut done: bool = false;
    let ghost total = mask_ray(f as int, r as int, df as int, dr as int, 7);
    proof {
        assert(result@.union(total) =~= total);
    }
    while steps > 0 && !done
        invariant
            0 <= f < 8,
            0 <= r < 8,
            -1 <= df <= 1,
            -1 <= dr <= 1,
            steps <= 7,
            total == result@.union(
                if done {
                    Set::<int>::empty()
                } else {
                    mask_ray(f as int, r as int, df as int, dr as int, steps as nat)
                },
            ),
        decreases steps + if done { 0int } else { 1int },
    {
        let nf: i32 = f + df;
        let nr: i32 = r + dr;
        let ghost before = result@;
        if nf < 0 || nf >= 8 || nr < 0 || nr >= 8 || nf + df < 0 || nf + df >= 8 || nr + dr < 0
            || nr + dr >= 8 {
            done = true;
        } else {
            let s: usize = (nr * 8 + nf) as usize;
            result.set_bit(s);
            proof {
                let rest = mask_ray(nf as int, nr as int, df as int, dr as int, (steps - 1) as nat);
                assert(before.union(rest.insert(s as int)) =~= result@.union(rest));
            }
            f = nf;
            r = nr;
            steps = steps - 1;
        }
    }
    proof {
        if !done {
            assert(mask_ray(f as int, r as int, df as int, dr as int, 0) =~= Set::<int>::empty());
        }
        assert(result@.union(Set::<int>::empty()) =~= result@);
    }
    result.0
}

} // verus!
