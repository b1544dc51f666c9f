use crate::attacks::{
    bishop_attacks, king_targets, knight_targets, lemma_slider_relevant, pawn_attack_targets,
    queen_attacks, rook_attacks, slider_attacks, slider_mask,
};
use crate::bitboard::Bitboard;
use crate::bits::lemma_bits_bitwise;
use crate::chess_move::ChessMove;
use crate::chessboard::{lemma_board_sets, ChessBoard};
use crate::magic_constants::{BISHOP_BITS, BISHOP_MAGICS, ROOK_BITS, ROOK_MAGICS};
use crate::magics_generator::{
    free_slots_empty, is_magic, lemma_masked_within, table_ok, within, MagicGenerator,
};
use crate::piece::PieceType;
use crate::piece_patterns::{
    get_king_move_patterns, get_knight_move_patterns, pawn_attack_pattern,
};
use crate::position::{
    king_home, Position, BLACK_KING_SIDE, BLACK_QUEEN_SIDE, WHITE_KING_SIDE, WHITE_QUEEN_SIDE,
};
use crate::rules::{
    attack_set, bare_move, can_castle, castling_moves, en_passant_target, in_check,
    lemma_moves_below_skip, moves_below, moves_to, pawn_base_moves, pawn_moves, promote_all,
    threat_map, threats_below,
};
use vstd::prelude::*;

verus! {

/// The attack tables of one kind of slider: for each square the mask of
/// the blocking squares, the magic multiplier, the shift, and the table of
/// attacks. A square whose multiplier was found not to be magic is marked
/// as not ready and is answered by walking the rays.
#[derive(Clone)]
pub struct SliderTables {
    pub masks: Vec<Bitboard>,
    pub magics: Vec<u64>,
    pub shifts: Vec<u32>,
    pub tables: Vec<Vec<Bitboard>>,
    pub ready: Vec<bool>,
}

impl SliderTables {
    /// Whether the entries of one square fit together: the mask is that of
    /// the slider, and a table marked ready answers every blocker set.
    pub open spec fn entry_ok(&self, sq: int, ortho: bool) -> bool {
        &&& self.masks@[sq]@ == slider_mask(sq, ortho)
        &&& self.ready@[sq] ==> 52 <= self.shifts@[sq] < 64 && table_ok(
            self.tables@[sq]@,
            sq,
            ortho,
            self.magics@[sq],
            self.shifts@[sq],
        )
    }

    /// Whether the tables hold one well-formed entry for each square.
    pub open spec fn wf(&self, ortho: bool) -> bool {
        &&& self.masks@.len() == 64
        &&& self.magics@.len() == 64
        &&& self.shifts@.len() == 64
        &&& self.tables@.len() == 64
        &&& self.ready@.len() == 64
        &&& forall|sq: int| 0 <= sq < 64 ==> #[trigger] self.entry_ok(sq, ortho)
    }

    /// Whether the entries of one square are made from the constants: the
    /// multiplier and the index width are those of the constants; the table
    /// is marked ready exactly when the multiplier is magic; a ready table
    /// has one slot for each index and holds the empty set in the slots that
    /// no blocker set uses; a table that is not ready has no slot.
    pub open spec fn entry_built(&self, sq: int, bishop: bool) -> bool {
        &&& self.magics@[sq] == if bishop {
            BISHOP_MAGICS[sq]
        } else {
            ROOK_MAGICS[sq]
        }
        &&& self.shifts@[sq] == 64 - if bishop {
            BISHOP_BITS[sq]
        } else {
            ROOK_BITS[sq]
        }
        &&& self.ready@[sq] == is_magic(sq, !bishop, self.magics@[sq], self.shifts@[sq])
        &&& self.ready@[sq] ==> self.tables@[sq]@.len() == 1u64 << ((64 - self.shifts@[sq]) as u32)
            && free_slots_empty(
            self.tables@[sq]@,
            sq,
            !bishop,
            self.magics@[sq],
            self.shifts@[sq],
        )
        &&& !self.ready@[sq] ==> self.tables@[sq]@.len() == 0
    }

    /// Builds the tables of the bishop (`bishop`) or of the rook from the
    /// multipliers and index widths of the constants.
    pub fn build(bishop: bool) -> (r: SliderTables)
        ensures
            r.wf(!bishop),
            forall|sq: int| 0 <= sq < 64 ==> #[trigger] r.entry_built(sq, bishop),
    {
        let mut out = SliderTables {
            masks: Vec::new(),
            magics: Vec::new(),
            shifts: Vec::new(),
            tables: Vec::new(),
            ready: Vec::new(),
        };
        let ortho: bool = !bishop;
        let mut square: usize = 0;
        while square < 64
            invariant
                square <= 64,
                ortho == !bishop,
                out.masks@.len() == square,
                out.magics@.len() == square,
                out.shifts@.len() == square,
                out.tables@.len() == square,
                out.ready@.len() == square,
                forall|sq: int| 0 <= sq < square ==> #[trigger] out.entry_ok(sq, ortho),
                forall|sq: int| 0 <= sq < square ==> #[trigger] out.entry_built(sq, bishop),
            decreases 64 - square,
        {
            let magic: u64 = if bishop {
                BISHOP_MAGICS[square]
            } else {
                ROOK_MAGICS[square]
            };
            let bits: u32 = if bishop {
                BISHOP_BITS[square]
            } else {
                ROOK_BITS[square]
            };
            let mask: u64 = MagicGenerator::mask_for(square as i32, bishop);
            let ghost before = out;
            proof {
                crate::magic_constants::lemma_index_bits(square as int);
            }
            let filled = MagicGenerator::fill_table(square as i32, magic, bits, bishop);
            out.masks.push(Bitboard(mask));
            out.magics.push(magic);
            out.shifts.push(64 - bits);
            out.tables.push(filled.0);
            out.ready.push(filled.1);
            proof {
                assert forall|sq: int| 0 <= sq < square + 1 implies #[trigger] out.entry_ok(
                    sq,
                    ortho,
                ) by {
                    if sq < square {
                        assert(before.entry_ok(sq, ortho));
                    }
                }
                assert forall|sq: int| 0 <= sq < square + 1 implies #[trigger] out.entry_built(
                    sq,
                    bishop,
                ) by {
                    if sq < square {
                        assert(before.entry_built(sq, bishop));
                    }
                }
            }
            square = square + 1;
        }
        out
    }

    /// The squares that the slider on `square` attacks when the squares
    /// `all_pieces` are occupied.
    pub fn attacks(&self, square: usize, all_pieces: Bitboard, bishop: bool) -> (r: Bitboard)
        requires
            self.wf(!bishop),
            square < 64,
        ensures
            r@ == slider_attacks(square as int, all_pieces@, !bishop),
    {
        proof {
            assert(self.entry_ok(square as int, !bishop));
        }
        if self.ready[square] {
            let mask: u64 = self.masks[square].0;
            let relevant: u64 = all_pieces.0 & mask;
            proof {
                crate::magics_generator::lemma_index_bound(
                    relevant.wrapping_mul(self.magics@[square as int]),
                    (64 - self.shifts@[square as int]) as u32,
                    self.shifts@[square as int],
                );
            }
            let slot: usize = (relevant.wrapping_mul(self.magics[square])
                >> self.shifts[square]) as usize;
            proof {
                crate::magics_generator::lemma_index_bound(
                    relevant.wrapping_mul(self.magics@[square as int]),
                    (64 - self.shifts@[square as int]) as u32,
                    self.shifts@[square as int],
                );
                lemma_masked_within(all_pieces.0, mask);
                assert(within(relevant, mask));
                crate::magics_generator::lemma_within_subset(relevant, mask);
                lemma_bits_bitwise(all_pieces.0, mask);
                lemma_slider_relevant(square as int, all_pieces@, !bishop);
                assert(slot == crate::magics_generator::magic_index(
                    relevant,
                    self.magics@[square as int],
                    self.shifts@[square as int],
                ));
            }
            self.tables[square][slot]
        } else {
            Bitboard(MagicGenerator::attacks_for(square as i32, all_pieces.0, bishop))
        }
    }

    /// Whether the table of every square is ready.
    pub fn all_ready(&self) -> (r: bool)
        ensures
            r == (forall|sq: int| 0 <= sq < self.ready@.len() ==> self.ready@[sq]),
    {
        let mut square: usize = 0;
        while square < self.ready.len()
            invariant
                square <= self.ready@.len(),
                forall|sq: int| 0 <= sq < square ==> self.ready@[sq],
            decreases self.ready@.len() - square,
        {
            if !self.ready[square] {
                return false;
            }
            square = square + 1;
        }
        true
    }
}

/// The attack tables of all pieces: what a knight, a king and a pawn of
/// either colour attack from each square, and the tables of the sliders.
#[derive(Clone)]
pub struct PieceConductor {
    pub knight_lut: Vec<Bitboard>,
    pub king_lut: Vec<Bitboard>,
    pub rook_tables: SliderTables,
    pub bishop_tables: SliderTables,
    pub white_pawn_attack_masks: Vec<Bitboard>,
    pub black_pawn_attack_masks: Vec<Bitboard>,
}

/// For each square, the squares that a pawn of the given colour on it
/// attacks.
pub fn init_pawn_attack_masks(is_white: bool) -> (r: Vec<Bitboard>)
    ensures
        r@.len() == 64,
        forall|sq: int| 0 <= sq < 64 ==> (#[trigger] r@[sq])@ == pawn_attack_targets(is_white, sq),
{
    let mut masks: Vec<Bitboard> = Vec::new();
    let mut square: usize = 0;
    while square < 64
        invariant
            square <= 64,
            masks@.len() == square,
            forall|sq: int|
                0 <= sq < square ==> (#[trigger] masks@[sq])@ == pawn_attack_targets(is_white, sq),
        decreases 64 - square,
    {
        masks.push(pawn_attack_pattern(square, is_white));
        square = square + 1;
    }
    masks
}

/// The moves without a flag from `square` to each square of `targets`, in
/// increasing order of the target.
pub fn targets_to_moves(square: u16, targets: Bitboard) -> (r: Vec<ChessMove>)
    requires
        square < 64,
    ensures
        r@ == moves_to(square as int, targets@),
{
    let mut remaining = targets;
    let mut move_list: Vec<ChessMove> = Vec::new();
    let ghost mut k: int = 0;
    proof {
        crate::bitboard::lemma_bitboard_in_range(targets);
    }
    while !remaining.is_empty()
        invariant
            square < 64,
            0 <= k <= 64,
            move_list@ == moves_below(square as int, targets@, k),
            forall|t: int| remaining@.contains(t) <==> (targets@.contains(t) && t >= k),
            forall|t: int| targets@.contains(t) ==> 0 <= t < 64,
        decreases 64 - k,
    {
        let target: usize = remaining.pop_lsb();
        proof {
            lemma_moves_below_skip(square as int, targets@, k, target as int);
        }
        move_list.push(ChessMove::new(square, target as u16));
        proof {
            k = target + 1;
            assert(move_list@.last() == bare_move(square as int, target as int, 0));
        }
    }
    proof {
        lemma_moves_below_skip(square as int, targets@, k, 64);
    }
    move_list
}

/// Between two bounds with no enemy piece in between, the threats are the
/// same.
pub proof fn lemma_threats_below_skip(p: Position, white: bool, lo: int, hi: int)
    requires
        lo <= hi,
        forall|t: int| lo <= t < hi ==> (#[trigger] p.at(t)) is None || p.at(t)->0.white == white,
    ensures
        threats_below(p, white, hi) == threats_below(p, white, lo),
    decreases hi - lo,
{
    if lo < hi {
        lemma_threats_below_skip(p, white, lo, hi - 1);
        assert(p.at(hi - 1) is None || p.at(hi - 1)->0.white == white);
    }
}

impl PieceConductor {
    /// Whether every table holds what its piece attacks.
    pub open spec fn wf(&self) -> bool {
        &&& self.knight_lut@.len() == 64
        &&& self.king_lut@.len() == 64
        &&& self.white_pawn_attack_masks@.len() == 64
        &&& self.black_pawn_attack_masks@.len() == 64
        &&& self.rook_tables.wf(true)
        &&& self.bishop_tables.wf(false)
        &&& forall|sq: int| 0 <= sq < 64 ==> (#[trigger] self.knight_lut@[sq])@ == knight_targets(sq)
        &&& forall|sq: int| 0 <= sq < 64 ==> (#[trigger] self.king_lut@[sq])@ == king_targets(sq)
        &&& forall|sq: int|
            0 <= sq < 64 ==> (#[trigger] self.white_pawn_attack_masks@[sq])@ == pawn_attack_targets(
                true,
                sq,
            )
        &&& forall|sq: int|
            0 <= sq < 64 ==> (#[trigger] self.black_pawn_attack_masks@[sq])@ == pawn_attack_targets(
                false,
                sq,
            )
    }

    /// Builds all attack tables.
    pub fn new() -> (r: PieceConductor)
        ensures
            r.wf(),
            forall|sq: int| 0 <= sq < 64 ==> #[trigger] r.rook_tables.entry_built(sq, false),
            forall|sq: int| 0 <= sq < 64 ==> #[trigger] r.bishop_tables.entry_built(sq, true),
    {
        let king_lut = get_king_move_patterns();
        let knight_lut = get_knight_move_patterns();
        let rook_tables = Self::init_rook_table();
        let bishop_tables = Self::init_bishop_table();
        let white_pawn_attack_masks = init_pawn_attack_masks(true);
        let black_pawn_attack_masks = init_pawn_attack_masks(false);
        PieceConductor {
            knight_lut,
            king_lut,
            rook_tables,
            bishop_tables,
            white_pawn_attack_masks,
            black_pawn_attack_masks,
        }
    }

    /// Builds the attack tables of the rook.
    pub fn init_rook_table() -> (r: SliderTables)
        ensures
            r.wf(true),
            forall|sq: int| 0 <= sq < 64 ==> #[trigger] r.entry_built(sq, false),
    {
        SliderTables::build(false)
    }

    /// Builds the attack tables of the bishop.
    pub fn init_bishop_table() -> (r: SliderTables)
        ensures
            r.wf(false),
            forall|sq: int| 0 <= sq < 64 ==> #[trigger] r.entry_built(sq, true),
    {
        SliderTables::build(true)
    }

    /// Whether every slider table was filled with a magic multiplier, so
    /// that no lookup has to walk the rays.
    pub fn is_fully_magic(&self) -> (r: bool)
        ensures
            r == ((forall|sq: int|
                0 <= sq < self.rook_tables.ready@.len() ==> self.rook_tables.ready@[sq]) && (
            forall|sq: int|
                0 <= sq < self.bishop_tables.ready@.len() ==> self.bishop_tables.ready@[sq])),
    {
        self.rook_tables.all_ready() && self.bishop_tables.all_ready()
    }

    /// The squares that a rook on `square` attacks when the squares
    /// `all_pieces` are occupied. The first blocker on each ray is attacked,
    /// whatever its colour.
    pub fn get_rook_attacks(
        &self,
        square: usize,
        _relevant_blockers: Bitboard,
        all_pieces: Bitboard,
    ) -> (r: Bitboard)
        requires
            self.wf(),
            square < 64,
        ensures
            r@ == rook_attacks(square as int, all_pieces@),
    {
        self.rook_tables.attacks(square, all_pieces, false)
    }

    /// The squares that a bishop on `square` attacks when the squares
    /// `all_pieces` are occupied. The first blocker on each ray is attacked,
    /// whatever its colour.
    pub fn get_bishop_attacks(
        &self,
        square: usize,
        _relevant_blockers: Bitboard,
        all_pieces: Bitboard,
    ) -> (r: Bitboard)
        requires
            self.wf(),
            square < 64,
        ensures
            r@ == bishop_attacks(square as int, all_pieces@),
    {
        self.bishop_tables.attacks(square, all_pieces, true)
    }

    /// The squares that a queen on `square` attacks when the squares
    /// `all_pieces` are occupied.
    pub fn get_queen_attacks(&self, square: usize, all_pieces: Bitboard) -> (r: Bitboard)
        requires
            self.wf(),
            square < 64,
        ensures
            r@ == queen_attacks(square as int, all_pieces@),
    {
        let rook = self.rook_tables.attacks(square, all_pieces, false);
        let bishop = self.bishop_tables.attacks(square, all_pieces, true);
        rook.or(bishop)
    }

    /// The squares that a pawn of the given colour on `square` attacks.
    pub fn get_pawn_attacks(square: usize, is_white: bool) -> (r: Bitboard)
        requires
            square < 64,
        ensures
            r@ == pawn_attack_targets(is_white, square as int),
    {
        pawn_attack_pattern(square, is_white)
    }

    /// The squares that a rook (`ortho`) or a bishop on `square` attacks
    /// when the squares of `blocker_bitboard` are occupied, found by walking
    /// the rays.
    pub fn generate_legal_moves_from_blockers(
        square: u16,
        blocker_bitboard: &Bitboard,
        ortho: bool,
    ) -> (r: Bitboard)
        requires
            square < 64,
        ensures
            r@ == slider_attacks(square as int, blocker_bitboard@, ortho),
    {
        Bitboard(MagicGenerator::attacks_for(square as i32, blocker_bitboard.0, !ortho))
    }

    /// The moves of a rook on `square` to the squares that it attacks and
    /// that are not among `relevant_blockers`.
    pub fn get_rook_moves(
        &self,
        square: u16,
        relevant_blockers: Bitboard,
        chess_board: &ChessBoard,
    ) -> (r: Vec<ChessMove>)
        requires
            self.wf(),
            chess_board.wf(),
            square < 64,
        ensures
            r@ == moves_to(
                square as int,
                rook_attacks(square as int, chess_board@.occupied()).difference(
                    relevant_blockers@,
                ),
            ),
    {
        let attacks = self.get_rook_attacks(
            square as usize,
            relevant_blockers,
            chess_board.get_all_pieces(),
        );
        targets_to_moves(square, attacks.and_not(relevant_blockers))
    }

    /// The moves of a bishop on `square` to the squares that it attacks and
    /// that are not among `relevant_blockers`.
    pub fn get_bishop_moves(
        &self,
        square: u16,
        relevant_blockers: Bitboard,
        chess_board: &ChessBoard,
    ) -> (r: Vec<ChessMove>)
        requires
            self.wf(),
            chess_board.wf(),
            square < 64,
        ensures
            r@ == moves_to(
                square as int,
                bishop_attacks(square as int, chess_board@.occupied()).difference(
                    relevant_blockers@,
                ),
            ),
    {
        let attacks = self.get_bishop_attacks(
            square as usize,
            relevant_blockers,
            chess_board.get_all_pieces(),
        );
        targets_to_moves(square, attacks.and_not(relevant_blockers))
    }

    /// The moves of a knight on `square` to the squares that it attacks and
    /// that are not among `friendly_pieces_bitboard`.
    pub fn get_knight_moves(&self, square: u16, friendly_pieces_bitboard: Bitboard) -> (r: Vec<
        ChessMove,
    >)
        requires
            self.wf(),
            square < 64,
        ensures
            r@ == moves_to(
                square as int,
                knight_targets(square as int).difference(friendly_pieces_bitboard@),
            ),
    {
        let knight_moves_bitboard = self.knight_lut[square as usize];
        targets_to_moves(square, knight_moves_bitboard.and_not(friendly_pieces_bitboard))
    }

    /// The moves of a king on `square`: to the squares next to it that are
    /// not among `friendly_pieces_bb`, then its castling moves.
    pub fn get_king_moves(
        &self,
        square: u16,
        friendly_pieces_bb: Bitboard,
        chess_board: &ChessBoard,
        is_white: bool,
    ) -> (r: Vec<ChessMove>)
        requires
            self.wf(),
            chess_board.wf(),
            square < 64,
        ensures
            r@ == moves_to(
                square as int,
                king_targets(square as int).difference(friendly_pieces_bb@),
            ) + castling_moves(chess_board@, square as int, is_white),
    {
        let king_moves_bitboard = self.king_lut[square as usize];
        let mut move_list = targets_to_moves(square, king_moves_bitboard.and_not(friendly_pieces_bb));
        let mut castles = self.get_castling_moves(chess_board, square, is_white);
        move_list.append(&mut castles);
        move_list
    }

    /// Whether the king of the side `is_white` on `square` may castle to one
    /// side, given the threat map of that side.
    fn may_castle(
        &self,
        chess_board: &ChessBoard,
        square: u16,
        is_white: bool,
        king_side: bool,
        threats: Bitboard,
        checked: bool,
    ) -> (r: bool)
        requires
            self.wf(),
            chess_board.wf(),
            square == king_home(is_white),
            threats@ == threat_map(chess_board@, is_white),
            checked == in_check(chess_board@, is_white),
        ensures
            r == can_castle(chess_board@, square as int, is_white, king_side),
    {
        let right: u8 = if is_white {
            if king_side {
                WHITE_KING_SIDE
            } else {
                WHITE_QUEEN_SIDE
            }
        } else {
            if king_side {
                BLACK_KING_SIDE
            } else {
                BLACK_QUEEN_SIDE
            }
        };
        let rook_square: u16 = if king_side {
            square + 3
        } else {
            square - 4
        };
        let first: u16 = if king_side {
            square + 1
        } else {
            square - 1
        };
        let second: u16 = if king_side {
            square + 2
        } else {
            square - 2
        };
        let king_there: bool = match chess_board.get_piece_at_square(square) {
            Some(piece) => piece.kind == PieceType::King && piece.white == is_white,
            None => false,
        };
        let rook_there: bool = match chess_board.get_piece_at_square(rook_square) {
            Some(piece) => piece.kind == PieceType::Rook && piece.white == is_white,
            None => false,
        };
        king_there && chess_board.castling_rights & right != 0 && rook_there
            && chess_board.is_path_clear(square, rook_square) && !checked
            && self.are_squares_safe([first, second], threats)
    }

    /// The castling moves of the king of the side `is_white` on `square`:
    /// to the king's side first, then to the queen's side.
    pub fn get_castling_moves(&self, chess_board: &ChessBoard, square: u16, is_white: bool) -> (r:
        Vec<ChessMove>)
        requires
            self.wf(),
            chess_board.wf(),
            square < 64,
        ensures
            r@ == castling_moves(chess_board@, square as int, is_white),
    {
        let mut castling_moves: Vec<ChessMove> = Vec::new();
        let home_square: u16 = if is_white {
            4
        } else {
            60
        };
        if square != home_square {
            proof {
                assert(castling_moves@ =~= crate::rules::castling_moves(
                    chess_board@,
                    square as int,
                    is_white,
                ));
            }
            return castling_moves;
        }
        let threats = self.generate_threat_map(chess_board, is_white);
        let checked = self.is_king_in_check(chess_board, is_white);
        if self.may_castle(chess_board, square, is_white, true, threats, checked) {
            castling_moves.push(
                ChessMove::new_with_flag(square, square + 2, ChessMove::CASTLE_FLAG),
            );
        }
        if self.may_castle(chess_board, square, is_white, false, threats, checked) {
            castling_moves.push(
                ChessMove::new_with_flag(square, square - 2, ChessMove::CASTLE_FLAG),
            );
        }
        proof {
            assert(castling_moves@ =~= crate::rules::castling_moves(
                chess_board@,
                square as int,
                is_white,
            ));
        }
        castling_moves
    }

    /// The square to which the pawn on `square` can capture en passant, if
    /// the last move allows it.
    pub fn get_en_passant_target(square: u16, is_white: bool, chess_board: &ChessBoard) -> (r:
        Option<u16>)
        requires
            square < 64,
        ensures
            match r {
                Some(target) => en_passant_target(chess_board@, square as int, is_white) == Some(
                    target as int,
                ) && target < 64,
                None => en_passant_target(chess_board@, square as int, is_white) is None,
            },
    {
        match chess_board.get_last_move() {
            Some(last_move) => {
                if last_move.has_flag(ChessMove::PAWN_TWO_UP_FLAG) {
                    let last_move_to: u16 = last_move.target_square();
                    let last_file: u16 = last_move_to % 8;
                    let pawn_rank: u16 = square / 8;
                    let pawn_file: u16 = square % 8;
                    let en_passant_rank: u16 = if is_white {
                        4
                    } else {
                        3
                    };
                    let adjacent: bool = pawn_file + 1 == last_file || last_file + 1 == pawn_file;
                    if pawn_rank == en_passant_rank && last_move_to / 8 == pawn_rank && adjacent {
                        if is_white {
                            Some(last_move_to + 8)
                        } else {
                            Some(last_move_to - 8)
                        }
                    } else {
                        None
                    }
                } else {
                    None
                }
            },
            None => None,
        }
    }

    /// The moves of the pawn on `square` before promotions are spelled out.
    pub fn get_pawn_base_moves(square: u16, is_white: bool, chess_board: &ChessBoard) -> (r: Vec<
        ChessMove,
    >)
        requires
            chess_board.wf(),
            square < 64,
        ensures
            r@ == pawn_base_moves(chess_board@, square as int, is_white),
    {
        let mut move_list: Vec<ChessMove> = Vec::new();
        let rank: u16 = square / 8;
        let file: u16 = square % 8;
        let ghost p = chess_board@;
        let forward_ok: bool = if is_white {
            square < 56
        } else {
            square >= 8
        };
        let mut single_free: bool = false;
        let ghost mut expected: Seq<ChessMove> = Seq::empty();
        if forward_ok {
            let single: u16 = if is_white {
                square + 8
            } else {
                square - 8
            };
            single_free = chess_board.get_piece_at_square(single).is_none();
            if single_free {
                move_list.push(ChessMove::new(square, single));
            }
        }
        let starting_rank: u16 = if is_white {
            1
        } else {
            6
        };
        if rank == starting_rank {
            let double: u16 = if is_white {
                square + 16
            } else {
                square - 16
            };
            if single_free && chess_board.get_piece_at_square(double).is_none() {
                move_list.push(
                    ChessMove::new_with_flag(square, double, ChessMove::PAWN_TWO_UP_FLAG),
                );
            }
        }
        if file > 0 {
            let in_range: bool = if is_white {
                square + 7 < 64
            } else {
                square >= 9
            };
            if in_range {
                let capture_left: u16 = if is_white {
                    square + 7
                } else {
                    square - 9
                };
                let enemy: bool = match chess_board.get_piece_at_square(capture_left) {
                    Some(piece) => piece.white != is_white,
                    None => false,
                };
                if enemy {
                    move_list.push(ChessMove::new(square, capture_left));
                }
            }
        }
        if file < 7 {
            let in_range: bool = if is_white {
                square + 9 < 64
            } else {
                square >= 7
            };
            if in_range {
                let capture_right: u16 = if is_white {
                    square + 9
                } else {
                    square - 7
                };
                let enemy: bool = match chess_board.get_piece_at_square(capture_right) {
                    Some(piece) => piece.white != is_white,
                    None => false,
                };
                if enemy {
                    move_list.push(ChessMove::new(square, capture_right));
                }
            }
        }
        if let Some(target) = Self::get_en_passant_target(square, is_white, chess_board) {
            move_list.push(
                ChessMove::new_with_flag(square, target, ChessMove::EN_PASSANT_CAPTURE_FLAG),
            );
        }
        proof {
            assert(move_list@ =~= pawn_base_moves(p, square as int, is_white));
        }
        move_list
    }

    /// The moves of the pawn on `square`. A pawn one step from its last rank
    /// makes each of its moves as four promotions.
    pub fn get_pawn_moves(&self, square: u16, is_white: bool, chess_board: &ChessBoard) -> (r: Vec<
        ChessMove,
    >)
        requires
            chess_board.wf(),
            square < 64,
        ensures
            r@ == pawn_moves(chess_board@, square as int, is_white),
    {
        let base = Self::get_pawn_base_moves(square, is_white, chess_board);
        let seventh: u16 = if is_white {
            6
        } else {
            1
        };
        if square / 8 != seventh {
            return base;
        }
        let mut move_list: Vec<ChessMove> = Vec::new();
        let mut i: usize = 0;
        while i < base.len()
            invariant
                i <= base@.len(),
                move_list@ == promote_all(base@.subrange(0, i as int)),
            decreases base@.len() - i,
        {
            let cm: ChessMove = base[i];
            let from: u16 = cm.start_square();
            let to: u16 = cm.target_square();
            let ghost before = move_list@;
            move_list.push(
                ChessMove::new_capture_with_flag(from, None, to, ChessMove::PROMOTE_TO_QUEEN_FLAG),
            );
            move_list.push(
                ChessMove::new_capture_with_flag(from, None, to, ChessMove::PROMOTE_TO_ROOK_FLAG),
            );
            move_list.push(
                ChessMove::new_capture_with_flag(from, None, to, ChessMove::PROMOTE_TO_BISHOP_FLAG),
            );
            move_list.push(
                ChessMove::new_capture_with_flag(from, None, to, ChessMove::PROMOTE_TO_KNIGHT_FLAG),
            );
            proof {
                let next = base@.subrange(0, i + 1);
                assert(next.drop_last() =~= base@.subrange(0, i as int));
                assert(next.last() == cm);
                assert(move_list@ =~= before + seq![
                    bare_move(cm.from_sq(), cm.to_sq(), 4),
                    bare_move(cm.from_sq(), cm.to_sq(), 6),
                    bare_move(cm.from_sq(), cm.to_sq(), 7),
                    bare_move(cm.from_sq(), cm.to_sq(), 5),
                ]);
            }
            i = i + 1;
        }
        proof {
            assert(base@.subrange(0, base@.len() as int) =~= base@);
        }
        move_list
    }

    /// The threat map of the side `is_white`: every square that some piece
    /// of the other side attacks, with every piece on the board as a
    /// blocker.
    pub fn generate_threat_map(&self, chess_board: &ChessBoard, is_white: bool) -> (r: Bitboard)
        requires
            self.wf(),
            chess_board.wf(),
        ensures
            r@ == threat_map(chess_board@, is_white),
    {
        let all_pieces = chess_board.get_all_pieces();
        let mut enemy_pieces_bb = chess_board.get_opponent_pieces(is_white);
        let mut threats_bb = Bitboard::new();
        let ghost p = chess_board@;
        let ghost mut k: int = 0;
        proof {
            lemma_board_sets(*chess_board);
        }
        while !enemy_pieces_bb.is_empty()
            invariant
                self.wf(),
                chess_board.wf(),
                p == chess_board@,
                all_pieces@ == p.occupied(),
                0 <= k <= 64,
                threats_bb@ == threats_below(p, is_white, k),
                forall|t: int| enemy_pieces_bb@.contains(t) <==> (p.has_color(t, !is_white) && t >= k),
            decreases 64 - k,
        {
            let ghost waiting = enemy_pieces_bb@;
            let square: usize = enemy_pieces_bb.pop_lsb();
            proof {
                assert forall|t: int| k <= t < square implies (#[trigger] p.at(t)) is None || p.at(
                    t,
                )->0.white == is_white by {
                    assert(!waiting.contains(t));
                }
                lemma_threats_below_skip(p, is_white, k, square as int);
                assert(p.has_color(square as int, !is_white));
            }
            let attacks: Bitboard = match chess_board.get_piece_type(square as u16) {
                Some(piece_type) => match piece_type {
                    PieceType::Rook => self.get_rook_attacks(square, all_pieces, all_pieces),
                    PieceType::Bishop => self.get_bishop_attacks(square, all_pieces, all_pieces),
                    PieceType::Queen => self.get_queen_attacks(square, all_pieces),
                    PieceType::King => self.king_lut[square],
                    PieceType::Knight => self.knight_lut[square],
                    PieceType::Pawn => {
                        if is_white {
                            self.black_pawn_attack_masks[square]
                        } else {
                            self.white_pawn_attack_masks[square]
                        }
                    },
                },
                None => Bitboard::new(),
            };
            proof {
                assert(attacks@ == attack_set(p, square as int));
            }
            threats_bb = threats_bb.or(attacks);
            proof {
                k = square + 1;
            }
        }
        proof {
            assert forall|t: int| k <= t < 64 implies (#[trigger] p.at(t)) is None || p.at(
                t,
            )->0.white == is_white by {
                assert(!enemy_pieces_bb@.contains(t));
            }
            lemma_threats_below_skip(p, is_white, k, 64);
        }
        threats_bb
    }

    /// Whether neither of the two squares lies in the threat map.
    pub fn are_squares_safe(&self, squares: [u16; 2], threat_map: Bitboard) -> (r: bool)
        ensures
            r == (!threat_map@.contains(squares[0] as int) && !threat_map@.contains(
                squares[1] as int,
            )),
    {
        !threat_map.is_set(squares[0] as usize) && !threat_map.is_set(squares[1] as usize)
    }

    /// Whether a king of the side `is_white` stands on a square that a piece
    /// of the other side attacks.
    pub fn is_king_in_check(&self, chess_board: &ChessBoard, is_white: bool) -> (r: bool)
        requires
            self.wf(),
            chess_board.wf(),
        ensures
            r == in_check(chess_board@, is_white),
    {
        let king_bb = chess_board.get_king(is_white);
        let threats = self.generate_threat_map(chess_board, is_white);
        let both = king_bb.and(threats);
        proof {
            let p = chess_board@;
            if both@ == Set::<int>::empty() {
                assert forall|k: int|
                    !(p.has_piece(k, PieceType::King, is_white) && threat_map(p, is_white).contains(
                        k,
                    )) by {
                    if p.has_piece(k, PieceType::King, is_white) && threat_map(
                        p,
                        is_white,
                    ).contains(k) {
                        assert(king_bb@.contains(k));
                        assert(both@.contains(k));
                    }
                }
            } else {
                let k = choose|k: int| both@.contains(k);
                assert(both@ =~= Set::<int>::empty() || both@.contains(k)) by {
                    if !(exists|x: int| both@.contains(x)) {
                        assert(both@ =~= Set::<int>::empty());
                    }
                }
                assert(p.has_piece(k, PieceType::King, is_white));
            }
        }
        !both.is_empty()
    }
}

} // verus!
