use chess_engine::attacks::{mask_scan, ray_scan};
use chess_engine::bitboard::Bitboard;
use chess_engine::magics_generator::{generate_blocker_bitboards, MagicGenerator};
use chess_engine::move_patterns::{
    get_bishop_move_patterns, get_rook_move_patterns, line_pattern, MovePatterns,
};
use chess_engine::piece_conductor::{init_pawn_attack_masks, targets_to_moves, PieceConductor};
use chess_engine::piece_patterns::{
    get_king_move_patterns, get_knight_move_patterns, get_pawn_move_patterns, king_pattern,
    knight_pattern, pawn_attack_pattern, pawn_push_pattern,
};

#[test]
fn tables_are_fully_magic() {
    let conductor = PieceConductor::new();
    assert!(conductor.is_fully_magic());
    assert!(conductor.rook_tables.all_ready());
    assert!(conductor.bishop_tables.all_ready());
    assert_eq!(conductor.rook_tables.tables[0].len(), 4096);
    assert_eq!(conductor.rook_tables.tables[9].len(), 1024);
    assert_eq!(conductor.bishop_tables.tables[0].len(), 64);
    assert_eq!(conductor.bishop_tables.tables[27].len(), 512);
    assert_eq!(conductor.rook_tables.shifts[0], 52);
    assert_eq!(conductor.bishop_tables.shifts[1], 59);
}

#[test]
fn knight_and_king_patterns() {
    assert_eq!(knight_pattern(1), Bitboard(0x50800));
    assert_eq!(knight_pattern(0), Bitboard((1 << 10) | (1 << 17)));
    assert_eq!(knight_pattern(63), Bitboard((1 << 46) | (1 << 53)));
    assert_eq!(knight_pattern(27).count_ones(), 8);
    assert_eq!(king_pattern(4), Bitboard(0x3828));
    assert_eq!(king_pattern(0), Bitboard((1 << 1) | (1 << 8) | (1 << 9)));
    assert_eq!(king_pattern(63), Bitboard((1 << 62) | (1 << 54) | (1 << 55)));
    assert_eq!(king_pattern(27).count_ones(), 8);
    let knights = get_knight_move_patterns();
    let kings = get_king_move_patterns();
    assert_eq!(knights.len(), 64);
    assert_eq!(kings.len(), 64);
    for square in 0..64usize {
        assert_eq!(knights[square], knight_pattern(square as i32));
        assert_eq!(kings[square], king_pattern(square as i32));
    }
    let conductor = PieceConductor::new();
    assert_eq!(conductor.knight_lut, knights);
    assert_eq!(conductor.king_lut, kings);
}

#[test]
fn pawn_patterns() {
    assert_eq!(pawn_attack_pattern(28, true), Bitboard((1 << 35) | (1 << 37)));
    assert_eq!(pawn_attack_pattern(28, false), Bitboard((1 << 19) | (1 << 21)));
    assert_eq!(pawn_attack_pattern(8, true), Bitboard(1 << 17));
    assert_eq!(pawn_attack_pattern(15, true), Bitboard(1 << 22));
    assert_eq!(pawn_attack_pattern(48, false), Bitboard(1 << 41));
    assert_eq!(pawn_attack_pattern(60, true), Bitboard(0));
    assert_eq!(pawn_attack_pattern(3, false), Bitboard(0));
    assert_eq!(PieceConductor::get_pawn_attacks(28, true), Bitboard((1 << 35) | (1 << 37)));
    assert_eq!(pawn_push_pattern(12, true), Bitboard((1 << 20) | (1 << 28)));
    assert_eq!(pawn_push_pattern(20, true), Bitboard(1 << 28));
    assert_eq!(pawn_push_pattern(52, false), Bitboard((1 << 44) | (1 << 36)));
    assert_eq!(pawn_push_pattern(60, true), Bitboard(0));
    assert_eq!(pawn_push_pattern(4, false), Bitboard(0));
    let patterns = get_pawn_move_patterns();
    assert_eq!(patterns.len(), 64);
    assert_eq!(patterns[12].0 .0, Bitboard((1 << 20) | (1 << 28)));
    assert_eq!(patterns[12].0 .1, Bitboard(1 << 4));
    assert_eq!(patterns[12].1 .0, Bitboard((1 << 19) | (1 << 21)));
    assert_eq!(patterns[12].1 .1, Bitboard((1 << 3) | (1 << 5)));
    let white = init_pawn_attack_masks(true);
    let black = init_pawn_attack_masks(false);
    for square in 0..64usize {
        assert_eq!(white[square], pawn_attack_pattern(square, true));
        assert_eq!(black[square], pawn_attack_pattern(square, false));
    }
}

#[test]
fn rays_stop_on_the_first_blocker() {
    assert_eq!(ray_scan(0, 0, 1, 0), 0x0101010101010100);
    assert_eq!(ray_scan(0, 1, 0, 0), 0xfe);
    assert_eq!(ray_scan(0, 1, 1, 0), 0x8040201008040200);
    assert_eq!(ray_scan(0, -1, 0, 0), 0);
    assert_eq!(ray_scan(0, 0, 1, 1 << 24), 0x01010100);
    assert_eq!(ray_scan(27, -1, -1, 1 << 9), (1 << 18) | (1 << 9));
    assert_eq!(mask_scan(0, 0, 1), 0x0001010101010100);
    assert_eq!(mask_scan(0, 1, 0), 0x7e);
    assert_eq!(mask_scan(7, 1, 0), 0);
    assert_eq!(mask_scan(27, 1, 1), (1 << 36) | (1 << 45) | (1 << 54));
}

#[test]
fn masks_and_attacks_of_the_sliders() {
    assert_eq!(MagicGenerator::rmask(0), 0x000101010101017E);
    assert_eq!(MagicGenerator::rmask(27), 0x8080876080800);
    assert_eq!(MagicGenerator::bmask(0), 0x40201008040200);
    assert_eq!(MagicGenerator::bmask(27), 0x40221400142200);
    assert_eq!(MagicGenerator::mask_for(27, true), 0x40221400142200);
    assert_eq!(MagicGenerator::mask_for(27, false), 0x8080876080800);
    assert_eq!(MagicGenerator::ratt(0, 0), 0x01010101010101fe);
    assert_eq!(MagicGenerator::ratt(0, (1 << 2) | (1 << 16)), 0x10106);
    assert_eq!(MagicGenerator::batt(0, 0), 0x8040201008040200);
    assert_eq!(MagicGenerator::batt(27, 0), 0x8041221400142241);
    assert_eq!(MagicGenerator::attacks_for(0, 1 << 9, true), 1 << 9);
}

#[test]
fn table_lookups_agree_with_walking_the_rays() {
    let conductor = PieceConductor::new();
    let occupancies: [u64; 6] = [
        0,
        u64::MAX,
        0xFFFF_0000_0000_FFFF,
        0x0000_1234_5678_9abc,
        0x8100_0420_0018_2481,
        0x55aa_55aa_55aa_55aa,
    ];
    for square in 0..64usize {
        for occupancy in occupancies {
            let all = Bitboard(occupancy);
            let rook = conductor.get_rook_attacks(square, Bitboard(0), all);
            let bishop = conductor.get_bishop_attacks(square, Bitboard(0), all);
            assert_eq!(rook.0, MagicGenerator::ratt(square as i32, occupancy));
            assert_eq!(bishop.0, MagicGenerator::batt(square as i32, occupancy));
            assert_eq!(conductor.get_queen_attacks(square, all), rook.or(bishop));
            assert_eq!(
                PieceConductor::generate_legal_moves_from_blockers(square as u16, &all, true),
                rook
            );
            assert_eq!(
                PieceConductor::generate_legal_moves_from_blockers(square as u16, &all, false),
                bishop
            );
        }
    }
}

#[test]
fn subsets_of_a_mask() {
    let all = generate_blocker_bitboards(Bitboard(0b1010));
    assert_eq!(all, vec![Bitboard(0), Bitboard(0b10), Bitboard(0b1000), Bitboard(0b1010)]);
    assert_eq!(generate_blocker_bitboards(Bitboard(0)), vec![Bitboard(0)]);
    assert_eq!(generate_blocker_bitboards(Bitboard(0x7e)).len(), 64);
    let rook = generate_blocker_bitboards(Bitboard(MagicGenerator::rmask(0)));
    assert_eq!(rook.len(), 4096);
    assert_eq!(rook[4095], Bitboard(MagicGenerator::rmask(0)));
}

#[test]
fn magic_slots() {
    assert_eq!(MagicGenerator::transform(0, 0x1234, 12), 0);
    assert_eq!(MagicGenerator::transform(1, 0xFFF0_0000_0000_0000, 12), 4095);
    assert_eq!(MagicGenerator::transform(1, 0x8000_0000_0000_0000, 1), 1);
    assert_eq!(MagicGenerator::transform(3, 0x4000_0000_0000_0000, 2), 3);
    assert_eq!(MagicGenerator::transform(1, 0xFFFF_FFFF_0000_0000, 31), 0x7FFF_FFFF);
}

#[test]
fn magic_multipliers_are_told_from_others() {
    // The multiplier of the table for the rook on a1.
    assert!(MagicGenerator::is_magic_for(0, 0x0080041184614000, 12, false));
    // Zero sends every blocker set to the first slot.
    assert!(!MagicGenerator::is_magic_for(0, 0, 12, false));
    assert!(!MagicGenerator::is_magic_for(27, 1, 9, true));
    let filled = MagicGenerator::fill_table(0, 0x0080041184614000, 12, false);
    assert!(filled.1);
    assert_eq!(filled.0.len(), 4096);
    // Only the slots that some blocker set uses are filled.
    assert_eq!(MagicGenerator::fill_table(0, 0x8040201008040201, 6, true).1, false);
    let corner = MagicGenerator::fill_table(0, 0x8410544508092100, 6, true);
    assert!(corner.1);
    assert_eq!(corner.0.len(), 64);
    let refused = MagicGenerator::fill_table(0, 0, 12, false);
    assert!(!refused.1);
    assert!(refused.0.is_empty());
    // The multiplier of the table is taken; zero and one are not.
    assert!(MagicGenerator::accepts_candidate(0, 12, false, 0x0080041184614000));
    assert!(!MagicGenerator::accepts_candidate(0, 12, false, 0));
    assert!(!MagicGenerator::accepts_candidate(0, 12, false, 1));
    assert!(MagicGenerator::is_promising(0xFF, 0x0100_0000_0000_0000));
    assert!(!MagicGenerator::is_promising(0xFF, 1));
}

#[test]
fn a_found_multiplier_is_magic() {
    // A bishop in the corner has 64 blocker sets: a six-bit multiplier is
    // soon drawn.
    let found = MagicGenerator::find_magic_within(0, 6, true, 1_000_000);
    assert!(found.is_some());
    assert!(MagicGenerator::is_magic_for(0, found.unwrap(), 6, true));
    assert_eq!(MagicGenerator::find_magic_within(0, 6, true, 0), None);
}

#[test]
fn words_are_joined_and_cut() {
    assert_eq!(MagicGenerator::join_words(0x1111, 0x2222, 0x3333, 0x4444), 0x4444_3333_2222_1111);
    assert_eq!(MagicGenerator::join_words(0xffff, 0, 0, 0), 0xffff);
    assert_eq!(MagicGenerator::join_words(0, 0, 0, 0x8000), 0x8000_0000_0000_0000);
    assert_eq!(MagicGenerator::shared_bits(0b1110, 0b0111, 0b1011), 0b0010);
    assert_eq!(MagicGenerator::shared_bits(u64::MAX, 0xf0f0, u64::MAX), 0xf0f0);
    assert_eq!(MagicGenerator::shared_bits(1, 2, 3), 0);
}

#[test]
fn random_words_differ() {
    let mut seen = std::collections::HashSet::new();
    for _ in 0..64 {
        seen.insert(MagicGenerator::random_uint64());
    }
    assert!(seen.len() > 1);
    let mut few = 0u32;
    let mut many = 0u32;
    for _ in 0..64 {
        few += MagicGenerator::random_uint64_fewbits().count_ones();
        many += MagicGenerator::random_uint64().count_ones();
    }
    assert!(few < many);
}

#[test]
fn targets_become_moves() {
    let moves = targets_to_moves(12, Bitboard((1 << 20) | (1 << 28) | 1));
    let squares: Vec<(u16, u16, u16)> =
        moves.iter().map(|m| (m.start_square(), m.target_square(), m.flag())).collect();
    assert_eq!(squares, vec![(12, 0, 0), (12, 20, 0), (12, 28, 0)]);
    assert!(targets_to_moves(12, Bitboard(0)).is_empty());
}

#[test]
fn line_patterns() {
    assert_eq!(line_pattern(0, false), Bitboard(0x01010101010101fe));
    assert_eq!(line_pattern(0, true), Bitboard(0x8040201008040200));
    assert_eq!(line_pattern(27, true), Bitboard(0x8041221400142241));
    assert_eq!(line_pattern(27, false), Bitboard(0x08080808f7080808));
    let rooks = get_rook_move_patterns();
    let bishops = get_bishop_move_patterns();
    assert_eq!(rooks.len(), 64);
    assert_eq!(bishops.len(), 64);
    // From an inner square and from a corner the pattern is the whole lines.
    assert_eq!(rooks[27], Bitboard(0x08080808f7080808));
    assert_eq!(bishops[27], Bitboard(0x8041221400142241));
    assert_eq!(rooks[0], Bitboard(0x01010101010101fe));
    // From b1 it keeps the bottom edge and leaves out the other edges.
    assert_eq!(
        rooks[1],
        Bitboard(0x02020202020202fd & !(0x7e81_8181_8181_817eu64 & !0x7eu64))
    );
    let patterns = MovePatterns::new();
    assert_eq!(patterns.rook_move_patterns, rooks);
    assert_eq!(patterns.bishop_move_patterns, bishops);
    assert_eq!(patterns.knight_move_patterns, get_knight_move_patterns());
    assert_eq!(patterns.king_move_patterns, get_king_move_patterns());
    assert_eq!(patterns.pawn_move_patterns.len(), 64);
    assert_eq!(patterns.pawn_move_patterns[12].moves.0, Bitboard((1 << 20) | (1 << 28)));
    assert_eq!(patterns.pawn_move_patterns[12].captures.1, Bitboard((1 << 3) | (1 << 5)));
}
