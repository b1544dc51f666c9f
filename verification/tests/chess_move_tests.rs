use chess_engine::chess_move::ChessMove;
use chess_engine::piece::{ChessPiece, PieceType};

#[test]
fn move_fields_are_packed_into_sixteen_bits() {
    let m = ChessMove::new(12, 28);
    assert_eq!(m.value(), 12 | (28 << 6));
    assert_eq!(m.start_square(), 12);
    assert_eq!(m.target_square(), 28);
    assert_eq!(m.flag(), ChessMove::NO_FLAG);
    assert!(m.chess_piece.is_none());
    assert!(m.capture.is_none());
    let p = ChessMove::new_with_flag(63, 0, ChessMove::PROMOTE_TO_BISHOP_FLAG);
    assert_eq!(p.value(), 63 | (7 << 12));
    assert_eq!(p.start_square(), 63);
    assert_eq!(p.target_square(), 0);
    assert_eq!(p.flag(), 7);
    assert_eq!(ChessMove::default().value(), 0);
}

#[test]
fn move_flags() {
    let mut m = ChessMove::new_with_flag(52, 60, ChessMove::PROMOTE_TO_QUEEN_FLAG);
    assert!(m.has_flag(ChessMove::PROMOTE_TO_QUEEN_FLAG));
    assert!(!m.has_flag(ChessMove::NO_FLAG));
    assert!(m.is_promotion());
    assert_eq!(m.promotion_piece_type(), Some(PieceType::Queen));
    m.clear_flag(ChessMove::PROMOTE_TO_QUEEN_FLAG);
    assert_eq!(m.flag(), 0);
    assert!(!m.is_promotion());
    assert_eq!(m.promotion_piece_type(), None);
    m.set_flag(ChessMove::CASTLE_FLAG);
    assert_eq!(m.flag(), 2);
    assert_eq!(m.start_square(), 52);
    assert_eq!(m.target_square(), 60);
    let flags = [
        (ChessMove::PROMOTE_TO_QUEEN_FLAG, PieceType::Queen),
        (ChessMove::PROMOTE_TO_KNIGHT_FLAG, PieceType::Knight),
        (ChessMove::PROMOTE_TO_ROOK_FLAG, PieceType::Rook),
        (ChessMove::PROMOTE_TO_BISHOP_FLAG, PieceType::Bishop),
    ];
    for (flag, kind) in flags {
        let p = ChessMove::new_with_flag(8, 0, flag);
        assert!(p.is_promotion());
        assert_eq!(p.promotion_piece_type(), Some(kind));
    }
    for flag in [
        ChessMove::NO_FLAG,
        ChessMove::EN_PASSANT_CAPTURE_FLAG,
        ChessMove::CASTLE_FLAG,
        ChessMove::PAWN_TWO_UP_FLAG,
    ] {
        assert!(!ChessMove::new_with_flag(8, 16, flag).is_promotion());
    }
}

#[test]
fn sidecars_are_recorded() {
    let mut m = ChessMove::new(1, 18);
    m.set_piece(ChessPiece::new(PieceType::Knight, true));
    m.set_capture(ChessPiece::new(PieceType::Pawn, false));
    assert_eq!(m.chess_piece, Some(ChessPiece::new(PieceType::Knight, true)));
    assert_eq!(m.capture, Some(ChessPiece::new(PieceType::Pawn, false)));
    assert_eq!(m.value(), 1 | (18 << 6));
    let c = ChessMove::new_capture_with_flag(
        1,
        Some(ChessPiece::new(PieceType::Rook, false)),
        18,
        ChessMove::NO_FLAG,
    );
    assert_eq!(c.capture, Some(ChessPiece::new(PieceType::Rook, false)));
    assert!(c.chess_piece.is_none());
}

#[test]
fn order_key_values() {
    let mut pawn_takes_queen = ChessMove::new(28, 35);
    pawn_takes_queen.set_piece(ChessPiece::new(PieceType::Pawn, true));
    pawn_takes_queen.set_capture(ChessPiece::new(PieceType::Queen, false));
    assert_eq!(pawn_takes_queen.sort_key(), 1_528_116_502);
    let mut quiet_knight = ChessMove::new(1, 18);
    quiet_knight.set_piece(ChessPiece::new(PieceType::Knight, true));
    assert_eq!(quiet_knight.sort_key(), 1_600_140_323);
    assert_eq!(ChessMove::new(0, 1).sort_key(), 1_600_140_003);
}

#[test]
fn order_of_the_search() {
    let piece = |kind| ChessPiece::new(kind, true);
    let enemy = |kind| ChessPiece::new(kind, false);
    let mut takes_queen = ChessMove::new(0, 1);
    takes_queen.set_piece(piece(PieceType::Queen));
    takes_queen.set_capture(enemy(PieceType::Queen));
    let mut takes_pawn = ChessMove::new(0, 2);
    takes_pawn.set_piece(piece(PieceType::Pawn));
    takes_pawn.set_capture(enemy(PieceType::Pawn));
    let mut promotion = ChessMove::new_with_flag(48, 56, ChessMove::PROMOTE_TO_QUEEN_FLAG);
    promotion.set_piece(piece(PieceType::Pawn));
    let mut quiet_pawn = ChessMove::new(8, 16);
    quiet_pawn.set_piece(piece(PieceType::Pawn));
    let mut quiet_queen = ChessMove::new(3, 11);
    quiet_queen.set_piece(piece(PieceType::Queen));
    // The higher captured value comes first, whatever moves.
    assert!(takes_queen.sort_key() < takes_pawn.sort_key());
    // Captures come before promotions without capture, promotions before
    // quiet moves.
    assert!(takes_pawn.sort_key() < promotion.sort_key());
    assert!(promotion.sort_key() < quiet_pawn.sort_key());
    // Among quiet moves the piece of lower value comes first.
    assert!(quiet_pawn.sort_key() < quiet_queen.sort_key());
    assert!(quiet_pawn.ordered_before(&quiet_queen));
    assert!(!quiet_queen.ordered_before(&quiet_pawn));
    assert!(quiet_pawn.ordered_before(&quiet_pawn));
}

#[test]
fn short_text_of_a_move() {
    assert_eq!(ChessMove::new(12, 28).to_san_simple(), "e2e4");
    assert_eq!(ChessMove::new(0, 63).to_san_simple(), "a1h8");
    assert_eq!(
        ChessMove::new_with_flag(52, 60, ChessMove::PROMOTE_TO_QUEEN_FLAG).to_san_simple(),
        "e7e8q"
    );
    assert_eq!(
        ChessMove::new_with_flag(8, 0, ChessMove::PROMOTE_TO_KNIGHT_FLAG).to_san_simple(),
        "a2a1n"
    );
    assert_eq!(
        ChessMove::new_with_flag(8, 0, ChessMove::PROMOTE_TO_ROOK_FLAG).to_san_simple(),
        "a2a1r"
    );
    assert_eq!(
        ChessMove::new_with_flag(8, 0, ChessMove::PROMOTE_TO_BISHOP_FLAG).to_san_simple(),
        "a2a1b"
    );
    assert_eq!(
        ChessMove::new_with_flag(4, 6, ChessMove::CASTLE_FLAG).to_san_simple(),
        "e1g1"
    );
}

#[test]
fn reading_the_short_text() {
    assert_eq!(ChessMove::from_san("e2e4"), Some(ChessMove::new(12, 28)));
    assert_eq!(
        ChessMove::from_san("e7e8q"),
        Some(ChessMove::new_with_flag(52, 60, ChessMove::PROMOTE_TO_QUEEN_FLAG))
    );
    assert_eq!(
        ChessMove::from_san("a2a1n"),
        Some(ChessMove::new_with_flag(8, 0, ChessMove::PROMOTE_TO_KNIGHT_FLAG))
    );
    assert_eq!(ChessMove::from_san(""), None);
    assert_eq!(ChessMove::from_san("e2"), None);
    assert_eq!(ChessMove::from_san("e2e9"), None);
    assert_eq!(ChessMove::from_san("i2e4"), None);
    assert_eq!(ChessMove::from_san("e7e8k"), None);
    assert_eq!(ChessMove::from_san("e7e8qq"), None);
    for from in 0..64u16 {
        for to in [0u16, 7, 27, 36, 63] {
            let m = ChessMove::new(from, to);
            assert_eq!(ChessMove::from_san(&m.to_san_simple()), Some(m));
        }
    }
}

#[test]
fn long_text_of_a_move() {
    let mut knight = ChessMove::new(6, 21);
    knight.set_piece(ChessPiece::new(PieceType::Knight, true));
    assert_eq!(knight.to_san(), "Nf3");
    knight.set_capture(ChessPiece::new(PieceType::Pawn, false));
    assert_eq!(knight.to_san(), "Nxf3");
    let mut pawn = ChessMove::new(28, 35);
    pawn.set_piece(ChessPiece::new(PieceType::Pawn, true));
    assert_eq!(pawn.to_san(), "d5");
    pawn.set_capture(ChessPiece::new(PieceType::Pawn, false));
    assert_eq!(pawn.to_san(), "exd5");
    let mut promotion = ChessMove::new_with_flag(52, 60, ChessMove::PROMOTE_TO_ROOK_FLAG);
    promotion.set_piece(ChessPiece::new(PieceType::Pawn, true));
    assert_eq!(promotion.to_san(), "e8=R");
    assert_eq!(ChessMove::new(12, 28).to_san(), "e4");
}

#[test]
fn pieces() {
    let queen = ChessPiece::new(PieceType::Queen, false);
    assert!(queen.is_black());
    assert!(!queen.is_white());
    assert_eq!(queen.piece_type(), PieceType::Queen);
    assert_eq!(queen.value(), 900);
    assert_eq!(queen.to_char(), 'Q');
    assert_eq!(PieceType::Pawn.value(), 100);
    assert_eq!(PieceType::Knight.value(), 320);
    assert_eq!(PieceType::Bishop.value(), 330);
    assert_eq!(PieceType::Rook.value(), 500);
    assert_eq!(PieceType::King.value(), 20000);
    assert_eq!(ChessPiece::piecetype_to_char(PieceType::Knight), 'N');
    assert_eq!(ChessPiece::piecetype_to_lower_char(PieceType::Knight), 'n');
    assert_eq!(PieceType::Pawn.to_text(), "");
    assert_eq!(PieceType::King.to_text(), "K");
}
