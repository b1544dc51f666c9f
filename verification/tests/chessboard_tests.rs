use chess_engine::bitboard::Bitboard;
use chess_engine::chess_move::ChessMove;
use chess_engine::chessboard::{CastlingRights, ChessBoard};
use chess_engine::fen::FENParser;
use chess_engine::move_generator::get_all_legal_moves_for_color;
use chess_engine::piece::{ChessPiece, PieceType};
use chess_engine::piece_conductor::PieceConductor;

fn board_from(fen: &str) -> ChessBoard {
    let mut board = ChessBoard::new();
    assert!(board.set_from_fen(fen).is_ok());
    board
}

fn words(board: &ChessBoard) -> [u64; 8] {
    [
        board.white.0,
        board.black.0,
        board.pawns.0,
        board.knights.0,
        board.bishops.0,
        board.rooks.0,
        board.queens.0,
        board.kings.0,
    ]
}

fn occupancy_agrees(board: &ChessBoard) {
    assert_eq!(board.white.0 & board.black.0, 0);
    assert_eq!(
        board.white.0 | board.black.0,
        board.pawns.0
            | board.knights.0
            | board.bishops.0
            | board.rooks.0
            | board.queens.0
            | board.kings.0
    );
    assert!(board.is_valid());
}

#[test]
fn start_position() {
    let board = ChessBoard::new();
    assert_eq!(board.get_white(), Bitboard(0xFFFF));
    assert_eq!(board.get_black(), Bitboard(0xFFFF_0000_0000_0000));
    assert_eq!(board.get_pawns(), Bitboard(0x00FF_0000_0000_FF00));
    assert_eq!(board.get_knights(), Bitboard(0x4200_0000_0000_0042));
    assert_eq!(board.get_bishops(), Bitboard(0x2400_0000_0000_0024));
    assert_eq!(board.get_rooks(), Bitboard(0x8100_0000_0000_0081));
    assert_eq!(board.get_queens(), Bitboard(0x0800_0000_0000_0008));
    assert_eq!(board.get_kings(), Bitboard(0x1000_0000_0000_0010));
    assert_eq!(board.castling_rights, 0b1111);
    assert!(board.is_white_active());
    assert_eq!(board.get_last_move(), None);
    assert_eq!(board.get_all_pieces(), Bitboard(0xFFFF_0000_0000_FFFF));
    assert_eq!(board.get_all_free_squares(), Bitboard(0x0000_FFFF_FFFF_0000));
    assert_eq!(board.get_king(true), Bitboard(1 << 4));
    assert_eq!(board.get_king(false), Bitboard(1 << 60));
    assert_eq!(board.get_opponent_pieces(true), Bitboard(0xFFFF_0000_0000_0000));
    assert_eq!(board.get_own_pieces(true), Bitboard(0xFFFF));
    assert_eq!(board.get_pieces(PieceType::Rook, false), Bitboard(0x8100_0000_0000_0000));
    occupancy_agrees(&board);
}

#[test]
fn pieces_on_squares() {
    let board = ChessBoard::new();
    assert_eq!(board.get_piece_at_square(0), Some(ChessPiece::new(PieceType::Rook, true)));
    assert_eq!(board.get_piece_at_square(4), Some(ChessPiece::new(PieceType::King, true)));
    assert_eq!(board.get_piece_at_square(59), Some(ChessPiece::new(PieceType::Queen, false)));
    assert_eq!(board.get_piece_at_square(52), Some(ChessPiece::new(PieceType::Pawn, false)));
    assert_eq!(board.get_piece_at_square(27), None);
    assert_eq!(board.get_piece_at_square(64), None);
    assert_eq!(board.get_piece_type(1), Some(PieceType::Knight));
    assert_eq!(board.get_piece_type(2), Some(PieceType::Bishop));
    assert_eq!(board.get_piece_type(30), None);
    assert!(board.is_square_white(8));
    assert!(!board.is_square_white(48));
    assert!(!board.is_square_white(30));
    assert_eq!(board.get_piece_character(0), 'R');
    assert_eq!(board.get_piece_character(60), 'k');
    assert_eq!(board.get_piece_character(30), '.');
    let grid = board.generate_board_representation();
    assert_eq!(grid[0], ['r', 'n', 'b', 'q', 'k', 'b', 'n', 'r']);
    assert_eq!(grid[1], ['p'; 8]);
    assert_eq!(grid[4], ['.'; 8]);
    assert_eq!(grid[6], ['P'; 8]);
    assert_eq!(grid[7], ['R', 'N', 'B', 'Q', 'K', 'B', 'N', 'R']);
}

#[test]
fn clearing_and_placing() {
    let mut board = ChessBoard::new();
    board.clear();
    assert_eq!(words(&board), [0; 8]);
    assert_eq!(board.castling_rights, 0b1111);
    assert!(board.is_white_active());
    board.set_piece_at_square(10, PieceType::Queen, false);
    assert_eq!(board.get_piece_at_square(10), Some(ChessPiece::new(PieceType::Queen, false)));
    // Placing replaces what stood there.
    board.set_piece_at_square(10, PieceType::Pawn, true);
    assert_eq!(board.get_piece_at_square(10), Some(ChessPiece::new(PieceType::Pawn, true)));
    assert_eq!(board.get_queens(), Bitboard(0));
    assert_eq!(board.get_black(), Bitboard(0));
    occupancy_agrees(&board);
    board.clear_square(10);
    assert_eq!(words(&board), [0; 8]);
    board.set_active_color(false);
    assert!(!board.is_white_active());
}

#[test]
fn a_board_with_clashing_bitboards_is_not_valid() {
    let mut board = ChessBoard::new();
    assert!(board.is_valid());
    board.white = Bitboard(board.white.0 | (1 << 63));
    assert!(!board.is_valid());
    let mut other = ChessBoard::new();
    other.knights = Bitboard(other.knights.0 | 1);
    assert!(!other.is_valid());
}

#[test]
fn castling_rights_as_letters() {
    let mut board = ChessBoard::new();
    assert_eq!(board.get_castling_rights(), "KQkq");
    assert_eq!(board.get_fen_castling_rights(), "KQkq");
    board.set_castling_rights_from_fen("Kq");
    assert_eq!(board.castling_rights, 0b1001);
    assert_eq!(board.get_castling_rights(), "Kq");
    board.set_castling_rights_from_fen("-");
    assert_eq!(board.castling_rights, 0);
    assert_eq!(board.get_castling_rights(), "");
    assert_eq!(CastlingRights::WhiteKingSide.bits(), 0b1000);
    assert_eq!(CastlingRights::WhiteQueenSide.bits(), 0b0100);
    assert_eq!(CastlingRights::BlackKingSide.bits(), 0b0010);
    assert_eq!(CastlingRights::BlackQueenSide.bits(), 0b0001);
    assert_eq!(CastlingRights::AllCastlingRights.bits(), 0b1111);
}

#[test]
fn clear_paths() {
    let board = ChessBoard::new();
    assert!(!board.is_path_clear(4, 7));
    assert!(!board.is_path_clear(0, 4));
    assert!(board.is_path_clear(16, 23));
    assert!(board.is_path_clear(23, 16));
    assert!(board.is_path_clear(3, 4));
    let castle = board_from("r3k2r/8/8/8/8/8/8/R3K2R w KQkq - 0 1");
    assert!(castle.is_path_clear(4, 7));
    assert!(castle.is_path_clear(4, 0));
}

#[test]
fn a_plain_move_and_its_undo() {
    let mut board = ChessBoard::new();
    let before = words(&board);
    let mut m = ChessMove::new_with_flag(12, 28, ChessMove::PAWN_TWO_UP_FLAG);
    assert!(board.make_move(&mut m));
    assert_eq!(m.chess_piece, Some(ChessPiece::new(PieceType::Pawn, true)));
    assert_eq!(m.capture, None);
    assert_eq!(board.get_piece_at_square(12), None);
    assert_eq!(board.get_piece_at_square(28), Some(ChessPiece::new(PieceType::Pawn, true)));
    assert!(!board.is_white_active());
    assert_eq!(board.castling_rights, 0b1111);
    assert_eq!(board.get_last_move(), Some(m));
    assert_eq!(board.move_history.len(), 1);
    occupancy_agrees(&board);
    assert!(board.undo_move());
    assert_eq!(words(&board), before);
    assert!(board.is_white_active());
    assert_eq!(board.move_history.len(), 0);
}

#[test]
fn undo_without_a_move_is_reported() {
    let mut board = ChessBoard::new();
    let before = words(&board);
    assert!(!board.undo_move());
    assert_eq!(words(&board), before);
    assert!(board.is_white_active());
    assert_eq!(board.castling_rights, 0b1111);
}

#[test]
fn a_capture_of_the_own_colour_is_refused() {
    let mut board = ChessBoard::new();
    let before = words(&board);
    let mut m = ChessMove::new(0, 8);
    assert!(!board.make_move(&mut m));
    assert_eq!(m, ChessMove::new(0, 8));
    assert_eq!(words(&board), before);
    assert!(board.is_white_active());
    assert_eq!(board.move_history.len(), 0);
    // So is a move from an empty square.
    let mut empty = ChessMove::new(30, 38);
    assert!(!board.make_move(&mut empty));
    assert_eq!(words(&board), before);
}

#[test]
fn misshapen_special_moves_are_refused() {
    let mut board = ChessBoard::new();
    let before = words(&board);
    // An en-passant capture with no pawn to take.
    let mut en_passant = ChessMove::new_with_flag(12, 21, ChessMove::EN_PASSANT_CAPTURE_FLAG);
    assert!(!board.make_move(&mut en_passant));
    // A castling move by a knight, and one by a king over its own bishop.
    let mut knight = ChessMove::new_with_flag(1, 18, ChessMove::CASTLE_FLAG);
    assert!(!board.make_move(&mut knight));
    let mut king = ChessMove::new_with_flag(4, 6, ChessMove::CASTLE_FLAG);
    assert!(!board.make_move(&mut king));
    // A promotion by a knight.
    let mut promotion = ChessMove::new_with_flag(1, 18, ChessMove::PROMOTE_TO_QUEEN_FLAG);
    assert!(!board.make_move(&mut promotion));
    assert_eq!(words(&board), before);
    assert_eq!(board.move_history.len(), 0);
}

#[test]
fn a_capture_and_its_undo() {
    let mut board = board_from("4k3/8/8/3p4/4P3/8/8/4K3 w - - 0 1");
    let before = words(&board);
    let mut m = ChessMove::new(28, 35);
    assert!(board.make_move(&mut m));
    assert_eq!(m.capture, Some(ChessPiece::new(PieceType::Pawn, false)));
    assert_eq!(board.get_piece_at_square(35), Some(ChessPiece::new(PieceType::Pawn, true)));
    assert_eq!(board.get_black(), Bitboard(1 << 60));
    occupancy_agrees(&board);
    assert!(board.undo_move());
    assert_eq!(words(&board), before);
}

#[test]
fn castling_moves_the_rook_and_takes_the_rights() {
    let mut board = board_from("r3k2r/8/8/8/8/8/8/R3K2R w KQkq - 0 1");
    let before = words(&board);
    let mut short = ChessMove::new_with_flag(4, 6, ChessMove::CASTLE_FLAG);
    assert!(board.make_move(&mut short));
    assert_eq!(board.get_piece_at_square(6), Some(ChessPiece::new(PieceType::King, true)));
    assert_eq!(board.get_piece_at_square(5), Some(ChessPiece::new(PieceType::Rook, true)));
    assert_eq!(board.get_piece_at_square(7), None);
    assert_eq!(board.get_piece_at_square(4), None);
    assert_eq!(board.castling_rights, 0b0011);
    occupancy_agrees(&board);
    let mut long = ChessMove::new_with_flag(60, 58, ChessMove::CASTLE_FLAG);
    assert!(board.make_move(&mut long));
    assert_eq!(board.get_piece_at_square(58), Some(ChessPiece::new(PieceType::King, false)));
    assert_eq!(board.get_piece_at_square(59), Some(ChessPiece::new(PieceType::Rook, false)));
    assert_eq!(board.get_piece_at_square(56), None);
    assert_eq!(board.castling_rights, 0);
    assert!(board.undo_move());
    assert_eq!(board.castling_rights, 0b0011);
    assert!(board.undo_move());
    assert_eq!(board.castling_rights, 0b1111);
    assert_eq!(words(&board), before);
}

#[test]
fn rook_moves_and_rook_captures_take_one_right() {
    let mut board = board_from("r3k2r/8/8/8/8/8/8/R3K2R w KQkq - 0 1");
    let mut rook = ChessMove::new(7, 15);
    assert!(board.make_move(&mut rook));
    assert_eq!(board.castling_rights, 0b0111);
    let mut black_rook = ChessMove::new(56, 0);
    assert!(board.make_move(&mut black_rook));
    // The black rook left a8 and took the rook on a1.
    assert_eq!(board.castling_rights, 0b0010);
    let mut king = ChessMove::new(4, 12);
    assert!(board.make_move(&mut king));
    assert_eq!(board.castling_rights, 0b0010);
    let mut black_king = ChessMove::new(60, 52);
    assert!(board.make_move(&mut black_king));
    assert_eq!(board.castling_rights, 0);
}

#[test]
fn en_passant_removes_the_pawn_behind_the_target() {
    let mut board = board_from("4k3/8/8/3pP3/8/8/8/4K3 w - - 0 1");
    let before = words(&board);
    let mut m = ChessMove::new_with_flag(36, 43, ChessMove::EN_PASSANT_CAPTURE_FLAG);
    assert!(board.make_move(&mut m));
    assert_eq!(m.capture, Some(ChessPiece::new(PieceType::Pawn, false)));
    assert_eq!(board.get_piece_at_square(43), Some(ChessPiece::new(PieceType::Pawn, true)));
    assert_eq!(board.get_piece_at_square(35), None);
    assert_eq!(board.get_piece_at_square(36), None);
    occupancy_agrees(&board);
    assert!(board.undo_move());
    assert_eq!(words(&board), before);
    let mut black = board_from("4k3/8/8/8/3pP3/8/8/4K3 b - - 0 1");
    let black_before = words(&black);
    let mut n = ChessMove::new_with_flag(27, 20, ChessMove::EN_PASSANT_CAPTURE_FLAG);
    assert!(black.make_move(&mut n));
    assert_eq!(black.get_piece_at_square(28), None);
    assert_eq!(black.get_piece_at_square(20), Some(ChessPiece::new(PieceType::Pawn, false)));
    assert!(black.undo_move());
    assert_eq!(words(&black), black_before);
}

#[test]
fn promotion_puts_the_new_piece_on_the_target() {
    let mut board = board_from("r3k3/1P6/8/8/8/8/8/4K3 w - - 0 1");
    let before = words(&board);
    let mut m = ChessMove::new_with_flag(49, 56, ChessMove::PROMOTE_TO_KNIGHT_FLAG);
    assert!(board.make_move(&mut m));
    assert_eq!(m.chess_piece, Some(ChessPiece::new(PieceType::Pawn, true)));
    assert_eq!(m.capture, Some(ChessPiece::new(PieceType::Rook, false)));
    assert_eq!(board.get_piece_at_square(56), Some(ChessPiece::new(PieceType::Knight, true)));
    assert_eq!(board.get_pawns(), Bitboard(0));
    occupancy_agrees(&board);
    assert!(board.undo_move());
    assert_eq!(words(&board), before);
    assert_eq!(board.get_piece_at_square(49), Some(ChessPiece::new(PieceType::Pawn, true)));
}

#[test]
fn every_legal_move_is_taken_back_exactly() {
    let conductor = PieceConductor::new();
    for fen in [
        "rnbqkbnr/pppppppp/8/8/8/8/PPPPPPPP/RNBQKBNR w KQkq - 0 1",
        "r3k2r/p1ppqpb1/bn2pnp1/3PN3/1p2P3/2N2Q1p/PPPBBPPP/R3K2R w KQkq - 0 1",
        "r3k2r/Pppp1ppp/1b3nbN/nP6/BBP1P3/q4N2/Pp1P2PP/R2Q1RK1 b kq - 0 1",
        "8/2p5/3p4/KP5r/1R3p1k/8/4P1P1/8 w - - 0 1",
    ] {
        let mut board = board_from(fen);
        let side = board.is_white_active();
        let moves = get_all_legal_moves_for_color(&mut board, &conductor, side);
        assert!(!moves.is_empty());
        for m in moves {
            let before = words(&board);
            let rights = board.castling_rights;
            let text = FENParser::board_to_fen(&board);
            let mut made = m;
            assert!(board.make_move(&mut made));
            assert_eq!(made, m);
            occupancy_agrees(&board);
            assert_eq!(board.is_white_active(), !side);
            assert_eq!(board.move_history.len(), 1);
            assert!(board.undo_move());
            assert_eq!(words(&board), before);
            assert_eq!(board.castling_rights, rights);
            assert_eq!(board.is_white_active(), side);
            assert_eq!(board.move_history.len(), 0);
            assert_eq!(FENParser::board_to_fen(&board), text);
        }
    }
}

#[test]
fn first_moves_keep_kings_and_pawn_ranks() {
    let conductor = PieceConductor::new();
    let mut board = ChessBoard::new();
    for ply in 0..60 {
        let side = board.is_white_active();
        let moves = get_all_legal_moves_for_color(&mut board, &conductor, side);
        if moves.is_empty() {
            break;
        }
        let mut m = moves[(ply * 7) % moves.len()];
        assert!(board.make_move(&mut m));
        occupancy_agrees(&board);
        assert_eq!(board.get_king(true).count_ones(), 1);
        assert_eq!(board.get_king(false).count_ones(), 1);
        assert_eq!(board.get_pawns().and(Bitboard(0xFF00_0000_0000_00FF)).count_ones(), 0);
        assert!(!conductor.is_king_in_check(&board, side));
    }
}

#[test]
fn castling_starts_from_the_home_square() {
    // The king stands on d1, one file off its home square.
    let mut board = board_from("4k3/8/8/8/8/8/8/3K3R w K - 0 1");
    let before = words(&board);
    let mut shifted = ChessMove::new_with_flag(3, 5, ChessMove::CASTLE_FLAG);
    assert!(!board.make_move(&mut shifted));
    let mut other_way = ChessMove::new_with_flag(3, 1, ChessMove::CASTLE_FLAG);
    assert!(!board.make_move(&mut other_way));
    assert_eq!(words(&board), before);
    assert_eq!(board.get_piece_at_square(3), Some(ChessPiece::new(PieceType::King, true)));
    assert_eq!(board.get_piece_at_square(7), Some(ChessPiece::new(PieceType::Rook, true)));
    assert_eq!(board.move_history.len(), 0);
    // A black king on White's home square is not at home either.
    let mut swapped = board_from("4K3/8/8/8/8/8/8/4k2r b - - 0 1");
    let swapped_before = words(&swapped);
    let mut away = ChessMove::new_with_flag(4, 6, ChessMove::CASTLE_FLAG);
    assert!(!swapped.make_move(&mut away));
    assert_eq!(words(&swapped), swapped_before);
    // From the home square the same move is made.
    let mut home = board_from("4k3/8/8/8/8/8/8/4K2R w K - 0 1");
    let mut castle = ChessMove::new_with_flag(4, 6, ChessMove::CASTLE_FLAG);
    assert!(home.make_move(&mut castle));
    assert_eq!(home.get_piece_at_square(6), Some(ChessPiece::new(PieceType::King, true)));
    assert_eq!(home.get_piece_at_square(5), Some(ChessPiece::new(PieceType::Rook, true)));
}

#[test]
fn a_double_push_is_checked() {
    let mut board = ChessBoard::new();
    let before = words(&board);
    // By a knight, and by a pawn that steps one square only.
    let mut knight = ChessMove::new_with_flag(1, 18, ChessMove::PAWN_TWO_UP_FLAG);
    assert!(!board.make_move(&mut knight));
    let mut single = ChessMove::new_with_flag(12, 20, ChessMove::PAWN_TWO_UP_FLAG);
    assert!(!board.make_move(&mut single));
    let mut sideways = ChessMove::new_with_flag(12, 29, ChessMove::PAWN_TWO_UP_FLAG);
    assert!(!board.make_move(&mut sideways));
    assert_eq!(words(&board), before);
    // From a rank that is not the start rank.
    let mut advanced = board_from("4k3/8/8/8/8/4P3/8/4K3 w - - 0 1");
    let mut late = ChessMove::new_with_flag(20, 36, ChessMove::PAWN_TWO_UP_FLAG);
    assert!(!advanced.make_move(&mut late));
    // Over a piece, and onto a piece of the other side.
    let mut blocked = board_from("4k3/8/8/8/8/4n3/4P3/4K3 w - - 0 1");
    let mut over = ChessMove::new_with_flag(12, 28, ChessMove::PAWN_TWO_UP_FLAG);
    assert!(!blocked.make_move(&mut over));
    let mut met = board_from("4k3/8/8/8/4p3/8/4P3/4K3 w - - 0 1");
    let mut onto = ChessMove::new_with_flag(12, 28, ChessMove::PAWN_TWO_UP_FLAG);
    assert!(!met.make_move(&mut onto));
    assert_eq!(met.get_piece_at_square(28), Some(ChessPiece::new(PieceType::Pawn, false)));
    // A black pawn pushes down the board, not up.
    let mut black = board_from("4k3/4p3/8/8/8/8/3p4/4K3 b - - 0 1");
    let mut upward = ChessMove::new_with_flag(11, 27, ChessMove::PAWN_TWO_UP_FLAG);
    assert!(!black.make_move(&mut upward));
    let mut downward = ChessMove::new_with_flag(52, 36, ChessMove::PAWN_TWO_UP_FLAG);
    assert!(black.make_move(&mut downward));
    assert_eq!(black.get_piece_at_square(36), Some(ChessPiece::new(PieceType::Pawn, false)));
    assert_eq!(black.get_piece_at_square(52), None);
    assert!(black.undo_move());
    assert_eq!(black.get_piece_at_square(52), Some(ChessPiece::new(PieceType::Pawn, false)));
}

#[test]
fn a_promotion_reaches_the_last_rank() {
    let mut board = ChessBoard::new();
    let before = words(&board);
    let mut early = ChessMove::new_with_flag(12, 20, ChessMove::PROMOTE_TO_QUEEN_FLAG);
    assert!(!board.make_move(&mut early));
    assert_eq!(words(&board), before);
    assert_eq!(board.get_piece_at_square(12), Some(ChessPiece::new(PieceType::Pawn, true)));
    // A white pawn does not promote on the first rank.
    let mut low = board_from("4k3/8/8/8/8/8/1P6/4K3 w - - 0 1");
    let mut backwards = ChessMove::new_with_flag(9, 1, ChessMove::PROMOTE_TO_ROOK_FLAG);
    assert!(!low.make_move(&mut backwards));
    // A black pawn does.
    let mut black = board_from("4k3/8/8/8/8/8/1p6/4K3 b - - 0 1");
    let mut queen = ChessMove::new_with_flag(9, 1, ChessMove::PROMOTE_TO_QUEEN_FLAG);
    assert!(black.make_move(&mut queen));
    assert_eq!(black.get_piece_at_square(1), Some(ChessPiece::new(PieceType::Queen, false)));
    assert!(black.undo_move());
    assert_eq!(black.get_piece_at_square(9), Some(ChessPiece::new(PieceType::Pawn, false)));
    assert_eq!(black.get_piece_at_square(1), None);
}

#[test]
fn an_unknown_flag_is_refused() {
    let mut board = ChessBoard::new();
    let before = words(&board);
    for flag in 8u16..16u16 {
        let mut m = ChessMove::new_with_flag(12, 20, flag);
        assert!(!board.make_move(&mut m));
    }
    assert_eq!(words(&board), before);
    assert_eq!(board.move_history.len(), 0);
}

#[test]
fn castling_masks_hold_four_bits() {
    let mut board = ChessBoard::new();
    assert!(board.is_valid());
    board.castling_rights = 0b1_0000;
    assert!(!board.is_valid());
    board.castling_rights = 0b1111;
    assert!(board.is_valid());
    board.move_history.push((ChessMove::new(12, 20), 0b0101));
    assert!(board.is_valid());
    board.move_history.push((ChessMove::new(52, 44), 0b1000_0000));
    assert!(!board.is_valid());
    board.move_history.pop();
    assert!(board.is_valid());
}

#[test]
fn a_board_set_from_a_text_keeps_nothing_of_its_past() {
    let conductor = PieceConductor::new();
    for fen in [
        "rnbqkbnr/pppppppp/8/8/8/8/PPPPPPPP/RNBQKBNR w KQkq - 0 1",
        "r3k2r/p1ppqpb1/bn2pnp1/3PN3/1p2P3/2N2Q1p/PPPBBPPP/R3K2R b Kq - 0 1",
        "8/2p5/3p4/KP5r/1R3p1k/8/4P1P1/8 b - - 0 1",
    ] {
        let source = board_from(fen);
        let text = FENParser::board_to_fen(&source);
        // A board in the middle of a game.
        let mut played = ChessBoard::new();
        let moves = get_all_legal_moves_for_color(&mut played, &conductor, true);
        let mut first = moves[0];
        assert!(played.make_move(&mut first));
        assert!(played.get_last_move().is_some());
        assert!(FENParser::set_board_from_fen(&mut played, &text).is_ok());
        assert_eq!(words(&played), words(&source));
        assert_eq!(played.white_to_move, source.white_to_move);
        assert_eq!(played.castling_rights, source.castling_rights);
        assert_eq!(played.get_last_move(), None);
        assert!(played.is_valid());
        // A board whose words agree on nothing.
        let mut broken = ChessBoard::new();
        broken.white = Bitboard(u64::MAX);
        broken.kings = Bitboard(u64::MAX);
        broken.castling_rights = 0xFF;
        broken.move_history.push((ChessMove::new(1, 2), 0xF0));
        assert!(!broken.is_valid());
        assert!(broken.set_from_fen(&text).is_ok());
        assert_eq!(words(&broken), words(&source));
        assert_eq!(broken.white_to_move, source.white_to_move);
        assert_eq!(broken.castling_rights, source.castling_rights);
        assert_eq!(broken.get_last_move(), None);
        assert!(broken.is_valid());
    }
}
