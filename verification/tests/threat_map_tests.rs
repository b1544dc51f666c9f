use chess_engine::bitboard::Bitboard;
use chess_engine::chessboard::ChessBoard;
use chess_engine::piece::PieceType;
use chess_engine::piece_conductor::PieceConductor;

#[test]
fn piece_conductor_test_threat_map_queen() {
    let mut chess_board = ChessBoard::new();
    chess_board.clear();
    let magic = PieceConductor::new();
    let is_white = false;

    chess_board.set_piece_at_square(0, PieceType::Queen, is_white);
    let mut threat_map = magic.generate_threat_map(&chess_board, !is_white);
    println!("Threat map:");
    println!("{}", threat_map.to_text());
    let mut expected_threat_map = Bitboard(0x81412111090503fe);
    assert_eq!(
        threat_map, expected_threat_map,
        "The generated threat map does not match the expected map."
    );
    chess_board.clear();
    chess_board.set_piece_at_square(34, PieceType::Queen, is_white);
    threat_map = magic.generate_threat_map(&chess_board, !is_white);
    println!("Threat map:");
    println!("{}", threat_map.to_text());
    expected_threat_map = Bitboard(0x24150efb0e152444);
    assert_eq!(
        threat_map, expected_threat_map,
        "The generated threat map does not match the expected map."
    );
}

#[test]
fn piece_conductor_test_threat_map_bishop() {
    let mut chess_board = ChessBoard::new();
    chess_board.clear();
    let magic = PieceConductor::new();
    let is_white = false;

    chess_board.set_piece_at_square(0, PieceType::Bishop, is_white);
    let mut threat_map = magic.generate_threat_map(&chess_board, !is_white);
    println!("Threat map:");
    println!("{}", threat_map.to_text());
    let mut expected_threat_map = Bitboard(0x8040201008040200);
    assert_eq!(
        threat_map, expected_threat_map,
        "The generated threat map does not match the expected map."
    );
    chess_board.clear();
    chess_board.set_piece_at_square(34, PieceType::Bishop, is_white);
    chess_board.set_piece_at_square(36, PieceType::Bishop, is_white);
    threat_map = magic.generate_threat_map(&chess_board, !is_white);
    println!("Threat map:");
    println!("{}", threat_map.to_text());
    expected_threat_map = Bitboard(0xa2552a002a55a241);
    assert_eq!(
        threat_map, expected_threat_map,
        "The generated threat map does not match the expected map."
    );
}

#[test]
fn piece_conductor_test_threat_map_rook() {
    let mut chess_board = ChessBoard::new();
    chess_board.clear();
    let magic = PieceConductor::new();
    let is_white = false;

    chess_board.set_piece_at_square(0, PieceType::Rook, is_white);
    let mut threat_map = magic.generate_threat_map(&chess_board, !is_white);
    println!("Threat map:");
    println!("{}", threat_map.to_text());
    let mut expected_threat_map = Bitboard(0x1010101010101fe);
    assert_eq!(
        threat_map, expected_threat_map,
        "The generated threat map does not match the expected map."
    );
    chess_board.clear();
    chess_board.set_piece_at_square(63, PieceType::Rook, is_white);
    chess_board.set_piece_at_square(0, PieceType::Rook, is_white);
    threat_map = magic.generate_threat_map(&chess_board, !is_white);
    println!("Threat map:");
    println!("{}", threat_map.to_text());
    expected_threat_map = Bitboard(0x7f818181818181fe);
    assert_eq!(
        threat_map, expected_threat_map,
        "The generated threat map does not match the expected map."
    );
}

#[test]
fn piece_conductor_test_threat_map_pawn() {
    let mut chess_board = ChessBoard::new();
    chess_board.clear();
    let magic = PieceConductor::new();
    let is_white = true;
    let square = 48;
    chess_board.set_piece_at_square(square, PieceType::Pawn, false);

    let threat_map = magic.generate_threat_map(&chess_board, is_white);
    println!("pawn map:");
    println!("{}", Bitboard::from_square_index(square).to_text());
    println!("Threat map:");
    println!("{}", threat_map.to_text());
}

#[test]
fn piece_conductor_test_threat_from_fen() {
    let mut chess_board = ChessBoard::new();
    let magic = PieceConductor::new();
    let is_white = false;

    let _ = chess_board.set_from_fen("8/p2k4/1N6/8/8/8/8/4K3 w  - 0 1");
    let threat_map = magic.generate_threat_map(&chess_board, is_white);

    println!("Threat map:");
    println!("{}", threat_map.to_text());
}

#[test]
fn magic_test_threat_map_queen() {
    let mut chess_board = ChessBoard::new();
    chess_board.clear();
    let magic = PieceConductor::new();
    let is_white = false;

    chess_board.set_piece_at_square(0, PieceType::Queen, is_white);
    let mut threat_map = magic.generate_threat_map(&chess_board, !is_white);
    println!("Threat map:");
    println!("{}", threat_map.to_text());
    let mut expected_threat_map = Bitboard(0x81412111090503fe);
    assert_eq!(
        threat_map, expected_threat_map,
        "The generated threat map does not match the expected map."
    );
    chess_board.clear();
    chess_board.set_piece_at_square(34, PieceType::Queen, is_white);
    threat_map = magic.generate_threat_map(&chess_board, !is_white);
    println!("Threat map:");
    println!("{}", threat_map.to_text());
    expected_threat_map = Bitboard(0x24150efb0e152444);
    assert_eq!(
        threat_map, expected_threat_map,
        "The generated threat map does not match the expected map."
    );
}

#[test]
fn magic_test_threat_map_bishop() {
    let mut chess_board = ChessBoard::new();
    chess_board.clear();
    let magic = PieceConductor::new();
    let is_white = false;

    chess_board.set_piece_at_square(0, PieceType::Bishop, is_white);
    let mut threat_map = magic.generate_threat_map(&chess_board, !is_white);
    println!("Threat map:");
    println!("{}", threat_map.to_text());
    let mut expected_threat_map = Bitboard(0x8040201008040200);
    assert_eq!(
        threat_map, expected_threat_map,
        "The generated threat map does not match the expected map."
    );
    chess_board.clear();
    chess_board.set_piece_at_square(34, PieceType::Bishop, is_white);
    chess_board.set_piece_at_square(36, PieceType::Bishop, is_white);
    threat_map = magic.generate_threat_map(&chess_board, !is_white);
    println!("Threat map:");
    println!("{}", threat_map.to_text());
    expected_threat_map = Bitboard(0xa2552a002a55a241);
    assert_eq!(
        threat_map, expected_threat_map,
        "The generated threat map does not match the expected map."
    );
}

#[test]
fn magic_test_threat_map_rook() {
    let mut chess_board = ChessBoard::new();
    chess_board.clear();
    let magic = PieceConductor::new();
    let is_white = false;

    chess_board.set_piece_at_square(0, PieceType::Rook, is_white);
    let mut threat_map = magic.generate_threat_map(&chess_board, !is_white);
    println!("Threat map:");
    println!("{}", threat_map.to_text());
    let mut expected_threat_map = Bitboard(0x1010101010101fe);
    assert_eq!(
        threat_map, expected_threat_map,
        "The generated threat map does not match the expected map."
    );
    chess_board.clear();
    chess_board.set_piece_at_square(63, PieceType::Rook, is_white);
    chess_board.set_piece_at_square(0, PieceType::Rook, is_white);
    threat_map = magic.generate_threat_map(&chess_board, !is_white);
    println!("Threat map:");
    println!("{}", threat_map.to_text());
    expected_threat_map = Bitboard(0x7f818181818181fe);
    assert_eq!(
        threat_map, expected_threat_map,
        "The generated threat map does not match the expected map."
    );
}

#[test]
fn magic_test_threat_map_pawn() {
    let mut chess_board = ChessBoard::new();
    chess_board.clear();
    let magic = PieceConductor::new();
    let is_white = true;
    let square = 48;
    chess_board.set_piece_at_square(square, PieceType::Pawn, false);

    let threat_map = magic.generate_threat_map(&chess_board, is_white);
    println!("pawn map:");
    println!("{}", Bitboard::from_square_index(square).to_text());
    println!("Threat map:");
    println!("{}", threat_map.to_text());
}

#[test]
fn magic_test_threat_from_fen() {
    let mut chess_board = ChessBoard::new();
    let magic = PieceConductor::new();
    let is_white = false;

    let _ = chess_board.set_from_fen("8/p2k4/1N6/8/8/8/8/4K3 w  - 0 1");
    let threat_map = magic.generate_threat_map(&chess_board, is_white);

    println!("Threat map:");
    println!("{}", threat_map.to_text());
}

#[test]
fn threat_map_of_a_single_pawn() {
    let mut chess_board = ChessBoard::new();
    chess_board.clear();
    let magic = PieceConductor::new();
    chess_board.set_piece_at_square(48, PieceType::Pawn, false);
    // A black pawn on a7 attacks b6 alone.
    assert_eq!(magic.generate_threat_map(&chess_board, true), Bitboard(1 << 41));
    // It is no threat to its own side.
    assert_eq!(magic.generate_threat_map(&chess_board, false), Bitboard(0));
    chess_board.set_piece_at_square(28, PieceType::Pawn, true);
    // A white pawn on e4 attacks d5 and f5.
    assert_eq!(
        magic.generate_threat_map(&chess_board, false),
        Bitboard((1 << 35) | (1 << 37))
    );
}

#[test]
fn threat_map_from_fen_covers_knight_and_king() {
    let mut chess_board = ChessBoard::new();
    let magic = PieceConductor::new();
    assert!(chess_board.set_from_fen("8/p2k4/1N6/8/8/8/8/4K3 w  - 0 1").is_ok());
    // White knight on b6 and white king on e1 threaten Black.
    let knight: u64 = (1 << 56) | (1 << 58) | (1 << 51) | (1 << 35) | (1 << 24) | (1 << 26);
    let king: u64 = (1 << 3) | (1 << 5) | (1 << 11) | (1 << 12) | (1 << 13);
    assert_eq!(magic.generate_threat_map(&chess_board, false), Bitboard(knight | king));
    // The black king on d7 stands on d7 and the knight attacks d7.
    assert!(magic.is_king_in_check(&chess_board, false));
    assert!(!magic.is_king_in_check(&chess_board, true));
}

#[test]
fn threat_map_counts_defended_pieces() {
    let mut chess_board = ChessBoard::new();
    chess_board.clear();
    let magic = PieceConductor::new();
    chess_board.set_piece_at_square(0, PieceType::Rook, false);
    chess_board.set_piece_at_square(3, PieceType::Bishop, false);
    // The rook on a1 sees b1, c1 and its own bishop on d1, and file a.
    let rook: u64 = 0x0101010101010100 | 0b1110;
    let bishop: u64 = (1 << 10) | (1 << 17) | (1 << 24) | (1 << 12) | (1 << 21) | (1 << 30) | (1 << 39);
    assert_eq!(magic.generate_threat_map(&chess_board, true), Bitboard(rook | bishop));
}
