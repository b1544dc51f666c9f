use chess_engine::chessboard::ChessBoard;
use chess_engine::fen::{FENParser, FenError};
use chess_engine::piece::{ChessPiece, PieceType};

const START: &str = "rnbqkbnr/pppppppp/8/8/8/8/PPPPPPPP/RNBQKBNR w KQkq - 0 1";

#[test]
fn start_position_as_fen() {
    let board = ChessBoard::new();
    assert_eq!(FENParser::board_to_fen(&board), START);
}

#[test]
fn reading_the_start_position() {
    let mut board = ChessBoard::new();
    board.clear();
    assert_eq!(board.set_from_fen(START), Ok(()));
    let start = ChessBoard::new();
    assert_eq!(board.white, start.white);
    assert_eq!(board.black, start.black);
    assert_eq!(board.pawns, start.pawns);
    assert_eq!(board.knights, start.knights);
    assert_eq!(board.bishops, start.bishops);
    assert_eq!(board.rooks, start.rooks);
    assert_eq!(board.queens, start.queens);
    assert_eq!(board.kings, start.kings);
    assert_eq!(board.castling_rights, 0b1111);
    assert!(board.is_white_active());
}

#[test]
fn side_and_rights_are_read() {
    let mut board = ChessBoard::new();
    assert!(board.set_from_fen("4k3/8/8/8/8/8/8/4K2R b K - 3 10").is_ok());
    assert!(!board.is_white_active());
    assert_eq!(board.castling_rights, 0b1000);
    assert_eq!(board.get_piece_at_square(7), Some(ChessPiece::new(PieceType::Rook, true)));
    assert_eq!(board.get_piece_at_square(4), Some(ChessPiece::new(PieceType::King, true)));
    assert_eq!(board.get_piece_at_square(60), Some(ChessPiece::new(PieceType::King, false)));
    assert_eq!(board.get_all_pieces().count_ones(), 3);
    assert_eq!(FENParser::board_to_fen(&board), "4k3/8/8/8/8/8/8/4K2R b K - 0 1");
}

#[test]
fn missing_fields_have_defaults() {
    let mut board = ChessBoard::new();
    assert!(board.set_from_fen("4k3/8/8/8/8/8/8/4K3").is_ok());
    assert!(board.is_white_active());
    assert_eq!(board.castling_rights, 0);
    assert_eq!(FENParser::board_to_fen(&board), "4k3/8/8/8/8/8/8/4K3 w - - 0 1");
    assert!(board.set_from_fen("  4k3/8/8/8/8/8/8/4K3   b  ").is_ok());
    assert!(!board.is_white_active());
}

#[test]
fn a_read_position_has_no_history() {
    let mut board = ChessBoard::new();
    let mut m = chess_engine::chess_move::ChessMove::new(12, 20);
    assert!(board.make_move(&mut m));
    assert!(board.set_from_fen(START).is_ok());
    assert_eq!(board.move_history.len(), 0);
    assert!(!board.undo_move());
}

#[test]
fn malformed_placements_are_refused() {
    let bad = [
        "",
        "   ",
        "rnbqkbnr/pppppppp/8/8/8/8/PPPPPPPP w KQkq - 0 1",
        "rnbqkbnr/pppppppp/8/8/8/8/8/PPPPPPPP/RNBQKBNR w KQkq - 0 1",
        "rnbqkbnr/pppppppp/8/8/8/8/PPPPPPPP/RNBQKBNX w KQkq - 0 1",
        "rnbqkbnr/pppppppp/8/8/8/8/PPPPPPPP/RNBQKBN w KQkq - 0 1",
        "rnbqkbnr/pppppppp/9/8/8/8/PPPPPPPP/RNBQKBNR w KQkq - 0 1",
        "rnbqkbnr/pppppppp/44p/8/8/8/PPPPPPPP/RNBQKBNR w KQkq - 0 1",
        "rnbqkbnr/pppppppp/08/8/8/8/PPPPPPPP/RNBQKBNR w KQkq - 0 1",
        "rnbqkbnr/pppppppp//8/8/8/PPPPPPPP/RNBQKBNR w KQkq - 0 1",
    ];
    for text in bad {
        let mut board = ChessBoard::new();
        let mut m = chess_engine::chess_move::ChessMove::new(12, 20);
        assert!(board.make_move(&mut m));
        let before = FENParser::board_to_fen(&board);
        assert_eq!(board.set_from_fen(text), Err(FenError::MalformedFen), "{}", text);
        // A refused text leaves the board as it was.
        assert_eq!(FENParser::board_to_fen(&board), before);
        assert_eq!(board.move_history.len(), 1);
        assert_eq!(FENParser::set_board_from_fen(&mut board, text), Err(FenError::MalformedFen));
    }
}

#[test]
fn writing_and_reading_give_the_same_position() {
    for text in [
        START,
        "r3k2r/p1ppqpb1/bn2pnp1/3PN3/1p2P3/2N2Q1p/PPPBBPPP/R3K2R w KQkq - 0 1",
        "8/2p5/3p4/KP5r/1R3p1k/8/4P1P1/8 w - - 0 1",
        "r3k2r/Pppp1ppp/1b3nbN/nP6/BBP1P3/q4N2/Pp1P2PP/R2Q1RK1 w kq - 0 1",
        "rnbq1k1r/pp1Pbppp/2p5/8/2B5/8/PPP1NnPP/RNBQK2R b KQ - 0 1",
        "8/8/8/8/8/8/8/8 b - - 0 1",
        "k6K/1p4P1/2p2P2/3pP3/3Pp3/2P2p2/1P4p1/7q w Qk - 0 1",
    ] {
        let mut board = ChessBoard::new();
        assert!(board.set_from_fen(text).is_ok());
        let written = FENParser::board_to_fen(&board);
        assert_eq!(written, text);
        let mut again = ChessBoard::new();
        assert!(again.set_from_fen(&written).is_ok());
        assert_eq!(again.white, board.white);
        assert_eq!(again.black, board.black);
        assert_eq!(again.pawns, board.pawns);
        assert_eq!(again.knights, board.knights);
        assert_eq!(again.bishops, board.bishops);
        assert_eq!(again.rooks, board.rooks);
        assert_eq!(again.queens, board.queens);
        assert_eq!(again.kings, board.kings);
        assert_eq!(again.is_white_active(), board.is_white_active());
        assert_eq!(again.castling_rights, board.castling_rights);
    }
}

#[test]
fn piece_letters() {
    assert_eq!(FENParser::fen_char_from_piece_type(PieceType::Queen, true), 'Q');
    assert_eq!(FENParser::fen_char_from_piece_type(PieceType::Queen, false), 'q');
    assert_eq!(FENParser::fen_char_from_piece_type(PieceType::Pawn, false), 'p');
    assert_eq!(FENParser::piece_type_from_fen_char('n'), Some(PieceType::Knight));
    assert_eq!(FENParser::piece_type_from_fen_char('K'), Some(PieceType::King));
    assert_eq!(FENParser::piece_type_from_fen_char('x'), None);
    assert_eq!(FENParser::piece_type_from_fen_char('1'), None);
}
