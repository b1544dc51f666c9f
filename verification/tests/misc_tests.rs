use chess_engine::board_helper::{
    board_row_col_to_square_index, file_index, index_from_coord, rank_index,
    square_index_to_board_row_col,
};
use chess_engine::chess_move::ChessMove;
use chess_engine::chessboard::ChessBoard;
use chess_engine::coord::Coord;
use chess_engine::game_events::{
    engine_reply, is_capture, ChessAction, ChessEvent, ValidMoves,
};
use chess_engine::piece_conductor::PieceConductor;
use chess_engine::san_to_move::{
    char_to_piece_type, get_move_from_san, handle_san_castling, legal_move_from_text,
    san_to_target_square,
};
use chess_engine::piece::PieceType;
use chess_engine::text::{chars_of, file_to_char, rank_to_char, string_of};

#[test]
fn squares_files_and_ranks() {
    assert_eq!(file_index(0), 0);
    assert_eq!(file_index(7), 7);
    assert_eq!(file_index(28), 4);
    assert_eq!(rank_index(28), 3);
    assert_eq!(rank_index(63), 7);
    assert_eq!(index_from_coord(&Coord::new(4, 3)), 28);
    assert_eq!(square_index_to_board_row_col(0), (7, 0));
    assert_eq!(square_index_to_board_row_col(63), (0, 7));
    assert_eq!(square_index_to_board_row_col(28), (4, 4));
    assert_eq!(board_row_col_to_square_index(7, 0), 0);
    assert_eq!(board_row_col_to_square_index(0, 7), 63);
    assert_eq!(board_row_col_to_square_index(4, 4), 28);
}

#[test]
fn coordinates() {
    let e4 = Coord::from_square_index(28);
    assert_eq!(e4, Coord::new(4, 3));
    assert_eq!(e4.square_index(), 28);
    assert!(e4.is_valid_square());
    assert!(e4.is_light_square());
    assert!(!Coord::new(0, 0).is_light_square());
    assert!(Coord::new(-1, 0).is_light_square());
    assert!(!Coord::new(8, 0).is_valid_square());
    assert!(!Coord::new(0, -1).is_valid_square());
    assert_eq!(e4.add(Coord::new(1, -2)), Coord::new(5, 1));
    assert_eq!(e4.sub(Coord::new(1, -2)), Coord::new(3, 5));
    assert_eq!(Coord::new(1, -1).mul(3), Coord::new(3, -3));
    assert_eq!(e4.offset(1, -1, 2), Coord::new(6, 1));
    assert!(Coord::new(1, 5) < Coord::new(2, 0));
    assert!(Coord::new(1, 5) > Coord::new(1, 4));
}

#[test]
fn characters() {
    assert_eq!(file_to_char(0), 'a');
    assert_eq!(file_to_char(7), 'h');
    assert_eq!(rank_to_char(0), '1');
    assert_eq!(rank_to_char(7), '8');
    assert_eq!(chars_of("e2e4"), vec!['e', '2', 'e', '4']);
    assert_eq!(string_of(&vec!['O', '-', 'O']), "O-O");
    assert_eq!(string_of(&chars_of("")), "");
}

#[test]
fn events_and_valid_moves() {
    assert_eq!(ChessEvent::new(ChessAction::Undo).action, ChessAction::Undo);
    assert_eq!(ChessEvent::new(ChessAction::MakeMove).action, ChessAction::MakeMove);
    let mut valid = ValidMoves::new();
    assert!(valid.moves.is_empty());
    valid.set_moves(vec![ChessMove::new(12, 28)]);
    assert_eq!(valid.moves, vec![ChessMove::new(12, 28)]);
}

#[test]
fn move_texts_are_read_on_the_board() {
    let conductor = PieceConductor::new();
    let board = ChessBoard::new();
    assert_eq!(get_move_from_san(&board, &conductor, "e3"), Some(ChessMove::new(12, 20)));
    assert_eq!(
        get_move_from_san(&board, &conductor, "e4"),
        Some(ChessMove::new_with_flag(12, 28, ChessMove::PAWN_TWO_UP_FLAG))
    );
    assert_eq!(get_move_from_san(&board, &conductor, "Nf3"), Some(ChessMove::new(6, 21)));
    assert_eq!(get_move_from_san(&board, &conductor, "Nc3"), Some(ChessMove::new(1, 18)));
    assert_eq!(get_move_from_san(&board, &conductor, "Ne4"), None);
    assert_eq!(get_move_from_san(&board, &conductor, "exd3"), None);
    assert_eq!(get_move_from_san(&board, &conductor, "Xe4"), None);
    assert_eq!(get_move_from_san(&board, &conductor, "e9"), None);
    assert_eq!(get_move_from_san(&board, &conductor, ""), None);
    assert_eq!(
        get_move_from_san(&board, &conductor, "O-O"),
        Some(ChessMove::new_with_flag(4, 6, ChessMove::CASTLE_FLAG))
    );
    let mut capture = ChessBoard::new();
    assert!(capture.set_from_fen("4k3/8/8/3p4/4P3/8/8/4K3 w - - 0 1").is_ok());
    assert_eq!(get_move_from_san(&capture, &conductor, "exd5"), Some(ChessMove::new(28, 35)));
    assert_eq!(get_move_from_san(&capture, &conductor, "e5"), Some(ChessMove::new(28, 36)));
    assert_eq!(get_move_from_san(&capture, &conductor, "exe5"), None);
    let mut black = ChessBoard::new();
    assert!(black.set_from_fen("r3k2r/8/8/8/8/8/8/R3K2R b KQkq - 0 1").is_ok());
    assert_eq!(
        handle_san_castling(&black, "O-O"),
        Some(ChessMove::new_with_flag(60, 62, ChessMove::CASTLE_FLAG))
    );
    assert_eq!(
        handle_san_castling(&black, "O-O-O"),
        Some(ChessMove::new_with_flag(60, 58, ChessMove::CASTLE_FLAG))
    );
    assert_eq!(handle_san_castling(&black, "O-O-"), None);
    assert_eq!(handle_san_castling(&black, "e4"), None);
    assert_eq!(get_move_from_san(&black, &conductor, "Rd8"), Some(ChessMove::new(56, 59)));
}

#[test]
fn parts_of_a_move_text() {
    assert_eq!(char_to_piece_type('N'), Some(PieceType::Knight));
    assert_eq!(char_to_piece_type('K'), Some(PieceType::King));
    assert_eq!(char_to_piece_type('n'), None);
    assert_eq!(char_to_piece_type('O'), None);
    assert_eq!(san_to_target_square(&chars_of("Nf3")), Some(21));
    assert_eq!(san_to_target_square(&chars_of("a1")), Some(0));
    assert_eq!(san_to_target_square(&chars_of("h8")), Some(63));
    assert_eq!(san_to_target_square(&chars_of("3")), None);
    assert_eq!(san_to_target_square(&chars_of("Nf9")), None);
}

#[test]
fn drops_and_replies() {
    let mut valid = ValidMoves::new();
    valid.set_moves(vec![
        ChessMove::new(12, 20),
        ChessMove::new_with_flag(12, 28, ChessMove::PAWN_TWO_UP_FLAG),
    ]);
    assert_eq!(valid.move_for_drop(12, 20), Some(ChessMove::new(12, 20)));
    assert_eq!(
        valid.move_for_drop(12, 28),
        Some(ChessMove::new_with_flag(12, 28, ChessMove::PAWN_TWO_UP_FLAG))
    );
    assert_eq!(valid.move_for_drop(12, 36), None);
    assert_eq!(valid.move_for_drop(20, 20), None);
    let legal = vec![ChessMove::new(1, 18), ChessMove::new(6, 21)];
    assert_eq!(engine_reply(Some(ChessMove::new(6, 21)), &legal), Some(ChessMove::new(6, 21)));
    assert_eq!(engine_reply(None, &legal), Some(ChessMove::new(1, 18)));
    assert_eq!(engine_reply(None, &Vec::new()), None);
    let board = ChessBoard::new();
    assert!(is_capture(&board, &ChessMove::new(0, 48)));
    assert!(!is_capture(&board, &ChessMove::new(12, 28)));
}

#[test]
fn legal_moves_are_found_by_their_text() {
    let conductor = PieceConductor::new();
    let mut board = ChessBoard::new();
    let found = legal_move_from_text(&mut board, &conductor, "e2e4").unwrap();
    assert_eq!((found.start_square(), found.target_square(), found.flag()), (12, 28, 3));
    assert_eq!(legal_move_from_text(&mut board, &conductor, "e2e5"), None);
    assert_eq!(legal_move_from_text(&mut board, &conductor, "e7e5"), None);
    assert_eq!(legal_move_from_text(&mut board, &conductor, "e2"), None);
    let mut castle = ChessBoard::new();
    assert!(castle.set_from_fen("r3k2r/8/8/8/8/8/8/R3K2R w KQkq - 0 1").is_ok());
    let short = legal_move_from_text(&mut castle, &conductor, "e1g1").unwrap();
    assert_eq!(short.flag(), ChessMove::CASTLE_FLAG);
    let mut promotion = ChessBoard::new();
    assert!(promotion.set_from_fen("7k/1P6/8/8/8/8/8/K7 w - - 0 1").is_ok());
    let rook = legal_move_from_text(&mut promotion, &conductor, "b7b8r").unwrap();
    assert_eq!(rook.flag(), ChessMove::PROMOTE_TO_ROOK_FLAG);
    assert_eq!(legal_move_from_text(&mut promotion, &conductor, "b7b8"), None);
}
