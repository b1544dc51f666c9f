use chess_engine::alpha_beta::{alpha_beta, choose_move, sort_moves_by_key};
use chess_engine::board_evaluation::{
    evaluate_board, evaluate_board_for, evaluate_material, evaluate_side,
};
use chess_engine::bitboard::Bitboard;
use chess_engine::chess_move::ChessMove;
use chess_engine::chessboard::ChessBoard;
use chess_engine::fen::FENParser;
use chess_engine::game_state::{game_state, GameState};
use chess_engine::move_generator::get_all_legal_moves_for_color;
use chess_engine::pawn_table::evaluate_pawn_position;
use chess_engine::piece::{ChessPiece, PieceType};
use chess_engine::piece_conductor::PieceConductor;

fn board_from(fen: &str) -> ChessBoard {
    let mut board = ChessBoard::new();
    assert!(board.set_from_fen(fen).is_ok());
    board
}

#[test]
fn pawn_table_entries() {
    assert_eq!(evaluate_pawn_position(0, true), 0);
    assert_eq!(evaluate_pawn_position(8, true), 5);
    assert_eq!(evaluate_pawn_position(11, true), -20);
    assert_eq!(evaluate_pawn_position(27, true), 20);
    assert_eq!(evaluate_pawn_position(35, true), 25);
    assert_eq!(evaluate_pawn_position(43, true), 30);
    assert_eq!(evaluate_pawn_position(48, true), 50);
    assert_eq!(evaluate_pawn_position(63, true), 0);
    // Black reads the table mirrored through the centre.
    assert_eq!(evaluate_pawn_position(52, false), -20);
    assert_eq!(evaluate_pawn_position(15, false), 50);
    assert_eq!(evaluate_pawn_position(36, false), 20);
    assert_eq!(evaluate_pawn_position(45, false), -10);
}

#[test]
fn material_is_counted() {
    assert_eq!(evaluate_material(Bitboard(0), 100), 0);
    assert_eq!(evaluate_material(Bitboard(0b1011), 320), 960);
    assert_eq!(evaluate_material(Bitboard(u64::MAX), 20000), 1_280_000);
}

#[test]
fn evaluation_of_the_start_position_is_level() {
    let board = ChessBoard::new();
    assert_eq!(evaluate_board(&board), 0);
    // Eight pawns, two knights, bishops and rooks, a queen and a king, and
    // the bonuses of the pawns on the second rank.
    let side = 800 + 640 + 660 + 1000 + 900 + 20000 + (5 + 10 + 10 - 20 - 20 + 10 + 10 + 5);
    assert_eq!(evaluate_side(&board, true), side);
    assert_eq!(evaluate_side(&board, false), side);
}

#[test]
fn evaluation_is_seen_by_the_side_to_move() {
    let white = board_from("4k3/8/8/8/8/8/4P3/4K3 w - - 0 1");
    assert_eq!(evaluate_board(&white), 80);
    let black = board_from("4k3/8/8/8/8/8/4P3/4K3 b - - 0 1");
    assert_eq!(evaluate_board(&black), -80);
    assert_eq!(evaluate_board_for(&black, true), 80);
    let advanced = board_from("4k3/8/8/8/4P3/8/8/4K3 w - - 0 1");
    assert_eq!(evaluate_board(&advanced), 120);
    let mirrored = board_from("4k3/4p3/8/8/8/8/8/4K3 b - - 0 1");
    assert_eq!(evaluate_board(&mirrored), 80);
    let queen_up = board_from("4k3/8/8/8/8/8/8/3QK3 w - - 0 1");
    assert_eq!(evaluate_board(&queen_up), 900);
    let knights = board_from("1n2k3/8/8/8/8/8/8/4K1NB w - - 0 1");
    assert_eq!(evaluate_board(&knights), 330);
}

#[test]
fn moves_are_sorted_for_the_search() {
    let piece = |kind| ChessPiece::new(kind, true);
    let enemy = |kind| ChessPiece::new(kind, false);
    let mut quiet_rook = ChessMove::new(0, 8);
    quiet_rook.set_piece(piece(PieceType::Rook));
    let mut quiet_pawn = ChessMove::new(9, 17);
    quiet_pawn.set_piece(piece(PieceType::Pawn));
    let mut takes_pawn = ChessMove::new(1, 18);
    takes_pawn.set_piece(piece(PieceType::Knight));
    takes_pawn.set_capture(enemy(PieceType::Pawn));
    let mut takes_queen = ChessMove::new(2, 20);
    takes_queen.set_piece(piece(PieceType::Bishop));
    takes_queen.set_capture(enemy(PieceType::Queen));
    let mut other_pawn = ChessMove::new(10, 18);
    other_pawn.set_piece(piece(PieceType::Pawn));
    let mut promotion = ChessMove::new_with_flag(48, 56, ChessMove::PROMOTE_TO_QUEEN_FLAG);
    promotion.set_piece(piece(PieceType::Pawn));
    let given = vec![quiet_rook, quiet_pawn, takes_pawn, takes_queen, other_pawn, promotion];
    let sorted = sort_moves_by_key(&given);
    assert_eq!(
        sorted,
        vec![takes_queen, takes_pawn, promotion, quiet_pawn, other_pawn, quiet_rook]
    );
    assert!(sort_moves_by_key(&Vec::new()).is_empty());
}

#[test]
fn depth_zero_finds_no_move() {
    let conductor = PieceConductor::new();
    let mut board = ChessBoard::new();
    assert_eq!(choose_move(&mut board, &conductor, 0), None);
    let found = alpha_beta(&mut board, &conductor, 0, -1_000_000_000, 1_000_000_000, true);
    assert_eq!(found, (0, None));
}

#[test]
fn depth_zero_scores_for_the_side_to_move() {
    let conductor = PieceConductor::new();
    let mut white = board_from("4k3/8/8/8/8/8/4P3/4K3 w - - 0 1");
    assert_eq!(evaluate_board(&white), 80);
    for named in [true, false] {
        let found = alpha_beta(&mut white, &conductor, 0, -1_000_000_000, 1_000_000_000, named);
        assert_eq!(found, (80, None));
    }
    let mut black = board_from("4k3/8/8/8/8/8/4P3/4K3 b - - 0 1");
    assert_eq!(evaluate_board(&black), -80);
    for named in [true, false] {
        let found = alpha_beta(&mut black, &conductor, 0, -1_000_000_000, 1_000_000_000, named);
        assert_eq!(found, (-80, None));
    }
}

#[test]
fn the_chosen_move_is_legal() {
    let conductor = PieceConductor::new();
    for fen in [
        "rnbqkbnr/pppppppp/8/8/8/8/PPPPPPPP/RNBQKBNR w KQkq - 0 1",
        "r3k2r/p1ppqpb1/bn2pnp1/3PN3/1p2P3/2N2Q1p/PPPBBPPP/R3K2R w KQkq - 0 1",
        "8/2p5/3p4/KP5r/1R3p1k/8/4P1P1/8 b - - 0 1",
    ] {
        for depth in 1..3 {
            let mut board = board_from(fen);
            let before = FENParser::board_to_fen(&board);
            let side = board.is_white_active();
            let legal = get_all_legal_moves_for_color(&mut board, &conductor, side);
            let chosen = choose_move(&mut board, &conductor, depth);
            assert!(chosen.is_some());
            assert!(legal.contains(&chosen.unwrap()));
            assert_eq!(FENParser::board_to_fen(&board), before);
            assert_eq!(board.move_history.len(), 0);
        }
    }
}

#[test]
fn a_mate_in_one_is_found() {
    let conductor = PieceConductor::new();
    let mut board = board_from("6k1/5ppp/8/8/8/8/8/R3K3 w - - 0 1");
    let chosen = choose_move(&mut board, &conductor, 2).unwrap();
    assert_eq!((chosen.start_square(), chosen.target_square()), (0, 56));
    let found = alpha_beta(&mut board, &conductor, 2, -1_000_000_000, 1_000_000_000, true);
    assert_eq!(found.0, 30000);
    assert_eq!(found.1, Some(chosen));
}

#[test]
fn a_free_queen_is_taken() {
    let conductor = PieceConductor::new();
    let mut board = board_from("4k3/8/8/3q4/4P3/8/8/4K3 w - - 0 1");
    let chosen = choose_move(&mut board, &conductor, 1).unwrap();
    assert_eq!((chosen.start_square(), chosen.target_square()), (28, 35));
    let found = alpha_beta(&mut board, &conductor, 1, -1_000_000_000, 1_000_000_000, true);
    // After the capture Black, who is to move, is a pawn down; the pawn
    // stands on d5.
    assert_eq!(found.0, 125);
}

#[test]
fn the_window_cuts_the_search_short() {
    let conductor = PieceConductor::new();
    let mut board = board_from("4k3/8/8/3q4/4P3/8/8/4K3 w - - 0 1");
    // No move reaches a score above 1000: the lower bound comes back, and no
    // move with it.
    let low = alpha_beta(&mut board, &conductor, 1, 1000, 2000, true);
    assert_eq!(low, (1000, None));
    // The first move that reaches the upper bound ends the search.
    let high = alpha_beta(&mut board, &conductor, 1, -2000, -1000, true);
    assert!(high.0 >= -1000);
    assert!(high.1.is_some());
}

#[test]
fn a_mated_side_has_no_move() {
    let conductor = PieceConductor::new();
    let mut board =
        board_from("rnb1kbnr/pppp1ppp/8/4p3/6Pq/5P2/PPPPP2P/RNBQKBNR w KQkq - 1 3");
    assert_eq!(choose_move(&mut board, &conductor, 3), None);
    let found = alpha_beta(&mut board, &conductor, 3, -1_000_000_000, 1_000_000_000, true);
    assert_eq!(found, (-30000, None));
    assert_eq!(game_state(&mut board, &conductor), GameState::Checkmate);
}

#[test]
fn a_stalemated_side_has_no_move() {
    let conductor = PieceConductor::new();
    let mut board = board_from("7k/5Q2/6K1/8/8/8/8/8 b - - 0 1");
    assert_eq!(choose_move(&mut board, &conductor, 2), None);
    let found = alpha_beta(&mut board, &conductor, 2, -1_000_000_000, 1_000_000_000, false);
    assert_eq!(found, (0, None));
    assert_eq!(game_state(&mut board, &conductor), GameState::Stalemate);
}

#[test]
fn a_game_goes_on_while_there_is_a_move() {
    let conductor = PieceConductor::new();
    let mut board = ChessBoard::new();
    assert_eq!(game_state(&mut board, &conductor), GameState::Ongoing);
}
