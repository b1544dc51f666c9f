use chess_engine::chess_move::ChessMove;
use chess_engine::chessboard::ChessBoard;
use chess_engine::move_generator::get_all_legal_moves_for_color;
use chess_engine::perft::perft;
use chess_engine::piece_conductor::PieceConductor;

fn count(fen: &str, depth: u32) -> Option<u64> {
    let conductor = PieceConductor::new();
    let mut board = ChessBoard::new();
    assert!(board.set_from_fen(fen).is_ok());
    let before = board.white.0 ^ board.black.0;
    let nodes = perft(depth, &mut board, &conductor);
    assert_eq!(board.white.0 ^ board.black.0, before);
    assert_eq!(board.move_history.len(), 0);
    nodes
}

#[test]
fn perft_start_shallow() {
    let start = "rnbqkbnr/pppppppp/8/8/8/8/PPPPPPPP/RNBQKBNR w KQkq - 0 1";
    assert_eq!(count(start, 0), Some(1));
    assert_eq!(count(start, 1), Some(20));
    assert_eq!(count(start, 2), Some(400));
    assert_eq!(count(start, 3), Some(8902));
}

#[test]
fn perft_start_depth_4() {
    assert_eq!(
        count("rnbqkbnr/pppppppp/8/8/8/8/PPPPPPPP/RNBQKBNR w KQkq - 0 1", 4),
        Some(197_281)
    );
}

#[test]
fn perft_kiwipete_depth_3() {
    assert_eq!(
        count("r3k2r/p1ppqpb1/bn2pnp1/3PN3/1p2P3/2N2Q1p/PPPBBPPP/R3K2R w KQkq -", 3),
        Some(97_862)
    );
}

#[test]
fn perft_kiwipete_shallow() {
    let fen = "r3k2r/p1ppqpb1/bn2pnp1/3PN3/1p2P3/2N2Q1p/PPPBBPPP/R3K2R w KQkq -";
    assert_eq!(count(fen, 1), Some(48));
    assert_eq!(count(fen, 2), Some(2039));
}

#[test]
fn perft_rook_endgame_depth_4() {
    assert_eq!(count("8/2p5/3p4/KP5r/1R3p1k/8/4P1P1/8 w - -", 4), Some(43_238));
}

#[test]
fn perft_rook_endgame_shallow() {
    let fen = "8/2p5/3p4/KP5r/1R3p1k/8/4P1P1/8 w - -";
    assert_eq!(count(fen, 1), Some(14));
    assert_eq!(count(fen, 2), Some(191));
    assert_eq!(count(fen, 3), Some(2812));
}

#[test]
fn perft_castling_and_promotion_position_depth_3() {
    let fen = "r3k2r/Pppp1ppp/1b3nbN/nP6/BBP1P3/q4N2/Pp1P2PP/R2Q1RK1 w kq - 0 1";
    assert_eq!(count(fen, 1), Some(6));
    assert_eq!(count(fen, 2), Some(264));
    assert_eq!(count(fen, 3), Some(9_467));
}

#[test]
fn perft_promotion_with_check_depth_3() {
    let fen = "rnbq1k1r/pp1Pbppp/2p5/8/2B5/8/PPP1NnPP/RNBQK2R w KQ - 1 8";
    assert_eq!(count(fen, 1), Some(44));
    assert_eq!(count(fen, 2), Some(1486));
    assert_eq!(count(fen, 3), Some(62_379));
}

#[test]
fn magic_perft_test() {
    let magic = PieceConductor::new();
    for depth in 0..6 {
        let mut chess_board = ChessBoard::new();
        let start = std::time::Instant::now();
        let nodes = perft(depth, &mut chess_board, &magic).unwrap();
        let duration = start.elapsed();
        println!("Perft depth {}, nodes: {}, time taken: {:?}", depth, nodes, duration);
    }
}

/// Nodes, captures, en-passant captures, castling moves and promotions among
/// the last moves of all lines of the given depth.
fn details(
    depth: u32,
    board: &mut ChessBoard,
    conductor: &PieceConductor,
) -> (u64, u64, u64, u64, u64) {
    if depth == 0 {
        return (1, 0, 0, 0, 0);
    }
    let side = board.is_white_active();
    let mut sum = (0, 0, 0, 0, 0);
    for m in get_all_legal_moves_for_color(board, conductor, side) {
        let mut made = m;
        assert!(board.make_move(&mut made));
        if depth == 1 {
            if made.capture.is_some() {
                sum.1 += 1;
            }
            if made.has_flag(ChessMove::EN_PASSANT_CAPTURE_FLAG) {
                sum.2 += 1;
            }
            if made.has_flag(ChessMove::CASTLE_FLAG) {
                sum.3 += 1;
            }
            if made.promotion_piece_type().is_some() {
                sum.4 += 1;
            }
        }
        let below = details(depth - 1, board, conductor);
        sum.0 += below.0;
        sum.1 += below.1;
        sum.2 += below.2;
        sum.3 += below.3;
        sum.4 += below.4;
        assert!(board.undo_move());
    }
    sum
}

#[test]
fn perft_start_details() {
    let conductor = PieceConductor::new();
    let mut board = ChessBoard::new();
    assert_eq!(details(1, &mut board, &conductor), (20, 0, 0, 0, 0));
    assert_eq!(details(2, &mut board, &conductor), (400, 0, 0, 0, 0));
    assert_eq!(details(3, &mut board, &conductor), (8902, 34, 0, 0, 0));
    assert_eq!(details(4, &mut board, &conductor), (197_281, 1576, 0, 0, 0));
}

#[test]
fn perft_kiwipete_details() {
    let conductor = PieceConductor::new();
    let mut board = ChessBoard::new();
    assert!(board
        .set_from_fen("r3k2r/p1ppqpb1/bn2pnp1/3PN3/1p2P3/2N2Q1p/PPPBBPPP/R3K2R w KQkq -")
        .is_ok());
    assert_eq!(details(1, &mut board, &conductor), (48, 8, 0, 2, 0));
    assert_eq!(details(2, &mut board, &conductor), (2039, 351, 1, 91, 0));
    assert_eq!(details(3, &mut board, &conductor), (97_862, 17_102, 45, 3162, 0));
}

#[test]
fn perft_start_depth_5() {
    assert_eq!(
        count("rnbqkbnr/pppppppp/8/8/8/8/PPPPPPPP/RNBQKBNR w KQkq - 0 1", 5),
        Some(4_865_609)
    );
}
