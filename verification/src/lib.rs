pub mod alpha_beta;
pub mod attacks;
pub mod bitboard;
pub mod bits;
pub mod board_evaluation;
pub mod board_helper;
pub mod chess_move;
pub mod chessboard;
pub mod coord;
pub mod fen;
pub mod fen_roundtrip;
pub mod game_events;
pub mod game_state;
pub mod magic_constants;
pub mod magics_generator;
pub mod move_generator;
pub mod move_patterns;
pub mod pawn_table;
pub mod perft;
pub mod piece;
pub mod piece_conductor;
pub mod piece_patterns;
pub mod position;
pub mod rules;
pub mod san;
pub mod san_to_move;
pub mod standard_play;
pub mod text;

pub use bitboard::Bitboard;
pub use chess_move::ChessMove;
pub use chessboard::ChessBoard;
pub use coord::Coord;
pub use fen::FENParser;
pub use piece::ChessPiece;
