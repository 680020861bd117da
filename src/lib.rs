pub mod chess_engine;
pub mod chess_error;
pub mod chess_piece;
pub mod chess_piece_type;
pub mod chess_position;
pub mod chess_syntax_validator;
pub mod config;
pub mod coordinate;
pub mod error;
pub mod game;
pub mod item;
pub mod text;
pub mod wave_lemmas;
