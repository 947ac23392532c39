//! A chess engine: bitboard position, move generation and legality, FEN
//! reading, evaluation and an alpha-beta search, with the answers the game
//! interface needs.

pub mod bits;
pub mod geometry;
pub mod bitboard;
pub mod types;
pub mod movegen;
pub mod zobrist;
pub mod history;
pub mod board;
pub mod dto;
pub mod computer;
pub mod game;
