//! The engine's player: evaluation, transposition table and search.
pub mod tables;
pub mod evaluator;
pub mod tt;
pub mod negamax;
pub mod search_value;
