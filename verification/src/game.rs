//! A game: the board the interface plays on.
use vstd::prelude::*;
use crate::board::{Board, initial_pieces};

verus! {

pub struct Game {
    pub board: Board,
}

impl Game {
    /// A game in the starting position; `init` readies it for play.
    pub fn new() -> (r: Game)
        ensures
            r.board.pieces == initial_pieces(),
            r.board.player_turn == 0,
            r.board.core_ok(),
            r.board.history@.len() == 0,
    {
        Game { board: Board::new() }
    }

    /// Fills the move tables and the board's caches.
    pub fn init(&mut self)
        requires
            old(self).board.player_turn < 2,
        ensures
            final(self).board.move_gen.wf(),
            final(self).board.caches_ok(),
            final(self).board.pieces == old(self).board.pieces,
            final(self).board.player_turn == old(self).board.player_turn,
            final(self).board.castling_rights == old(self).board.castling_rights,
            final(self).board.en_passant_square == old(self).board.en_passant_square,
            final(self).board.halfmove_clock == old(self).board.halfmove_clock,
            final(self).board.fullmove_clock == old(self).board.fullmove_clock,
            final(self).board.zobrist_hash == old(self).board.zobrist_hash,
            final(self).board.history == old(self).board.history,
    {
        self.board.move_gen.generate_moves();
        self.board.init();
    }

    /// Back to the starting position; the move tables and history stay.
    pub fn restart(&mut self)
        ensures
            final(self).board.pieces == initial_pieces(),
            final(self).board.player_turn == 0,
            final(self).board.castling_rights == 0x0F,
            final(self).board.en_passant_square == 64,
            final(self).board.core_ok(),
            final(self).board.move_gen == old(self).board.move_gen,
    {
        self.board.reset();
    }
}

impl Default for Game {
    fn default() -> (r: Game)
        ensures
            r.board.pieces == initial_pieces(),
            r.board.player_turn == 0,
            r.board.core_ok(),
            r.board.history@.len() == 0,
    {
        Game::new()
    }
}

} // verus!
