//! The state of the game, square notation, per-piece destinations and the
//! null move.
use vstd::prelude::*;
use vstd::string::*;
use crate::bitboard::BitBoard;
use crate::bits::{bit, single, lemma_bit_zero};
use crate::movegen::{Move, attacks_rel, pseudo_rel};
use crate::types::PieceKind;
use crate::dto::GameState;
use crate::board::{Board, Pieces, pb, side_occ, all_occ, king_in_check, full_hash, compute_hash};
use crate::board::validation::is_legal;
use crate::zobrist::{key, zkey, CASTLE_BASE, EP_BASE, SIDE_KEY};

verus! {

broadcast use vstd::array::group_array_axioms;

/// The side to move has a legal move.
pub open spec fn has_legal_move(b: Board) -> bool {
    exists|m: Move| #[trigger] is_legal(b, m)
}

/// Mate when the side to move has no legal move and is in check,
/// stalemate when it has none and is not, otherwise the game goes on.
pub open spec fn game_state_of(b: Board) -> GameState {
    if !has_legal_move(b) && king_in_check(b.pieces, b.player_turn as int) {
        GameState::Checkmate
    } else if !has_legal_move(b) {
        GameState::Stalemate
    } else {
        GameState::InProgress
    }
}

/// The letter of file `f` (0 = `a`).
pub open spec fn file_char(f: int) -> char {
    (0x61 + f) as char
}

/// The digit of rank `r` (0 = `1`).
pub open spec fn rank_char(r: int) -> char {
    (0x31 + r) as char
}

/// Algebraic name of square `i` (`a1` is 0, `h8` is 63); empty past the
/// board.
pub open spec fn notation(i: int) -> Seq<char> {
    if 0 <= i < 64 {
        seq![file_char(i % 8), rank_char(i / 8)]
    } else {
        seq![]
    }
}

/// Low byte of a character's code point.
pub open spec fn low_byte(c: char) -> int {
    ((c as u32) % 256) as int
}

/// The square named by the first two characters: 64 when the file letter
/// is not one of `a` to `h` or the rank digit not one of `1` to `8`.
pub open spec fn notation_index(s: Seq<char>) -> u8 {
    let f = low_byte(s[0]) - 0x61;
    let r = low_byte(s[1]) - 0x31;
    if f < 0 || f > 7 || r < 0 || r > 7 {
        64
    } else {
        (r * 8 + f) as u8
    }
}

/// Bitboards holding the ascending squares of `x`.
pub open spec fn squares(x: u64) -> Seq<int>
    decreases x,
{
    if x == 0 {
        seq![]
    } else {
        let s = x.trailing_zeros() as int;
        proof {
            lemma_lowest_pop(x);
        }
        seq![s] + squares(x ^ single(s))
    }
}

/// The lowest set bit of a nonzero word, and clearing it.
pub proof fn lemma_lowest_pop(x: u64)
    requires
        x != 0,
    ensures
        0 <= x.trailing_zeros() < 64,
        bit(x, x.trailing_zeros() as int),
        (x ^ single(x.trailing_zeros() as int)) < x,
{
    vstd::std_specs::bits::axiom_u64_trailing_zeros(x);
    crate::bits::lemma_nonzero_has_bit(x);
    let t = x.trailing_zeros() as u64;
    crate::bits::lemma_mask_test(x, t as int);
    assert(x & (1u64 << t) != 0 ==> (x ^ (1u64 << t)) < x) by (bit_vector)
        requires
            t < 64,
    ;
}

/// The destination bitboards of every piece of color `c`, kind by kind and
/// square by ascending square, kinds below `k` first.
pub open spec fn dests_upto(b: Board, c: int, k: int, attack_only: bool) -> Seq<BitBoard>
    decreases k,
{
    if k <= 0 {
        seq![]
    } else {
        dests_upto(b, c, k - 1, attack_only) + squares(pb(b.pieces, c, k - 1)).map_values(
            |s: int| BitBoard(dest_bits(b, c, k - 1, s, attack_only)),
        )
    }
}

/// Bit `t` of `r` is set exactly when the piece of kind `k` and color `c`
/// on `s` attacks `t` (or, for moves, may go there ignoring its king's
/// safety).
pub open spec fn is_dest_word(b: Board, c: int, k: int, s: int, attack_only: bool, r: u64) -> bool {
    is_dest_word_of(b.pieces, b.en_passant_square, c, k, s, attack_only, r)
}

/// `is_dest_word` for the pieces `p` and en passant square `ep`.
pub open spec fn is_dest_word_of(p: Pieces, ep: u8, c: int, k: int, s: int, attack_only: bool, r: u64) -> bool {
    forall|t: int| #[trigger]
        bit(r, t) == if attack_only {
            attacks_rel(k, c, s, t, all_occ(p))
        } else {
            pseudo_rel(k, c, s, t, all_occ(p), side_occ(p, 1 - c), side_occ(p, c), ep as int)
        }
}

/// Destinations of the piece of kind `k` and color `c` on `s`, as a word.
pub open spec fn dest_bits(b: Board, c: int, k: int, s: int, attack_only: bool) -> u64 {
    dest_word(b.pieces, b.en_passant_square, c, k, s, attack_only)
}

/// `dest_bits` for the pieces `p` and en passant square `ep`.
pub open spec fn dest_word(p: Pieces, ep: u8, c: int, k: int, s: int, attack_only: bool) -> u64 {
    choose|r: u64| is_dest_word_of(p, ep, c, k, s, attack_only, r)
}

/// The word with exactly the bits a predicate on squares names.
pub proof fn lemma_dest_bits(b: Board, c: int, k: int, s: int, attack_only: bool, r: u64)
    requires
        is_dest_word(b, c, k, s, attack_only, r),
    ensures
        dest_bits(b, c, k, s, attack_only) == r,
{
    let d = dest_bits(b, c, k, s, attack_only);
    assert(is_dest_word(b, c, k, s, attack_only, d));
    assert forall|i: int| 0 <= i < 64 implies #[trigger] bit(d, i) == bit(r, i) by {}
    crate::bits::lemma_bits_ext(d, r);
}

/// The letter of a file.
fn file_str(f: u8) -> (r: &'static str)
    requires
        f < 8,
    ensures
        r@ == seq![file_char(f as int)],
{
    let r = if f == 0 {
        "a"
    } else if f == 1 {
        "b"
    } else if f == 2 {
        "c"
    } else if f == 3 {
        "d"
    } else if f == 4 {
        "e"
    } else if f == 5 {
        "f"
    } else if f == 6 {
        "g"
    } else {
        "h"
    };
    proof {
        reveal_strlit("a");
        reveal_strlit("b");
        reveal_strlit("c");
        reveal_strlit("d");
        reveal_strlit("e");
        reveal_strlit("f");
        reveal_strlit("g");
        reveal_strlit("h");
        assert(r@ =~= seq![file_char(f as int)]);
    }
    r
}

/// The digit of a rank.
fn rank_str(k: u8) -> (r: &'static str)
    requires
        k < 8,
    ensures
        r@ == seq![rank_char(k as int)],
{
    let r = if k == 0 {
        "1"
    } else if k == 1 {
        "2"
    } else if k == 2 {
        "3"
    } else if k == 3 {
        "4"
    } else if k == 4 {
        "5"
    } else if k == 5 {
        "6"
    } else if k == 6 {
        "7"
    } else {
        "8"
    };
    proof {
        reveal_strlit("1");
        reveal_strlit("2");
        reveal_strlit("3");
        reveal_strlit("4");
        reveal_strlit("5");
        reveal_strlit("6");
        reveal_strlit("7");
        reveal_strlit("8");
        assert(r@ =~= seq![rank_char(k as int)]);
    }
    r
}

impl Board {
    /// Whether the side to move has a legal move.
    pub fn any_legal_move_exists(&self) -> (r: bool)
        requires
            self.wf(),
        ensures
            r == has_legal_move(*self),
    {
        let moves = self.generate_legal_moves();
        if moves.len() > 0 {
            proof {
                assert(is_legal(*self, moves@[0]));
            }
            true
        } else {
            proof {
                assert forall|m: Move| !#[trigger] is_legal(*self, m) by {
                    if is_legal(*self, m) {
                        assert(moves@.contains(m));
                    }
                }
            }
            false
        }
    }

    /// Mate, stalemate or a game in progress, for the side to move.
    pub fn get_game_state(&self) -> (r: GameState)
        requires
            self.wf(),
        ensures
            r == game_state_of(*self),
    {
        let check_info = self.check_for_check();
        let has_legal_moves = self.any_legal_move_exists();
        if !has_legal_moves && check_info.is_check {
            GameState::Checkmate
        } else if !has_legal_moves {
            GameState::Stalemate
        } else {
            GameState::InProgress
        }
    }

    /// Destination bitboards of every piece of `player_turn`, kind by kind
    /// (pawns first) and square by ascending square: the squares each
    /// attacks, or the moves it may make ignoring its king's safety.
    pub fn get_all_legal_moves(&self, player_turn: u8, attack_only: bool) -> (r: Vec<BitBoard>)
        requires
            self.move_gen.wf(),
            self.occupancy_ok(),
            player_turn < 2,
        ensures
            r@ == dests_upto(*self, player_turn as int, 6, attack_only),
    {
        let color = player_turn;
        let friendly = self.color_occupency[color as usize].0;
        let enemy = self.color_occupency[(1 - color) as usize].0;
        let occupied = self.total_occupency.0;
        let mut all_moves: Vec<BitBoard> = Vec::new();
        let mut piece_idx: usize = 0;
        while piece_idx < 6
            invariant
                piece_idx <= 6,
                color == player_turn,
                player_turn < 2,
                self.move_gen.wf(),
                friendly == side_occ(self.pieces, color as int),
                enemy == side_occ(self.pieces, 1 - color),
                occupied == all_occ(self.pieces),
                all_moves@ == dests_upto(*self, color as int, piece_idx as int, attack_only),
            decreases 6 - piece_idx,
        {
            let piece_type = PieceKind::from_idx(piece_idx);
            let mut bb = self.pieces[color as usize][piece_idx];
            let ghost base = all_moves@;
            let ghost k = piece_idx as int;
            let ghost f = |s: int| BitBoard(dest_bits(*self, color as int, k, s, attack_only));
            proof {
                assert(squares(pb(self.pieces, color as int, k)).map_values(f) =~= seq![] + squares(
                    bb.0,
                ).map_values(f));
            }
            while bb.0 != 0
                invariant
                    piece_idx < 6,
                    k == piece_idx,
                    color == player_turn,
                    player_turn < 2,
                    piece_type.idx() == piece_idx,
                    self.move_gen.wf(),
                    friendly == side_occ(self.pieces, color as int),
                    enemy == side_occ(self.pieces, 1 - color),
                    occupied == all_occ(self.pieces),
                    f == (|s: int| BitBoard(dest_bits(*self, color as int, k, s, attack_only))),
                    base == dests_upto(*self, color as int, k, attack_only),
                    base + squares(pb(self.pieces, color as int, k)).map_values(f) == all_moves@
                        + squares(bb.0).map_values(f),
                decreases bb.0,
            {
                let ghost before = bb.0;
                let ghost moves_before = all_moves@;
                let sq = match bb.pop_lsb() {
                    Some(s) => s,
                    None => 0,
                };
                proof {
                    lemma_lowest_pop(before);
                }
                let d = self.move_gen.get_legal_moves_by_piece(
                    piece_type,
                    occupied,
                    sq as usize,
                    color,
                    enemy,
                    friendly,
                    attack_only,
                    self.en_passant_square,
                );
                let dest = match d {
                    Some(x) => x,
                    None => BitBoard(0),
                };
                proof {
                    lemma_dest_bits(*self, color as int, k, sq as int, attack_only, dest.0);
                }
                all_moves.push(dest);
                proof {
                    assert(squares(before) == seq![sq as int] + squares(bb.0));
                    assert(squares(before).map_values(f) =~= seq![f(sq as int)] + squares(bb.0).map_values(f));
                    assert(all_moves@ + squares(bb.0).map_values(f) =~= moves_before + squares(before).map_values(f));
                }
            }
            proof {
                assert(squares(0u64) == Seq::<int>::empty());
                assert(all_moves@ =~= dests_upto(*self, color as int, k + 1, attack_only));
            }
            piece_idx = piece_idx + 1;
        }
        all_moves
    }

    /// The algebraic name of a square; empty past the board.
    pub fn index_to_notation(&self, index: u8) -> (r: String)
        ensures
            r@ == notation(index as int),
    {
        if index > 63 {
            let r = String::new();
            return r;
        }
        let mut s = String::from_str(file_str(index % 8));
        s.append(rank_str(index / 8));
        proof {
            assert(s@ =~= notation(index as int));
        }
        s
    }

    /// The square a two-character name gives: file letter then rank digit,
    /// each read by the low byte of its code point; 64 when the letter is
    /// not one of `a` to `h` or the digit not one of `1` to `8`.
    pub fn notation_to_index(&self, notation: &str) -> (r: u8)
        requires
            notation@.len() >= 2,
        ensures
            r == notation_index(notation@),
    {
        let c0 = notation.get_char(0) as u32;
        let c1 = notation.get_char(1) as u32;
        let b0 = c0 & 0xFF;
        let b1 = c1 & 0xFF;
        proof {
            assert(c0 & 0xFF == c0 % 256) by (bit_vector);
            assert(c1 & 0xFF == c1 % 256) by (bit_vector);
        }
        if b0 < 0x61 || b1 < 0x31 {
            return 64;
        }
        let file = b0 - 0x61;
        let rank = b1 - 0x31;
        if file > 7 || rank > 7 {
            return 64;
        }
        (rank * 8 + file) as u8
    }

    /// Whether the side to move has a knight, bishop, rook or queen.
    pub fn has_non_pawn_mat(&self) -> (r: bool)
        requires
            self.player_turn < 2,
        ensures
            r == ((pb(self.pieces, self.player_turn as int, 1) | pb(self.pieces, self.player_turn as int, 2)
                | pb(self.pieces, self.player_turn as int, 3) | pb(self.pieces, self.player_turn as int, 4))
                != 0),
    {
        let c = self.player_turn as usize;
        (self.pieces[c][1].0 | self.pieces[c][2].0 | self.pieces[c][3].0 | self.pieces[c][4].0) != 0
    }

    /// Passes the turn: the other side moves, the en passant square is
    /// cleared; the hash and caches follow. Gives the en passant square to
    /// restore.
    pub fn make_null_move(&mut self) -> (r: u8)
        requires
            old(self).wf(),
        ensures
            r == old(self).en_passant_square,
            final(self).wf(),
            final(self).pieces == old(self).pieces,
            final(self).player_turn == 1 - old(self).player_turn,
            final(self).en_passant_square == 64,
            final(self).castling_rights == old(self).castling_rights,
            final(self).halfmove_clock == old(self).halfmove_clock,
            final(self).fullmove_clock == old(self).fullmove_clock,
            final(self).promotion == old(self).promotion,
            final(self).move_gen == old(self).move_gen,
            final(self).history == old(self).history,
    {
        let old_ep = self.en_passant_square;
        let h = self.zobrist_hash ^ key(EP_BASE + old_ep as u64) ^ key(EP_BASE + 64) ^ key(SIDE_KEY);
        proof {
            lemma_pass_turn_hash(self.pieces, self.castling_rights, old_ep, 64, self.player_turn);
        }
        self.player_turn = 1 - self.player_turn;
        self.en_passant_square = 64;
        self.zobrist_hash = h;
        self.init();
        old_ep
    }

    /// Takes a null move back: the turn returns and the en passant square
    /// `old_ep` is restored; the hash and caches follow.
    pub fn undo_null_move(&mut self, old_ep: u8)
        requires
            old(self).move_gen.wf(),
            old(self).player_turn < 2,
            old(self).en_passant_square <= 64,
            old(self).zobrist_hash == full_hash(
                old(self).pieces,
                old(self).castling_rights,
                old(self).en_passant_square,
                old(self).player_turn,
            ),
            old_ep <= 64,
        ensures
            final(self).wf(),
            final(self).pieces == old(self).pieces,
            final(self).player_turn == 1 - old(self).player_turn,
            final(self).en_passant_square == old_ep,
            final(self).castling_rights == old(self).castling_rights,
            final(self).halfmove_clock == old(self).halfmove_clock,
            final(self).fullmove_clock == old(self).fullmove_clock,
            final(self).promotion == old(self).promotion,
            final(self).move_gen == old(self).move_gen,
            final(self).history == old(self).history,
    {
        let h = self.zobrist_hash ^ key(EP_BASE + self.en_passant_square as u64) ^ key(EP_BASE + old_ep as u64)
            ^ key(SIDE_KEY);
        proof {
            lemma_pass_turn_hash(self.pieces, self.castling_rights, self.en_passant_square, old_ep,
                self.player_turn);
        }
        self.player_turn = 1 - self.player_turn;
        self.en_passant_square = old_ep;
        self.zobrist_hash = h;
        self.init();
    }
}

/// Handing the turn over and changing the en passant square from `e0` to
/// `e1` changes the hash by the keys of the two squares and the side key.
proof fn lemma_pass_turn_hash(p: Pieces, c: u8, e0: u8, e1: u8, t: u8)
    requires
        t < 2,
    ensures
        full_hash(p, c, e1, (1 - t) as u8) == full_hash(p, c, e0, t) ^ zkey(EP_BASE + e0) ^ zkey(EP_BASE + e1)
            ^ zkey(SIDE_KEY as int),
{
    let ph: u64 = crate::board::pieces_hash(p);
    let ck: u64 = zkey(CASTLE_BASE + c);
    let k0: u64 = zkey(EP_BASE + e0);
    let k1: u64 = zkey(EP_BASE + e1);
    let zs: u64 = zkey(SIDE_KEY as int);
    if t == 1 {
        assert(ph ^ ck ^ k1 ^ 0u64 == (ph ^ ck ^ k0 ^ zs) ^ k0 ^ k1 ^ zs) by (bit_vector);
    } else {
        assert(ph ^ ck ^ k1 ^ zs == (ph ^ ck ^ k0 ^ 0u64) ^ k0 ^ k1 ^ zs) by (bit_vector);
    }
}

/// Passing the turn and taking it back restores the position and its hash.
pub proof fn lemma_null_move_undo(b0: Board, b1: Board, ep: u8, b2: Board)
    requires
        b0.wf(),
        ep == b0.en_passant_square,
        b1.pieces == b0.pieces,
        b1.player_turn == 1 - b0.player_turn,
        b1.castling_rights == b0.castling_rights,
        b2.pieces == b1.pieces,
        b2.player_turn == 1 - b1.player_turn,
        b2.en_passant_square == ep,
        b2.castling_rights == b1.castling_rights,
        b2.wf(),
    ensures
        b2.pieces == b0.pieces,
        b2.player_turn == b0.player_turn,
        b2.en_passant_square == b0.en_passant_square,
        b2.zobrist_hash == b0.zobrist_hash,
{
}

/// Reading back the name of a square gives the square.
pub proof fn lemma_notation_round_trip(i: int)
    requires
        0 <= i < 64,
    ensures
        notation(i).len() == 2,
        low_byte(notation(i)[0]) >= 0x61,
        low_byte(notation(i)[1]) >= 0x31,
        notation_index(notation(i)) == i,
{
    let f = i % 8;
    let r = i / 8;
    assert(file_char(f) as u32 == 0x61 + f);
    assert(rank_char(r) as u32 == 0x31 + r);
}

} // verus!
