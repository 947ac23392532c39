//! The position: piece bitboards, side to move, castling rights, en passant
//! square, clocks, hash, derived caches and the undo history.
use vstd::prelude::*;
use crate::bitboard::BitBoard;
use crate::bits::{bit, single, lemma_bit_and, lemma_bit_or, lemma_bit_not, lemma_bit_single,
    lemma_bit_zero, lemma_zero_iff_no_bit, lemma_clear_lowest, lemma_nonzero_has_bit};
use crate::geometry::{on_board, knight_rel, king_rel, pawn_attack_rel, rook_attack,
    bishop_attack, lemma_attacks_symmetric};
use crate::movegen::{MoveGen, attacks_rel};
use crate::history::HistoryManager;
use crate::zobrist::{mask_hash, zkey, key, hash_mask, CASTLE_BASE, EP_BASE, SIDE_KEY};

pub mod check;
pub mod from_fen;
pub mod incremental;
pub mod legal_moves;
pub mod moves;
pub mod validation;
pub mod state;
pub mod respond;
pub mod consistent;
pub mod move_laws;

verus! {

/// Piece bitboards indexed by color (0 white, 1 black) and kind (0 pawn ..
/// 5 king).
pub type Pieces = [[BitBoard; 6]; 2];

pub open spec fn pb(p: Pieces, c: int, k: int) -> u64 {
    p[c][k].0
}

/// Squares holding a piece of color `c`.
pub open spec fn side_occ(p: Pieces, c: int) -> u64 {
    pb(p, c, 0) | pb(p, c, 1) | pb(p, c, 2) | pb(p, c, 3) | pb(p, c, 4) | pb(p, c, 5)
}

pub open spec fn all_occ(p: Pieces) -> u64 {
    side_occ(p, 0) | side_occ(p, 1)
}

/// A piece of color `e` on `a` attacks `s` (with `occ` occupied).
pub open spec fn attacker(p: Pieces, e: int, s: int, occ: u64, a: int) -> bool {
    ||| bit(pb(p, e, 1), a) && knight_rel(a, s)
    ||| bit(pb(p, e, 5), a) && king_rel(a, s)
    ||| bit(pb(p, e, 0), a) && pawn_attack_rel(e, a, s)
    ||| (bit(pb(p, e, 3), a) || bit(pb(p, e, 4), a)) && rook_attack(a, s, occ)
    ||| (bit(pb(p, e, 2), a) || bit(pb(p, e, 4), a)) && bishop_attack(a, s, occ)
}

/// Square `s` is attacked by a piece of color `e`.
pub open spec fn attacked_by(p: Pieces, e: int, s: int, occ: u64) -> bool {
    exists|a: int| #[trigger] attacker(p, e, s, occ, a)
}

/// The king of color `c` (the lowest square of its king bitboard) stands
/// on an attacked square.
pub open spec fn king_in_check(p: Pieces, c: int) -> bool {
    let kb = pb(p, c, 5);
    kb != 0 && attacked_by(p, 1 - c, kb.trailing_zeros() as int, all_occ(p))
}

/// Kind of the piece of color `e` on `s` (the first kind whose bitboard
/// holds `s`); 6 for an empty square.
pub open spec fn kind_at(p: Pieces, e: int, s: int) -> int {
    if bit(pb(p, e, 0), s) {
        0
    } else if bit(pb(p, e, 1), s) {
        1
    } else if bit(pb(p, e, 2), s) {
        2
    } else if bit(pb(p, e, 3), s) {
        3
    } else if bit(pb(p, e, 4), s) {
        4
    } else if bit(pb(p, e, 5), s) {
        5
    } else {
        6
    }
}

/// Square `t` is attacked by some piece of kind `k` and color `c`.
pub open spec fn type_attacks(p: Pieces, c: int, k: int, occ: u64, t: int) -> bool {
    exists|s: int| #[trigger] bit(pb(p, c, k), s) && attacks_rel(k, c, s, t, occ)
}

/// Hash of the piece placement.
pub open spec fn pieces_hash(p: Pieces) -> u64 {
    mask_hash(pb(p, 0, 0), 0) ^ mask_hash(pb(p, 0, 1), 1) ^ mask_hash(pb(p, 0, 2), 2) ^ mask_hash(
        pb(p, 0, 3),
        3,
    ) ^ mask_hash(pb(p, 0, 4), 4) ^ mask_hash(pb(p, 0, 5), 5) ^ mask_hash(pb(p, 1, 0), 6)
        ^ mask_hash(pb(p, 1, 1), 7) ^ mask_hash(pb(p, 1, 2), 8) ^ mask_hash(pb(p, 1, 3), 9)
        ^ mask_hash(pb(p, 1, 4), 10) ^ mask_hash(pb(p, 1, 5), 11)
}

/// Zobrist hash of a position.
pub open spec fn full_hash(p: Pieces, castling: u8, ep: u8, turn: u8) -> u64 {
    pieces_hash(p) ^ zkey(CASTLE_BASE + castling) ^ zkey(EP_BASE + ep) ^ (if turn == 1 {
        zkey(SIDE_KEY as int)
    } else {
        0u64
    })
}

/// What the hash of the pieces changes by from `p0` to `p1`: the keys of
/// the squares that changed, slot by slot.
pub open spec fn pieces_hash_delta(p0: Pieces, p1: Pieces) -> u64 {
    mask_hash(pb(p0, 0, 0) ^ pb(p1, 0, 0), 0) ^ mask_hash(pb(p0, 0, 1) ^ pb(p1, 0, 1), 1) ^ mask_hash(
        pb(p0, 0, 2) ^ pb(p1, 0, 2),
        2,
    ) ^ mask_hash(pb(p0, 0, 3) ^ pb(p1, 0, 3), 3) ^ mask_hash(pb(p0, 0, 4) ^ pb(p1, 0, 4), 4) ^ mask_hash(
        pb(p0, 0, 5) ^ pb(p1, 0, 5),
        5,
    ) ^ mask_hash(pb(p0, 1, 0) ^ pb(p1, 1, 0), 6) ^ mask_hash(pb(p0, 1, 1) ^ pb(p1, 1, 1), 7) ^ mask_hash(
        pb(p0, 1, 2) ^ pb(p1, 1, 2),
        8,
    ) ^ mask_hash(pb(p0, 1, 3) ^ pb(p1, 1, 3), 9) ^ mask_hash(pb(p0, 1, 4) ^ pb(p1, 1, 4), 10) ^ mask_hash(
        pb(p0, 1, 5) ^ pb(p1, 1, 5),
        11,
    )
}

proof fn lemma_slot_update(x0: u64, x1: u64, slot: int)
    ensures
        mask_hash(x1, slot) == mask_hash(x0, slot) ^ mask_hash(x0 ^ x1, slot),
{
    assert(x0 ^ (x0 ^ x1) == x1) by (bit_vector);
    crate::zobrist::lemma_mask_hash_xor(x0, x0 ^ x1, slot, 64);
}

/// The hash of the pieces follows a change of the pieces by the keys of
/// the squares that changed.
pub proof fn lemma_pieces_hash_update(p0: Pieces, p1: Pieces)
    ensures
        pieces_hash(p1) == pieces_hash(p0) ^ pieces_hash_delta(p0, p1),
{
    let a0 = mask_hash(pb(p0, 0, 0), 0);
    let a1 = mask_hash(pb(p0, 0, 1), 1);
    let a2 = mask_hash(pb(p0, 0, 2), 2);
    let a3 = mask_hash(pb(p0, 0, 3), 3);
    let a4 = mask_hash(pb(p0, 0, 4), 4);
    let a5 = mask_hash(pb(p0, 0, 5), 5);
    let a6 = mask_hash(pb(p0, 1, 0), 6);
    let a7 = mask_hash(pb(p0, 1, 1), 7);
    let a8 = mask_hash(pb(p0, 1, 2), 8);
    let a9 = mask_hash(pb(p0, 1, 3), 9);
    let a10 = mask_hash(pb(p0, 1, 4), 10);
    let a11 = mask_hash(pb(p0, 1, 5), 11);
    let d0 = mask_hash(pb(p0, 0, 0) ^ pb(p1, 0, 0), 0);
    let d1 = mask_hash(pb(p0, 0, 1) ^ pb(p1, 0, 1), 1);
    let d2 = mask_hash(pb(p0, 0, 2) ^ pb(p1, 0, 2), 2);
    let d3 = mask_hash(pb(p0, 0, 3) ^ pb(p1, 0, 3), 3);
    let d4 = mask_hash(pb(p0, 0, 4) ^ pb(p1, 0, 4), 4);
    let d5 = mask_hash(pb(p0, 0, 5) ^ pb(p1, 0, 5), 5);
    let d6 = mask_hash(pb(p0, 1, 0) ^ pb(p1, 1, 0), 6);
    let d7 = mask_hash(pb(p0, 1, 1) ^ pb(p1, 1, 1), 7);
    let d8 = mask_hash(pb(p0, 1, 2) ^ pb(p1, 1, 2), 8);
    let d9 = mask_hash(pb(p0, 1, 3) ^ pb(p1, 1, 3), 9);
    let d10 = mask_hash(pb(p0, 1, 4) ^ pb(p1, 1, 4), 10);
    let d11 = mask_hash(pb(p0, 1, 5) ^ pb(p1, 1, 5), 11);
    lemma_slot_update(pb(p0, 0, 0), pb(p1, 0, 0), 0);
    lemma_slot_update(pb(p0, 0, 1), pb(p1, 0, 1), 1);
    lemma_slot_update(pb(p0, 0, 2), pb(p1, 0, 2), 2);
    lemma_slot_update(pb(p0, 0, 3), pb(p1, 0, 3), 3);
    lemma_slot_update(pb(p0, 0, 4), pb(p1, 0, 4), 4);
    lemma_slot_update(pb(p0, 0, 5), pb(p1, 0, 5), 5);
    lemma_slot_update(pb(p0, 1, 0), pb(p1, 1, 0), 6);
    lemma_slot_update(pb(p0, 1, 1), pb(p1, 1, 1), 7);
    lemma_slot_update(pb(p0, 1, 2), pb(p1, 1, 2), 8);
    lemma_slot_update(pb(p0, 1, 3), pb(p1, 1, 3), 9);
    lemma_slot_update(pb(p0, 1, 4), pb(p1, 1, 4), 10);
    lemma_slot_update(pb(p0, 1, 5), pb(p1, 1, 5), 11);
    assert((a0 ^ d0) ^ (a1 ^ d1) ^ (a2 ^ d2) ^ (a3 ^ d3) ^ (a4 ^ d4) ^ (a5 ^ d5) ^ (a6 ^ d6) ^ (a7 ^ d7) ^ (a8
        ^ d8) ^ (a9 ^ d9) ^ (a10 ^ d10) ^ (a11 ^ d11) == (a0 ^ a1 ^ a2 ^ a3 ^ a4 ^ a5 ^ a6 ^ a7 ^ a8 ^ a9 ^ a10
        ^ a11) ^ (d0 ^ d1 ^ d2 ^ d3 ^ d4 ^ d5 ^ d6 ^ d7 ^ d8 ^ d9 ^ d10 ^ d11)) by (bit_vector);
}

/// The starting position.
pub open spec fn initial_pieces() -> Pieces {
    [
        [
            BitBoard(0x0000_0000_0000_FF00),
            BitBoard(0x0000_0000_0000_0042),
            BitBoard(0x0000_0000_0000_0024),
            BitBoard(0x0000_0000_0000_0081),
            BitBoard(0x0000_0000_0000_0008),
            BitBoard(0x0000_0000_0000_0010),
        ],
        [
            BitBoard(0x00FF_0000_0000_0000),
            BitBoard(0x4200_0000_0000_0000),
            BitBoard(0x2400_0000_0000_0000),
            BitBoard(0x8100_0000_0000_0000),
            BitBoard(0x0800_0000_0000_0000),
            BitBoard(0x1000_0000_0000_0000),
        ],
    ]
}

pub fn initial_board() -> (r: Pieces)
    ensures
        r == initial_pieces(),
{
    [
        [
            BitBoard(0x0000_0000_0000_FF00),
            BitBoard(0x0000_0000_0000_0042),
            BitBoard(0x0000_0000_0000_0024),
            BitBoard(0x0000_0000_0000_0081),
            BitBoard(0x0000_0000_0000_0008),
            BitBoard(0x0000_0000_0000_0010),
        ],
        [
            BitBoard(0x00FF_0000_0000_0000),
            BitBoard(0x4200_0000_0000_0000),
            BitBoard(0x2400_0000_0000_0000),
            BitBoard(0x8100_0000_0000_0000),
            BitBoard(0x0800_0000_0000_0000),
            BitBoard(0x1000_0000_0000_0000),
        ],
    ]
}

pub struct Board {
    pub pieces: Pieces,
    pub color_occupency: [BitBoard; 2],
    pub total_occupency: BitBoard,
    pub kings: [BitBoard; 2],
    /// 0 = white, 1 = black.
    pub player_turn: u8,
    /// Packed `KQkq`: K = 0x08, Q = 0x04, k = 0x02, q = 0x01.
    pub castling_rights: u8,
    /// Last promotion requested from the frontend: 4 = Q, 3 = R, 2 = B, 1 = N.
    pub promotion: u8,
    /// Square behind a pawn that just advanced two squares; 64 for none.
    pub en_passant_square: u8,
    pub halfmove_clock: u8,
    pub fullmove_clock: u16,
    pub attack_mask: [BitBoard; 2],
    pub attack_by_type: [[BitBoard; 6]; 2],
    pub pinned_pieces: [Option<BitBoard>; 64],
    pub zobrist_hash: u64,
    pub move_gen: MoveGen,
    pub history: HistoryManager,
}

impl Board {
    /// The side to move, the en passant square and the hash are in range
    /// and consistent.
    pub open spec fn core_ok(&self) -> bool {
        &&& self.player_turn < 2
        &&& self.en_passant_square <= 64
        &&& self.zobrist_hash == full_hash(
            self.pieces,
            self.castling_rights,
            self.en_passant_square,
            self.player_turn,
        )
    }

    /// The occupancy caches match the pieces.
    pub open spec fn occupancy_ok(&self) -> bool {
        &&& self.color_occupency[0].0 == side_occ(self.pieces, 0)
        &&& self.color_occupency[1].0 == side_occ(self.pieces, 1)
        &&& self.total_occupency.0 == all_occ(self.pieces)
    }

    /// The attack caches match the pieces.
    pub open spec fn attacks_ok(&self) -> bool {
        &&& forall|c: int, k: int, t: int|
            0 <= c < 2 && 0 <= k < 6 ==> #[trigger] bit(self.attack_by_type[c][k].0, t)
                == type_attacks(self.pieces, c, k, all_occ(self.pieces), t)
        &&& forall|c: int|
            0 <= c < 2 ==> #[trigger] self.attack_mask[c].0 == self.attack_by_type[c][0].0
                | self.attack_by_type[c][1].0 | self.attack_by_type[c][2].0
                | self.attack_by_type[c][3].0 | self.attack_by_type[c][4].0
                | self.attack_by_type[c][5].0
    }

    pub open spec fn caches_ok(&self) -> bool {
        &&& self.occupancy_ok()
        &&& self.attacks_ok()
        &&& self.kings[0] == self.pieces[0][5]
        &&& self.kings[1] == self.pieces[1][5]
        &&& self.pinned_ok(self.player_turn)
    }

    /// Ready for move generation: tables built, caches current.
    pub open spec fn wf(&self) -> bool {
        &&& self.core_ok()
        &&& self.caches_ok()
        &&& self.move_gen.wf()
    }

    /// Creates a board in the starting position: white to move, all four
    /// castling rights, no en passant square, clocks at zero. The caches
    /// and move tables are filled by `MoveGen::generate_moves` and `init`.
    pub fn new() -> (r: Board)
        ensures
            r.pieces == initial_pieces(),
            r.player_turn == 0,
            r.castling_rights == 0x0F,
            r.promotion == 0,
            r.en_passant_square == 64,
            r.halfmove_clock == 0,
            r.fullmove_clock == 0,
            r.core_ok(),
            r.history@ == Seq::<crate::history::Undo>::empty(),
            r.color_occupency == [BitBoard(0), BitBoard(0)],
            r.total_occupency == BitBoard(0),
            r.kings == [BitBoard(0), BitBoard(0)],
            r.attack_mask == [BitBoard(0), BitBoard(0)],
            forall|c: int, k: int| 0 <= c < 2 && 0 <= k < 6 ==> #[trigger] r.attack_by_type[c][k] == BitBoard(0),
            forall|s: int| 0 <= s < 64 ==> #[trigger] r.pinned_pieces[s] is None,
            r.move_gen.is_blank(),
    {
        let pieces = initial_board();
        let hash = compute_hash(&pieces, 0x0F, 64, 0);
        Board {
            pieces,
            color_occupency: [BitBoard(0), BitBoard(0)],
            total_occupency: BitBoard(0),
            kings: [BitBoard(0), BitBoard(0)],
            player_turn: 0,
            castling_rights: 0x0F,
            promotion: 0,
            en_passant_square: 64,
            halfmove_clock: 0,
            fullmove_clock: 0,
            attack_mask: [BitBoard(0), BitBoard(0)],
            attack_by_type: [[BitBoard(0); 6]; 2],
            pinned_pieces: [None; 64],
            zobrist_hash: hash,
            move_gen: MoveGen::new(),
            history: HistoryManager::new(),
        }
    }

    /// Puts the pieces and game state back to the starting position. The
    /// move tables and the history are kept.
    pub fn reset(&mut self)
        ensures
            final(self).pieces == initial_pieces(),
            final(self).player_turn == 0,
            final(self).castling_rights == 0x0F,
            final(self).promotion == 0,
            final(self).en_passant_square == 64,
            final(self).halfmove_clock == 0,
            final(self).fullmove_clock == 0,
            final(self).core_ok(),
            final(self).move_gen == old(self).move_gen,
            final(self).history == old(self).history,
            final(self).color_occupency == [BitBoard(0), BitBoard(0)],
            final(self).total_occupency == BitBoard(0),
            final(self).kings == [BitBoard(0), BitBoard(0)],
            final(self).attack_mask == old(self).attack_mask,
            final(self).attack_by_type == old(self).attack_by_type,
            final(self).pinned_pieces == old(self).pinned_pieces,
    {
        self.pieces = initial_board();
        self.color_occupency = [BitBoard(0), BitBoard(0)];
        self.total_occupency = BitBoard(0);
        self.kings = [BitBoard(0), BitBoard(0)];
        self.player_turn = 0;
        self.castling_rights = 0x0F;
        self.promotion = 0;
        self.en_passant_square = 64;
        self.halfmove_clock = 0;
        self.fullmove_clock = 0;
        self.zobrist_hash = compute_hash(&self.pieces, 0x0F, 64, 0);
    }

    /// Recomputes the occupancy caches from the piece bitboards.
    pub fn init_state(&mut self)
        ensures
            final(self).occupancy_ok(),
            final(self).pieces == old(self).pieces,
            final(self).player_turn == old(self).player_turn,
            final(self).castling_rights == old(self).castling_rights,
            final(self).en_passant_square == old(self).en_passant_square,
            final(self).halfmove_clock == old(self).halfmove_clock,
            final(self).fullmove_clock == old(self).fullmove_clock,
            final(self).zobrist_hash == old(self).zobrist_hash,
            final(self).promotion == old(self).promotion,
            final(self).move_gen == old(self).move_gen,
            final(self).history == old(self).history,
            final(self).attack_by_type == old(self).attack_by_type,
            final(self).attack_mask == old(self).attack_mask,
            final(self).kings == old(self).kings,
            final(self).pinned_pieces == old(self).pinned_pieces,
    {
        let w = side_occupancy(&self.pieces, 0);
        let b = side_occupancy(&self.pieces, 1);
        self.color_occupency = [BitBoard(w), BitBoard(b)];
        self.total_occupency = BitBoard(w | b);
    }

    /// Recomputes every cache (occupancy, attacks, kings, pins) from the
    /// pieces.
    pub fn init(&mut self)
        requires
            old(self).move_gen.wf(),
            old(self).player_turn < 2,
        ensures
            final(self).caches_ok(),
            final(self).pieces == old(self).pieces,
            final(self).player_turn == old(self).player_turn,
            final(self).castling_rights == old(self).castling_rights,
            final(self).en_passant_square == old(self).en_passant_square,
            final(self).halfmove_clock == old(self).halfmove_clock,
            final(self).fullmove_clock == old(self).fullmove_clock,
            final(self).zobrist_hash == old(self).zobrist_hash,
            final(self).promotion == old(self).promotion,
            final(self).move_gen == old(self).move_gen,
            final(self).history == old(self).history,
    {
        self.init_state();
        self.update_attack_mask();
        self.pinned_pieces = self.compute_pinned_pieces(self.player_turn);
        self.kings = [self.pieces[0][5], self.pieces[1][5]];
    }

    /// Combined attacks of every piece of one kind and color.
    fn compute_attack_for_type(&self, color: u8, piece_idx: usize) -> (r: BitBoard)
        requires
            self.move_gen.wf(),
            self.occupancy_ok(),
            color < 2,
            piece_idx < 6,
        ensures
            forall|t: int| #[trigger]
                bit(r.0, t) == type_attacks(
                    self.pieces,
                    color as int,
                    piece_idx as int,
                    all_occ(self.pieces),
                    t,
                ),
    {
        let occupied = self.total_occupency.0;
        let orig = self.pieces[color as usize][piece_idx].0;
        let mut rest = orig;
        let mut acc: u64 = 0;
        let ghost c = color as int;
        let ghost k = piece_idx as int;
        proof {
            lemma_bit_zero();
        }
        while rest != 0
            invariant
                color < 2,
                piece_idx < 6,
                c == color,
                k == piece_idx,
                self.move_gen.wf(),
                occupied == all_occ(self.pieces),
                orig == pb(self.pieces, c, k),
                forall|s: int| #[trigger] bit(rest, s) ==> bit(orig, s),
                forall|t: int| #[trigger]
                    bit(acc, t) == exists|s: int|
                        #[trigger] attacks_rel(k, c, s, t, occupied) && bit(orig, s) && !bit(rest, s),
            decreases rest,
        {
            let sq = rest.trailing_zeros() as u64;
            let ghost old_rest = rest;
            let ghost old_acc = acc;
            proof {
                lemma_nonzero_has_bit(rest);
                lemma_clear_lowest(rest);
                crate::bits::lemma_bit_xor(rest, single(sq as int));
                lemma_bit_single(sq as int);
                assert(rest & ((rest - 1) as u64) < rest) by (bit_vector)
                    requires
                        rest != 0,
                ;
            }
            let a = self.move_gen.attacks_of(piece_idx as u8, color, sq as usize, occupied);
            acc = acc | a;
            rest = rest & (rest - 1);
            proof {
                lemma_bit_or(old_acc, a);
                assert forall|t: int| #[trigger]
                    bit(acc, t) == exists|s: int|
                        #[trigger] attacks_rel(k, c, s, t, occupied) && bit(orig, s) && !bit(rest, s) by {
                    if bit(acc, t) {
                        if bit(old_acc, t) {
                            let s = choose|s: int|
                                #[trigger] attacks_rel(k, c, s, t, occupied) && bit(orig, s) && !bit(old_rest, s);
                            assert(attacks_rel(k, c, s, t, occupied) && bit(orig, s) && !bit(rest, s));
                        } else {
                            assert(attacks_rel(k, c, sq as int, t, occupied) && bit(orig, sq as int) && !bit(rest, sq as int));
                        }
                    }
                    if exists|s: int| #[trigger] attacks_rel(k, c, s, t, occupied) && bit(orig, s) && !bit(rest, s) {
                        let s = choose|s: int| #[trigger] attacks_rel(k, c, s, t, occupied) && bit(orig, s) && !bit(rest, s);
                        if s != sq {
                            assert(attacks_rel(k, c, s, t, occupied) && bit(orig, s) && !bit(old_rest, s));
                        }
                    }
                }
            }
        }
        proof {
            assert forall|t: int| #[trigger]
                bit(acc, t) == type_attacks(self.pieces, c, k, all_occ(self.pieces), t) by {
                if bit(acc, t) {
                    let s = choose|s: int| #[trigger] attacks_rel(k, c, s, t, occupied) && bit(orig, s) && !bit(rest, s);
                    assert(bit(pb(self.pieces, c, k), s) && attacks_rel(k, c, s, t, occupied));
                }
                if type_attacks(self.pieces, c, k, all_occ(self.pieces), t) {
                    let s = choose|s: int| #[trigger] bit(pb(self.pieces, c, k), s) && attacks_rel(k, c, s, t, all_occ(self.pieces));
                    assert(attacks_rel(k, c, s, t, occupied) && bit(orig, s) && !bit(rest, s));
                }
            }
        }
        BitBoard(acc)
    }

    /// Recomputes the attacks of every kind and color, and each color's
    /// combined attack mask.
    pub fn update_attack_mask(&mut self)
        requires
            old(self).move_gen.wf(),
            old(self).occupancy_ok(),
        ensures
            final(self).attacks_ok(),
            final(self).pieces == old(self).pieces,
            final(self).color_occupency == old(self).color_occupency,
            final(self).total_occupency == old(self).total_occupency,
            final(self).player_turn == old(self).player_turn,
            final(self).castling_rights == old(self).castling_rights,
            final(self).en_passant_square == old(self).en_passant_square,
            final(self).halfmove_clock == old(self).halfmove_clock,
            final(self).fullmove_clock == old(self).fullmove_clock,
            final(self).zobrist_hash == old(self).zobrist_hash,
            final(self).promotion == old(self).promotion,
            final(self).move_gen == old(self).move_gen,
            final(self).history == old(self).history,
            final(self).kings == old(self).kings,
            final(self).pinned_pieces == old(self).pinned_pieces,
    {
        let mut color: u8 = 0;
        while color < 2
            invariant
                color <= 2,
                self.move_gen.wf(),
                self.occupancy_ok(),
                self.pieces == old(self).pieces,
                self.color_occupency == old(self).color_occupency,
                self.total_occupency == old(self).total_occupency,
                self.player_turn == old(self).player_turn,
                self.castling_rights == old(self).castling_rights,
                self.en_passant_square == old(self).en_passant_square,
                self.halfmove_clock == old(self).halfmove_clock,
                self.fullmove_clock == old(self).fullmove_clock,
                self.zobrist_hash == old(self).zobrist_hash,
                self.promotion == old(self).promotion,
                self.move_gen == old(self).move_gen,
                self.history == old(self).history,
                self.kings == old(self).kings,
                self.pinned_pieces == old(self).pinned_pieces,
                forall|c: int, k: int, t: int|
                    0 <= c < color && 0 <= k < 6 ==> #[trigger] bit(self.attack_by_type[c][k].0, t)
                        == type_attacks(self.pieces, c, k, all_occ(self.pieces), t),
                forall|c: int|
                    0 <= c < color ==> #[trigger] self.attack_mask[c].0 == self.attack_by_type[c][0].0
                        | self.attack_by_type[c][1].0 | self.attack_by_type[c][2].0
                        | self.attack_by_type[c][3].0 | self.attack_by_type[c][4].0
                        | self.attack_by_type[c][5].0,
            decreases 2 - color,
        {
            let a0 = self.compute_attack_for_type(color, 0);
            let a1 = self.compute_attack_for_type(color, 1);
            let a2 = self.compute_attack_for_type(color, 2);
            let a3 = self.compute_attack_for_type(color, 3);
            let a4 = self.compute_attack_for_type(color, 4);
            let a5 = self.compute_attack_for_type(color, 5);
            self.attack_by_type[color as usize] = [a0, a1, a2, a3, a4, a5];
            self.attack_mask[color as usize] = BitBoard(a0.0 | a1.0 | a2.0 | a3.0 | a4.0 | a5.0);
            color = color + 1;
        }
    }

    /// Squares neither attacked by `color` nor occupied.
    pub fn unoccupied_or_safe(&self, color: usize) -> (r: BitBoard)
        requires
            color < 2,
        ensures
            r.0 == !self.attack_mask[color as int].0 & !self.total_occupency.0,
    {
        BitBoard(!self.attack_mask[color].0 & !self.total_occupency.0)
    }

    /// Index of the first kind (0 pawn .. 5 king) of `side` that has a piece
    /// on a square of `mask`; 6 when none does.
    pub fn get_piece_index(&self, mask: u64, side: u8) -> (r: usize)
        requires
            side < 2,
        ensures
            r <= 6,
            r < 6 ==> self.pieces[side as int][r as int].0 & mask != 0,
            forall|j: int| 0 <= j < r ==> #[trigger] self.pieces[side as int][j].0 & mask == 0,
    {
        let mut k: usize = 0;
        while k < 6
            invariant
                k <= 6,
                side < 2,
                forall|j: int| 0 <= j < k ==> #[trigger] self.pieces[side as int][j].0 & mask == 0,
            decreases 6 - k,
        {
            if self.pieces[side as usize][k].0 & mask != 0 {
                return k;
            }
            k = k + 1;
        }
        6
    }
}

/// Squares of one color's pieces.
pub fn side_occupancy(p: &Pieces, c: usize) -> (r: u64)
    requires
        c < 2,
    ensures
        r == side_occ(*p, c as int),
{
    p[c][0].0 | p[c][1].0 | p[c][2].0 | p[c][3].0 | p[c][4].0 | p[c][5].0
}

/// The Zobrist hash of a position.
pub fn compute_hash(p: &Pieces, castling: u8, ep: u8, turn: u8) -> (r: u64)
    ensures
        r == full_hash(*p, castling, ep, turn),
{
    let h = hash_mask(p[0][0].0, 0) ^ hash_mask(p[0][1].0, 1) ^ hash_mask(p[0][2].0, 2) ^ hash_mask(
        p[0][3].0,
        3,
    ) ^ hash_mask(p[0][4].0, 4) ^ hash_mask(p[0][5].0, 5) ^ hash_mask(p[1][0].0, 6) ^ hash_mask(
        p[1][1].0,
        7,
    ) ^ hash_mask(p[1][2].0, 8) ^ hash_mask(p[1][3].0, 9) ^ hash_mask(p[1][4].0, 10) ^ hash_mask(
        p[1][5].0,
        11,
    );
    let side = if turn == 1 {
        key(SIDE_KEY)
    } else {
        0
    };
    h ^ key(CASTLE_BASE + castling as u64) ^ key(EP_BASE + ep as u64) ^ side
}

/// Whether square `sq` is attacked by a piece of color `by`, with `occ`
/// occupied.
pub fn square_attacked(mg: &MoveGen, p: &Pieces, occ: u64, by: u8, sq: usize) -> (r: bool)
    requires
        mg.wf(),
        by < 2,
        sq < 64,
    ensures
        r == attacked_by(*p, by as int, sq as int, occ),
{
    let us: u8 = 1 - by;
    let e = by as usize;
    let ka = mg.knight_attacks(sq);
    let kg = mg.king_attacks(sq);
    let pa = mg.pawn_attacks(us, sq);
    let ra = mg.get_rook_attacks(sq, occ);
    let ba = mg.get_bishop_attacks(sq, occ);
    let knights = ka & p[e][1].0;
    let kings = kg & p[e][5].0;
    let pawns = pa & p[e][0].0;
    let rooks = ra & (p[e][3].0 | p[e][4].0);
    let bishops = ba & (p[e][2].0 | p[e][4].0);
    let hits = knights | kings | pawns | rooks | bishops;
    proof {
        lemma_bit_and(ka, p[e as int][1].0);
        lemma_bit_and(kg, p[e as int][5].0);
        lemma_bit_and(pa, p[e as int][0].0);
        lemma_bit_and(ra, p[e as int][3].0 | p[e as int][4].0);
        lemma_bit_and(ba, p[e as int][2].0 | p[e as int][4].0);
        lemma_bit_or(p[e as int][3].0, p[e as int][4].0);
        lemma_bit_or(p[e as int][2].0, p[e as int][4].0);
        lemma_bit_or(knights, kings);
        lemma_bit_or(knights | kings, pawns);
        lemma_bit_or(knights | kings | pawns, rooks);
        lemma_bit_or(knights | kings | pawns | rooks, bishops);
        lemma_zero_iff_no_bit(hits);
        assert forall|a: int| #[trigger] bit(hits, a) == attacker(*p, by as int, sq as int, occ, a) by {
            lemma_attacks_symmetric(sq as int, a, occ);
        }
        if hits != 0 {
            lemma_nonzero_has_bit(hits);
            let a = hits.trailing_zeros() as int;
            assert(attacker(*p, by as int, sq as int, occ, a));
        }
        if attacked_by(*p, by as int, sq as int, occ) {
            let a = choose|a: int| #[trigger] attacker(*p, by as int, sq as int, occ, a);
            assert(bit(hits, a));
        }
    }
    hits != 0
}

} // verus!
