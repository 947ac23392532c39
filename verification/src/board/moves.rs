//! Making and unmaking moves.
use vstd::prelude::*;
use crate::bitboard::BitBoard;
use crate::bits::{single, lemma_bit_or};
use crate::movegen::{Move, promo_kind, FLAG_EP_CAPTURE, FLAG_KING_CASTLE, FLAG_QUEEN_CASTLE,
    FLAG_DOUBLE_PUSH, FLAG_PROMO_QUEEN, FLAG_PROMO_ROOK, FLAG_PROMO_BISHOP, FLAG_PROMO_KNIGHT};
use crate::history::Undo;
use crate::zobrist::lemma_xor_facts;
use crate::board::{Board, Pieces, pb, full_hash, pieces_hash, pieces_hash_delta,
    lemma_pieces_hash_update};
use crate::zobrist::{hash_mask, key, zkey, CASTLE_BASE, EP_BASE, SIDE_KEY};

verus! {

broadcast use vstd::array::group_array_axioms;

pub open spec fn is_castle(f: u16) -> bool {
    f == FLAG_KING_CASTLE || f == FLAG_QUEEN_CASTLE
}

/// Square of the pawn taken en passant by a move of `mover`.
pub open spec fn ep_victim(m: Move, mover: int) -> int {
    if mover == 0 {
        m.dst() - 8
    } else {
        m.dst() + 8
    }
}

/// Squares the rook leaves and enters when `mover` castles.
pub open spec fn rook_toggle(f: u16, mover: int) -> u64 {
    if f == FLAG_KING_CASTLE {
        if mover == 0 {
            single(7) | single(5)
        } else {
            single(63) | single(61)
        }
    } else {
        if mover == 0 {
            single(0) | single(3)
        } else {
            single(56) | single(59)
        }
    }
}

/// Squares of bitboard (`c`, `k`) that a move of `mover` flips.
pub open spec fn toggle_mask(m: Move, mover: int, c: int, k: int) -> u64 {
    let f = m.flag();
    let fr = single(m.src());
    let to = single(m.dst());
    if f == FLAG_EP_CAPTURE {
        if c == mover && k == 0 {
            fr | to
        } else if c != mover && k == 0 {
            single(ep_victim(m, mover))
        } else {
            0
        }
    } else if is_castle(f) {
        if c == mover && k == 5 {
            fr | to
        } else if c == mover && k == 3 {
            rook_toggle(f, mover)
        } else {
            0
        }
    } else if promo_kind(f) is Some {
        if c == mover && k == 0 {
            fr
        } else if c == mover && k == promo_kind(f)->0 {
            to
        } else if c != mover && k == m.victim() {
            to
        } else {
            0
        }
    } else {
        if c == mover && k == m.kind() {
            fr | to
        } else if c != mover && k == m.victim() {
            to
        } else {
            0
        }
    }
}

/// A move `mover` can make without leaving the board's squares.
pub open spec fn move_ok(m: Move, mover: int) -> bool {
    &&& 0 <= mover < 2
    &&& m.flag() == FLAG_EP_CAPTURE ==> (if mover == 0 {
        m.dst() >= 8
    } else {
        m.dst() < 56
    })
    &&& m.flag() == FLAG_DOUBLE_PUSH && m.kind() == 0 ==> (if mover == 0 {
        m.src() < 56
    } else {
        m.src() >= 8
    })
    &&& (m.flag() != FLAG_EP_CAPTURE && !is_castle(m.flag()) && promo_kind(m.flag()) is None)
        ==> m.kind() < 6
}

/// Whether `mv` keeps to the squares of the board when `mover` plays it.
pub fn fits_mover(mv: Move, mover: u8) -> (r: bool)
    requires
        mover < 2,
    ensures
        r == move_ok(mv, mover as int),
{
    let f = mv.flags();
    let ep_ok = f != FLAG_EP_CAPTURE || (if mover == 0 {
        mv.to() >= 8
    } else {
        mv.to() < 56
    });
    let dp_ok = !(f == FLAG_DOUBLE_PUSH && mv.piece() == 0) || (if mover == 0 {
        mv.from() < 56
    } else {
        mv.from() >= 8
    });
    let special = f == FLAG_EP_CAPTURE || f == FLAG_KING_CASTLE || f == FLAG_QUEEN_CASTLE || f
        == FLAG_PROMO_QUEEN || f == FLAG_PROMO_ROOK || f == FLAG_PROMO_BISHOP || f
        == FLAG_PROMO_KNIGHT;
    let k_ok = special || mv.piece() < 6;
    ep_ok && dp_ok && k_ok
}

/// Rights that survive a non-castling move: moving the king loses both of
/// its side's rights; moving a rook from its corner loses that side.
pub open spec fn rights_mask(m: Move, mover: int) -> u8 {
    if m.kind() == 5 {
        if mover == 0 {
            0x03
        } else {
            0x0C
        }
    } else if m.kind() == 3 {
        if mover == 0 {
            if m.src() == 0 {
                0x0B
            } else if m.src() == 7 {
                0x07
            } else {
                0x0F
            }
        } else {
            if m.src() == 56 {
                0x0E
            } else if m.src() == 63 {
                0x0D
            } else {
                0x0F
            }
        }
    } else {
        0x0F
    }
}

pub open spec fn new_castling(b: Board, m: Move) -> u8 {
    let f = m.flag();
    if f == FLAG_EP_CAPTURE {
        b.castling_rights
    } else if is_castle(f) {
        b.castling_rights & (if b.player_turn == 0 {
            0x03u8
        } else {
            0x0Cu8
        })
    } else {
        b.castling_rights & rights_mask(m, b.player_turn as int)
    }
}

pub open spec fn new_ep(b: Board, m: Move) -> u8 {
    if m.flag() == FLAG_DOUBLE_PUSH && m.kind() == 0 {
        if b.player_turn == 0 {
            (m.src() + 8) as u8
        } else {
            (m.src() - 8) as u8
        }
    } else {
        64
    }
}

/// The halfmove clock restarts after a capture or a pawn move.
pub open spec fn new_halfmove(b: Board, m: Move) -> u8 {
    let f = m.flag();
    if f == FLAG_EP_CAPTURE || promo_kind(f) is Some {
        0
    } else if is_castle(f) {
        (b.halfmove_clock + 1) as u8
    } else if m.victim() <= 5 || m.kind() == 0 {
        0
    } else {
        (b.halfmove_clock + 1) as u8
    }
}

/// The record `make_move` pushes for undoing `m` on `b`.
pub open spec fn undo_record(b: Board, m: Move) -> Undo {
    Undo {
        mv: m,
        castling_rights: b.castling_rights,
        en_passant_square: b.en_passant_square,
        halfmove_clock: b.halfmove_clock,
        zobrist_hash: b.zobrist_hash,
    }
}

/// `b1` is `b0` after `m`.
pub open spec fn make_post(b0: Board, m: Move, b1: Board) -> bool {
    &&& forall|c: int, k: int|
        0 <= c < 2 && 0 <= k < 6 ==> #[trigger] pb(b1.pieces, c, k) == pb(b0.pieces, c, k)
            ^ toggle_mask(m, b0.player_turn as int, c, k)
    &&& b1.player_turn == 1 - b0.player_turn
    &&& b1.castling_rights == new_castling(b0, m)
    &&& b1.en_passant_square == new_ep(b0, m)
    &&& b1.halfmove_clock == new_halfmove(b0, m)
    &&& b1.fullmove_clock == b0.fullmove_clock + 1
    &&& b1.promotion == b0.promotion
    &&& b1.move_gen == b0.move_gen
    &&& b1.history@ == b0.history@.push(undo_record(b0, m))
    &&& b1.wf()
}

/// `b1` is `b0` with its latest move taken back.
pub open spec fn undo_post(b0: Board, b1: Board) -> bool {
    let u = b0.history@.last();
    &&& forall|c: int, k: int|
        0 <= c < 2 && 0 <= k < 6 ==> #[trigger] pb(b1.pieces, c, k) == pb(b0.pieces, c, k)
            ^ toggle_mask(u.mv, 1 - b0.player_turn, c, k)
    &&& b1.player_turn == 1 - b0.player_turn
    &&& b1.castling_rights == u.castling_rights
    &&& b1.en_passant_square == u.en_passant_square
    &&& b1.halfmove_clock == u.halfmove_clock
    &&& b1.zobrist_hash == u.zobrist_hash
    &&& b1.fullmove_clock == b0.fullmove_clock - 1
    &&& b1.promotion == b0.promotion
    &&& b1.move_gen == b0.move_gen
    &&& b1.history@ == b0.history@.drop_last()
    &&& b1.caches_ok()
}

/// The flip mask of bitboard (`c`, `k`) for a move of `mover`.
fn toggle_mask_exec(mv: Move, mover: u8, c: u8, k: u8) -> (r: u64)
    requires
        move_ok(mv, mover as int),
        c < 2,
        k < 6,
    ensures
        r == toggle_mask(mv, mover as int, c as int, k as int),
{
    let f = mv.flags();
    let fr: u64 = 1u64 << (mv.from() as u64);
    let to: u64 = 1u64 << (mv.to() as u64);
    if f == FLAG_EP_CAPTURE {
        if c == mover && k == 0 {
            fr | to
        } else if c != mover && k == 0 {
            let v: u8 = if mover == 0 {
                mv.to() - 8
            } else {
                mv.to() + 8
            };
            1u64 << (v as u64)
        } else {
            0
        }
    } else if f == FLAG_KING_CASTLE || f == FLAG_QUEEN_CASTLE {
        if c == mover && k == 5 {
            fr | to
        } else if c == mover && k == 3 {
            if f == FLAG_KING_CASTLE {
                if mover == 0 {
                    (1u64 << 7u64) | (1u64 << 5u64)
                } else {
                    (1u64 << 63u64) | (1u64 << 61u64)
                }
            } else {
                if mover == 0 {
                    (1u64 << 0u64) | (1u64 << 3u64)
                } else {
                    (1u64 << 56u64) | (1u64 << 59u64)
                }
            }
        } else {
            0
        }
    } else if f == FLAG_PROMO_QUEEN || f == FLAG_PROMO_ROOK || f == FLAG_PROMO_BISHOP || f
        == FLAG_PROMO_KNIGHT {
        let promoted: u8 = if f == FLAG_PROMO_QUEEN {
            4
        } else if f == FLAG_PROMO_ROOK {
            3
        } else if f == FLAG_PROMO_BISHOP {
            2
        } else {
            1
        };
        if c == mover && k == 0 {
            fr
        } else if c == mover && k == promoted {
            to
        } else if c != mover && k == mv.captured_piece() {
            to
        } else {
            0
        }
    } else {
        if c == mover && k == mv.piece() {
            fr | to
        } else if c != mover && k == mv.captured_piece() {
            to
        } else {
            0
        }
    }
}

/// Flips, in every bitboard, the squares a move of `mover` changes.
pub fn apply_toggles(p: &mut Pieces, mv: Move, mover: u8)
    requires
        move_ok(mv, mover as int),
    ensures
        forall|c: int, k: int|
            0 <= c < 2 && 0 <= k < 6 ==> #[trigger] pb(*final(p), c, k) == pb(*old(p), c, k)
                ^ toggle_mask(mv, mover as int, c, k),
{
    let mut c: u8 = 0;
    while c < 2
        invariant
            c <= 2,
            move_ok(mv, mover as int),
            forall|c2: int, k2: int|
                0 <= c2 < c && 0 <= k2 < 6 ==> #[trigger] pb(*p, c2, k2) == pb(*old(p), c2, k2)
                    ^ toggle_mask(mv, mover as int, c2, k2),
            forall|c2: int, k2: int|
                c <= c2 < 2 && 0 <= k2 < 6 ==> #[trigger] pb(*p, c2, k2) == pb(*old(p), c2, k2),
        decreases 2 - c,
    {
        let mut k: u8 = 0;
        while k < 6
            invariant
                c < 2,
                k <= 6,
                move_ok(mv, mover as int),
                forall|c2: int, k2: int|
                    (0 <= c2 < c && 0 <= k2 < 6) || (c2 == c && 0 <= k2 < k) ==> #[trigger] pb(
                        *p,
                        c2,
                        k2,
                    ) == pb(*old(p), c2, k2) ^ toggle_mask(mv, mover as int, c2, k2),
                forall|c2: int, k2: int|
                    ((c < c2 < 2 && 0 <= k2 < 6) || (c2 == c && k <= k2 < 6)) ==> #[trigger] pb(
                        *p,
                        c2,
                        k2,
                    ) == pb(*old(p), c2, k2),
            decreases 6 - k,
        {
            let t = toggle_mask_exec(mv, mover, c, k);
            let ghost before = *p;
            assert(pb(before, c as int, k as int) == pb(*old(p), c as int, k as int));
            let mut row = p[c as usize];
            let cur = row[k as usize].0;
            row[k as usize] = BitBoard(cur ^ t);
            p[c as usize] = row;
            proof {
                assert forall|c2: int, k2: int| 0 <= c2 < 2 && 0 <= k2 < 6 && !(c2 == c && k2 == k) implies
                    #[trigger] pb(*p, c2, k2) == pb(before, c2, k2) by {
                    if c2 == c {
                        assert(p[c2][k2] == row[k2]);
                    } else {
                        assert(p[c2] == before[c2]);
                    }
                }
                assert(pb(*p, c as int, k as int) == cur ^ t);
            }
            k = k + 1;
        }
        c = c + 1;
    }
}

impl Board {
    /// Castling rights that survive a move of `mv` by the side to move.
    fn get_castling_rights(&self, mv: Move) -> (r: u8)
        requires
            self.player_turn < 2,
        ensures
            r == rights_mask(mv, self.player_turn as int),
    {
        let piece = mv.piece();
        if piece == 5 {
            if self.player_turn == 0 {
                0x03
            } else {
                0x0C
            }
        } else if piece == 3 {
            let from = mv.from();
            if self.player_turn == 0 {
                if from == 0 {
                    0x0B
                } else if from == 7 {
                    0x07
                } else {
                    0x0F
                }
            } else {
                if from == 56 {
                    0x0E
                } else if from == 63 {
                    0x0D
                } else {
                    0x0F
                }
            }
        } else {
            0x0F
        }
    }

    /// Flips the pieces a move changes, hands the turn over and brings the
    /// hash and the caches up to date.
    fn finish_move(&mut self, mv: Move, mover: u8, old_castling: u8, old_ep: u8)
        requires
            old(self).zobrist_hash == full_hash(old(self).pieces, old_castling, old_ep, mover),
            move_ok(mv, mover as int),
            mover < 2,
            old(self).player_turn == mover,
            old(self).fullmove_clock < 0xFFFF,
            old(self).en_passant_square <= 64,
            old(self).move_gen.wf(),
        ensures
            forall|c: int, k: int|
                0 <= c < 2 && 0 <= k < 6 ==> #[trigger] pb(final(self).pieces, c, k) == pb(
                    old(self).pieces,
                    c,
                    k,
                ) ^ toggle_mask(mv, mover as int, c, k),
            final(self).player_turn == 1 - mover,
            final(self).fullmove_clock == old(self).fullmove_clock + 1,
            final(self).castling_rights == old(self).castling_rights,
            final(self).en_passant_square == old(self).en_passant_square,
            final(self).halfmove_clock == old(self).halfmove_clock,
            final(self).promotion == old(self).promotion,
            final(self).move_gen == old(self).move_gen,
            final(self).history == old(self).history,
            final(self).wf(),
    {
        let before = self.pieces;
        apply_toggles(&mut self.pieces, mv, mover);
        self.player_turn = 1 - self.player_turn;
        self.fullmove_clock = self.fullmove_clock + 1;
        let p = &self.pieces;
        let delta = hash_mask(before[0][0].0 ^ p[0][0].0, 0) ^ hash_mask(before[0][1].0 ^ p[0][1].0, 1) ^ hash_mask(
            before[0][2].0 ^ p[0][2].0,
            2,
        ) ^ hash_mask(before[0][3].0 ^ p[0][3].0, 3) ^ hash_mask(before[0][4].0 ^ p[0][4].0, 4) ^ hash_mask(
            before[0][5].0 ^ p[0][5].0,
            5,
        ) ^ hash_mask(before[1][0].0 ^ p[1][0].0, 6) ^ hash_mask(before[1][1].0 ^ p[1][1].0, 7) ^ hash_mask(
            before[1][2].0 ^ p[1][2].0,
            8,
        ) ^ hash_mask(before[1][3].0 ^ p[1][3].0, 9) ^ hash_mask(before[1][4].0 ^ p[1][4].0, 10) ^ hash_mask(
            before[1][5].0 ^ p[1][5].0,
            11,
        );
        let h = self.zobrist_hash ^ delta ^ key(CASTLE_BASE + old_castling as u64) ^ key(
            CASTLE_BASE + self.castling_rights as u64,
        ) ^ key(EP_BASE + old_ep as u64) ^ key(EP_BASE + self.en_passant_square as u64) ^ key(SIDE_KEY);
        proof {
            lemma_pieces_hash_update(before, self.pieces);
            let p0: u64 = pieces_hash(before);
            let d: u64 = pieces_hash_delta(before, self.pieces);
            let c0: u64 = zkey(CASTLE_BASE + old_castling);
            let c1: u64 = zkey(CASTLE_BASE + self.castling_rights);
            let e0: u64 = zkey(EP_BASE + old_ep);
            let e1: u64 = zkey(EP_BASE + self.en_passant_square);
            let zs: u64 = zkey(SIDE_KEY as int);
            let s0: u64 = if mover == 1 {
                zs
            } else {
                0u64
            };
            let s1: u64 = if self.player_turn == 1 {
                zs
            } else {
                0u64
            };
            assert(s1 == s0 ^ zs) by {
                if mover == 1 {
                    assert(zs ^ zs == 0u64) by (bit_vector);
                } else {
                    assert(0u64 ^ zs == zs) by (bit_vector);
                }
            }
            assert(delta == d);
            assert((p0 ^ c0 ^ e0 ^ s0) ^ d ^ c0 ^ c1 ^ e0 ^ e1 ^ zs == (p0 ^ d) ^ c1 ^ e1 ^ (s0 ^ zs))
                by (bit_vector);
        }
        self.zobrist_hash = h;
        self.init();
    }

    fn do_ep_capture(&mut self, mv: Move)
        requires
            old(self).zobrist_hash == full_hash(
                old(self).pieces,
                old(self).castling_rights,
                old(self).en_passant_square,
                old(self).player_turn,
            ),
            old(self).player_turn < 2,
            move_ok(mv, old(self).player_turn as int),
            mv.flag() == FLAG_EP_CAPTURE,
            old(self).fullmove_clock < 0xFFFF,
            old(self).move_gen.wf(),
        ensures
            make_post_fields(*old(self), mv, *final(self)),
    {
        let mover = self.player_turn;
        let old_castling = self.castling_rights;
        let old_ep = self.en_passant_square;
        self.en_passant_square = 64;
        self.halfmove_clock = 0;
        self.finish_move(mv, mover, old_castling, old_ep);
    }

    /// Moves the king and the rook of a castling move.
    fn do_castle(&mut self, mv: Move)
        requires
            old(self).zobrist_hash == full_hash(
                old(self).pieces,
                old(self).castling_rights,
                old(self).en_passant_square,
                old(self).player_turn,
            ),
            old(self).player_turn < 2,
            move_ok(mv, old(self).player_turn as int),
            is_castle(mv.flag()),
            old(self).fullmove_clock < 0xFFFF,
            old(self).halfmove_clock < 0xFF,
            old(self).move_gen.wf(),
        ensures
            make_post_fields(*old(self), mv, *final(self)),
    {
        let mover = self.player_turn;
        let old_castling = self.castling_rights;
        let old_ep = self.en_passant_square;
        if mover == 0 {
            self.castling_rights = self.castling_rights & 0x03;
        } else {
            self.castling_rights = self.castling_rights & 0x0C;
        }
        self.en_passant_square = 64;
        self.halfmove_clock = self.halfmove_clock + 1;
        self.finish_move(mv, mover, old_castling, old_ep);
    }

    fn do_promotion(&mut self, mv: Move)
        requires
            old(self).zobrist_hash == full_hash(
                old(self).pieces,
                old(self).castling_rights,
                old(self).en_passant_square,
                old(self).player_turn,
            ),
            old(self).player_turn < 2,
            move_ok(mv, old(self).player_turn as int),
            promo_kind(mv.flag()) is Some,
            old(self).fullmove_clock < 0xFFFF,
            old(self).move_gen.wf(),
        ensures
            make_post_fields(*old(self), mv, *final(self)),
    {
        let mover = self.player_turn;
        let old_castling = self.castling_rights;
        let old_ep = self.en_passant_square;
        self.castling_rights = self.castling_rights & self.get_castling_rights(mv);
        self.en_passant_square = 64;
        self.halfmove_clock = 0;
        self.finish_move(mv, mover, old_castling, old_ep);
    }

    /// Plays `move_info`: records how to undo it, moves the pieces (with the
    /// rook for castling, the captured pawn for en passant and the new piece
    /// for promotions), updates castling rights, the en passant square, the
    /// clocks and the hash, hands the turn over and recomputes the caches.
    pub fn make_move(&mut self, move_info: Move)
        requires
            old(self).wf(),
            move_ok(move_info, old(self).player_turn as int),
            old(self).halfmove_clock < 0xFF,
            old(self).fullmove_clock < 0xFFFF,
        ensures
            make_post(*old(self), move_info, *final(self)),
    {
        let undo = Undo::new(
            move_info,
            self.castling_rights,
            self.en_passant_square,
            self.halfmove_clock,
            self.zobrist_hash,
        );
        self.history.push(undo);
        let f = move_info.flags();
        if f == FLAG_EP_CAPTURE {
            self.do_ep_capture(move_info);
            return;
        }
        if f == FLAG_KING_CASTLE || f == FLAG_QUEEN_CASTLE {
            self.do_castle(move_info);
            return;
        }
        if f == FLAG_PROMO_ROOK || f == FLAG_PROMO_QUEEN || f == FLAG_PROMO_KNIGHT || f
            == FLAG_PROMO_BISHOP {
            self.do_promotion(move_info);
            return;
        }
        let mover = self.player_turn;
        let old_castling = self.castling_rights;
        let old_ep = self.en_passant_square;
        self.castling_rights = self.castling_rights & self.get_castling_rights(move_info);
        if move_info.piece() == 0 && f == FLAG_DOUBLE_PUSH {
            self.en_passant_square = if mover == 0 {
                move_info.from() + 8
            } else {
                move_info.from() - 8
            };
        } else {
            self.en_passant_square = 64;
        }
        if move_info.captured_piece() <= 5 || move_info.piece() == 0 {
            self.halfmove_clock = 0;
        } else {
            self.halfmove_clock = self.halfmove_clock + 1;
        }
        self.finish_move(move_info, mover, old_castling, old_ep);
    }

    /// Whether `undo_move` can take a move back: one is recorded, the move
    /// counter shows it, and it fits the side that played it.
    pub fn can_undo(&self) -> (r: bool)
        requires
            self.player_turn < 2,
        ensures
            r == (self.history@.len() > 0 && self.fullmove_clock > 0 && move_ok(
                self.history@.last().mv,
                1 - self.player_turn,
            )),
    {
        match self.history.last() {
            None => false,
            Some(u) => self.fullmove_clock > 0 && fits_mover(u.mv, 1 - self.player_turn),
        }
    }

    /// Takes back the latest move: restores the castling rights, en passant
    /// square, halfmove clock and hash it recorded, puts the pieces back,
    /// returns the turn and recomputes the caches.
    pub fn undo_move(&mut self)
        requires
            old(self).history@.len() > 0,
            old(self).player_turn < 2,
            old(self).fullmove_clock > 0,
            old(self).move_gen.wf(),
            move_ok(old(self).history@.last().mv, 1 - old(self).player_turn),
        ensures
            undo_post(*old(self), *final(self)),
    {
        let undo = match self.history.pop() {
            Some(u) => u,
            None => {
                return ;
            },
        };
        self.castling_rights = undo.castling_rights;
        self.en_passant_square = undo.en_passant_square;
        self.halfmove_clock = undo.halfmove_clock;
        self.zobrist_hash = undo.zobrist_hash;
        let mover = 1 - self.player_turn;
        apply_toggles(&mut self.pieces, undo.mv, mover);
        self.player_turn = mover;
        self.fullmove_clock = self.fullmove_clock - 1;
        self.init();
    }
}

/// What `make_move` does besides pushing the undo record.
pub open spec fn make_post_fields(b0: Board, m: Move, b1: Board) -> bool {
    &&& forall|c: int, k: int|
        0 <= c < 2 && 0 <= k < 6 ==> #[trigger] pb(b1.pieces, c, k) == pb(b0.pieces, c, k)
            ^ toggle_mask(m, b0.player_turn as int, c, k)
    &&& b1.player_turn == 1 - b0.player_turn
    &&& b1.castling_rights == new_castling(b0, m)
    &&& b1.en_passant_square == new_ep(b0, m)
    &&& b1.halfmove_clock == new_halfmove(b0, m)
    &&& b1.fullmove_clock == b0.fullmove_clock + 1
    &&& b1.promotion == b0.promotion
    &&& b1.move_gen == b0.move_gen
    &&& b1.history == b0.history
    &&& b1.wf()
}

/// Taking back a move restores the position it was made in: pieces, side
/// to move, castling rights, en passant square, clocks, hash and history.
pub proof fn lemma_make_undo(b0: Board, m: Move, b1: Board, b2: Board)
    requires
        b0.wf(),
        make_post(b0, m, b1),
        undo_post(b1, b2),
    ensures
        b2.pieces == b0.pieces,
        b2.player_turn == b0.player_turn,
        b2.castling_rights == b0.castling_rights,
        b2.en_passant_square == b0.en_passant_square,
        b2.halfmove_clock == b0.halfmove_clock,
        b2.fullmove_clock == b0.fullmove_clock,
        b2.zobrist_hash == b0.zobrist_hash,
        b2.history@ == b0.history@,
        b2.wf(),
{
    assert(b1.history@.last() == undo_record(b0, m));
    assert forall|c: int, k: int| 0 <= c < 2 && 0 <= k < 6 implies #[trigger] pb(b2.pieces, c, k)
        == pb(b0.pieces, c, k) by {
        lemma_xor_facts(pb(b0.pieces, c, k), toggle_mask(m, b0.player_turn as int, c, k), 0, 0);
    }
    assert(b2.pieces[0] =~= b0.pieces[0]);
    assert(b2.pieces[1] =~= b0.pieces[1]);
    assert(b2.pieces =~= b0.pieces);
    assert(b2.history@ =~= b0.history@);
}

} // verus!
