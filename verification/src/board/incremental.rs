//! Bringing the occupancy and attack caches up to date after a move
//! without recomputing every slot.
use vstd::prelude::*;
use crate::bitboard::BitBoard;
use crate::bits::{bit, single, lemma_bit_or, lemma_bit_xor, lemma_bit_single, lemma_bit_zero};
use crate::geometry::{same_rank, same_file, same_diag, same_anti, between};
use crate::movegen::{Move, attacks_rel, promo_kind, FLAG_EP_CAPTURE, FLAG_KING_CASTLE,
    FLAG_QUEEN_CASTLE, FLAG_PROMO_QUEEN, FLAG_PROMO_ROOK, FLAG_PROMO_BISHOP, FLAG_PROMO_KNIGHT};
use crate::board::{Board, Pieces, pb, side_occ, all_occ, type_attacks};
use crate::board::moves::{toggle_mask, move_ok, ep_victim, is_castle, rook_toggle};
use crate::board::validation::{toggled, lemma_toggled, rook_squares};

verus! {

broadcast use vstd::array::group_array_axioms;

/// `a` and `b` lie on one rank, file or diagonal.
pub open spec fn shares(a: int, b: int) -> bool {
    same_rank(a, b) || same_file(a, b) || same_diag(a, b) || same_anti(a, b)
}

/// Squares whose occupancy a move of `mover` can change: its two squares,
/// the pawn taken en passant, the castling rook's two squares.
pub open spec fn in_changed(m: Move, mover: int, x: int) -> bool {
    ||| x == m.src()
    ||| x == m.dst()
    ||| m.flag() == FLAG_EP_CAPTURE && x == ep_victim(m, mover)
    ||| is_castle(m.flag()) && bit(rook_toggle(m.flag(), mover), x)
}

/// What the occupancy of color `c` is flipped by when `mover` plays `m`.
pub open spec fn occ_delta(m: Move, mover: int, c: int) -> u64 {
    let ft = single(m.src()) | single(m.dst());
    if c == mover {
        if is_castle(m.flag()) {
            ft ^ rook_toggle(m.flag(), mover)
        } else {
            ft
        }
    } else if m.flag() == FLAG_EP_CAPTURE {
        single(ep_victim(m, mover))
    } else if !is_castle(m.flag()) && m.victim() <= 5 {
        single(m.dst())
    } else {
        0
    }
}

/// The attack slot (`c`, `k`) of `b` holds the attacks of its pieces.
pub open spec fn slot_ok(b: Board, c: int, k: int) -> bool {
    forall|t: int| #[trigger]
        bit(b.attack_by_type[c][k].0, t) == type_attacks(b.pieces, c, k, all_occ(b.pieces), t)
}

/// The attack slots describe the position `p`.
pub open spec fn attacks_describe(b: Board, p: Pieces) -> bool {
    forall|c: int, k: int, t: int|
        0 <= c < 2 && 0 <= k < 6 ==> #[trigger] bit(b.attack_by_type[c][k].0, t) == type_attacks(
            p,
            c,
            k,
            all_occ(p),
            t,
        )
}

/// Bits of a color's occupancy.
pub proof fn lemma_side_occ_bits(p: Pieces, c: int)
    ensures
        forall|x: int| #[trigger]
            bit(side_occ(p, c), x) == (bit(pb(p, c, 0), x) || bit(pb(p, c, 1), x) || bit(pb(p, c, 2), x)
                || bit(pb(p, c, 3), x) || bit(pb(p, c, 4), x) || bit(pb(p, c, 5), x)),
{
    let b0 = pb(p, c, 0);
    let b1 = pb(p, c, 1);
    let b2 = pb(p, c, 2);
    let b3 = pb(p, c, 3);
    let b4 = pb(p, c, 4);
    let b5 = pb(p, c, 5);
    lemma_bit_or(b0, b1);
    lemma_bit_or(b0 | b1, b2);
    lemma_bit_or(b0 | b1 | b2, b3);
    lemma_bit_or(b0 | b1 | b2 | b3, b4);
    lemma_bit_or(b0 | b1 | b2 | b3 | b4, b5);
}

/// Bits of the whole occupancy.
pub proof fn lemma_all_occ_bits(p: Pieces)
    ensures
        forall|x: int| #[trigger]
            bit(all_occ(p), x) == (bit(side_occ(p, 0), x) || bit(side_occ(p, 1), x)),
{
    lemma_bit_or(side_occ(p, 0), side_occ(p, 1));
}

/// A square outside the changed ones keeps its bit in every bitboard.
proof fn lemma_toggle_outside(m: Move, mover: int, x: int)
    requires
        0 <= mover < 2,
        move_ok(m, mover),
        !in_changed(m, mover, x),
    ensures
        forall|c: int, k: int| !#[trigger] bit(toggle_mask(m, mover, c, k), x),
{
    m.lemma_bounds();
    lemma_bit_single(m.src());
    lemma_bit_single(m.dst());
    lemma_bit_or(single(m.src()), single(m.dst()));
    lemma_bit_zero();
    if m.flag() == FLAG_EP_CAPTURE {
        lemma_bit_single(ep_victim(m, mover));
    }
    if is_castle(m.flag()) {
        lemma_bit_single(7);
        lemma_bit_single(5);
        lemma_bit_single(63);
        lemma_bit_single(61);
        lemma_bit_single(0);
        lemma_bit_single(3);
        lemma_bit_single(56);
        lemma_bit_single(59);
        lemma_bit_or(single(7), single(5));
        lemma_bit_or(single(63), single(61));
        lemma_bit_or(single(0), single(3));
        lemma_bit_or(single(56), single(59));
    }
}

/// The occupancy before and after a move differ only on changed squares.
pub proof fn lemma_occ_outside(p: Pieces, m: Move, mover: int, x: int)
    requires
        0 <= mover < 2,
        move_ok(m, mover),
        !in_changed(m, mover, x),
    ensures
        bit(all_occ(toggled(p, m, mover)), x) == bit(all_occ(p), x),
{
    let q = toggled(p, m, mover);
    lemma_toggle_outside(m, mover, x);
    lemma_toggled(p, m, mover);
    assert forall|c: int, k: int| 0 <= c < 2 && 0 <= k < 6 implies #[trigger] bit(pb(q, c, k), x)
        == bit(pb(p, c, k), x) by {
        lemma_bit_xor(pb(p, c, k), toggle_mask(m, mover, c, k));
    }
    lemma_side_occ_bits(p, 0);
    lemma_side_occ_bits(p, 1);
    lemma_side_occ_bits(q, 0);
    lemma_side_occ_bits(q, 1);
    lemma_all_occ_bits(p);
    lemma_all_occ_bits(q);
}

/// A square between two squares lies on a line with the first.
pub proof fn lemma_between_shares(s: int, t: int, x: int)
    requires
        between(s, t, x),
    ensures
        shares(s, x),
{
}

/// A slider's attacks do not change when no square on its lines changes
/// occupancy.
proof fn lemma_slider_stable(p: Pieces, q: Pieces, m: Move, mover: int, c: int, k: int, t: int)
    requires
        0 <= mover < 2,
        move_ok(m, mover),
        2 <= k <= 4,
        0 <= c < 2,
        q == toggled(p, m, mover),
        pb(p, c, k) == pb(q, c, k),
        forall|s: int, x: int|
            bit(pb(q, c, k), s) && #[trigger] in_changed(m, mover, x) ==> !#[trigger] shares(s, x),
    ensures
        type_attacks(p, c, k, all_occ(p), t) == type_attacks(q, c, k, all_occ(q), t),
{
    assert forall|s: int| bit(pb(q, c, k), s) implies #[trigger] attacks_rel(k, c, s, t, all_occ(p))
        == attacks_rel(k, c, s, t, all_occ(q)) by {
        assert forall|x: int| #[trigger] between(s, t, x) implies bit(all_occ(p), x) == bit(
            all_occ(q),
            x,
        ) by {
            lemma_between_shares(s, t, x);
            if in_changed(m, mover, x) {
                assert(!shares(s, x));
            }
            lemma_occ_outside(p, m, mover, x);
        }
    }
    if type_attacks(p, c, k, all_occ(p), t) {
        let s = choose|s: int| #[trigger] bit(pb(p, c, k), s) && attacks_rel(k, c, s, t, all_occ(p));
        assert(bit(pb(q, c, k), s) && attacks_rel(k, c, s, t, all_occ(q)));
    }
    if type_attacks(q, c, k, all_occ(q), t) {
        let s = choose|s: int| #[trigger] bit(pb(q, c, k), s) && attacks_rel(k, c, s, t, all_occ(q));
        assert(bit(pb(p, c, k), s) && attacks_rel(k, c, s, t, all_occ(p)));
    }
}

/// A slot stays right while its value and the pieces stay.
proof fn lemma_slot_frame(b1: Board, b2: Board, c: int, k: int)
    requires
        b1.pieces == b2.pieces,
        b1.attack_by_type[c][k] == b2.attack_by_type[c][k],
        slot_ok(b1, c, k),
    ensures
        slot_ok(b2, c, k),
{
    assert forall|t: int| #[trigger] bit(b2.attack_by_type[c][k].0, t) == type_attacks(
        b2.pieces,
        c,
        k,
        all_occ(b2.pieces),
        t,
    ) by {
        assert(bit(b1.attack_by_type[c][k].0, t) == type_attacks(b1.pieces, c, k, all_occ(b1.pieces), t));
    }
}

/// Pawn, knight and king attacks depend on the pieces alone.
proof fn lemma_stepper_stable(p: Pieces, q: Pieces, c: int, k: int, t: int)
    requires
        k == 0 || k == 1 || k == 5,
        pb(p, c, k) == pb(q, c, k),
    ensures
        type_attacks(p, c, k, all_occ(p), t) == type_attacks(q, c, k, all_occ(q), t),
{
    if type_attacks(p, c, k, all_occ(p), t) {
        let s = choose|s: int| #[trigger] bit(pb(p, c, k), s) && attacks_rel(k, c, s, t, all_occ(p));
        assert(bit(pb(q, c, k), s) && attacks_rel(k, c, s, t, all_occ(q)));
    }
    if type_attacks(q, c, k, all_occ(q), t) {
        let s = choose|s: int| #[trigger] bit(pb(q, c, k), s) && attacks_rel(k, c, s, t, all_occ(q));
        assert(bit(pb(p, c, k), s) && attacks_rel(k, c, s, t, all_occ(p)));
    }
}


/// Making a move's changes twice undoes them.
pub proof fn lemma_toggled_twice(p: Pieces, m: Move, mover: int)
    ensures
        toggled(toggled(p, m, mover), m, mover) == p,
{
    let q = toggled(p, m, mover);
    let back = toggled(q, m, mover);
    lemma_toggled(p, m, mover);
    lemma_toggled(q, m, mover);
    assert forall|c: int, k: int| 0 <= c < 2 && 0 <= k < 6 implies back[c][k] == p[c][k] by {
        crate::zobrist::lemma_xor_facts(pb(p, c, k), toggle_mask(m, mover, c, k), 0, 0);
        assert(pb(back, c, k) == pb(p, c, k));
    }
    assert(back[0] =~= p[0]);
    assert(back[1] =~= p[1]);
    assert(back =~= p);
}

/// No square holds two pieces.
pub open spec fn disjoint(p: Pieces) -> bool {
    forall|c1: int, k1: int, c2: int, k2: int, x: int|
        0 <= c1 < 2 && 0 <= k1 < 6 && 0 <= c2 < 2 && 0 <= k2 < 6 && (c1 != c2 || k1 != k2) && #[trigger] bit(
            pb(p, c1, k1),
            x,
        ) ==> !#[trigger] bit(pb(p, c2, k2), x)
}

/// The squares a move of `mover` names hold what it says: the moving piece
/// on its source, no piece of its own on its destination, the recorded
/// victim there (or no enemy piece), the pawn taken en passant behind it
/// with the destination empty; for castling the rook in its corner and
/// the two destinations empty.
pub open spec fn clean_move(p: Pieces, m: Move, mover: int) -> bool {
    let e = 1 - mover;
    let f = m.flag();
    let fr = m.src();
    let to = m.dst();
    &&& fr != to
    &&& !bit(side_occ(p, mover), to)
    &&& if f == FLAG_EP_CAPTURE {
        &&& bit(pb(p, mover, 0), fr)
        &&& !bit(side_occ(p, e), to)
        &&& bit(pb(p, e, 0), ep_victim(m, mover))
    } else if is_castle(f) {
        let rf = rook_squares(f, mover).0 as int;
        let rt = rook_squares(f, mover).1 as int;
        &&& bit(pb(p, mover, 5), fr)
        &&& !bit(side_occ(p, e), to)
        &&& bit(pb(p, mover, 3), rf)
        &&& !bit(side_occ(p, mover), rt)
        &&& !bit(side_occ(p, e), rt)
        &&& rf != fr && rf != to && rt != fr && rt != to
    } else {
        let k = if promo_kind(f) is Some {
            0
        } else {
            m.kind()
        };
        &&& 0 <= k < 6
        &&& bit(pb(p, mover, k), fr)
        &&& if m.victim() <= 5 {
            bit(pb(p, e, m.victim()), to)
        } else {
            !bit(side_occ(p, e), to)
        }
    }
}

/// The occupancy after a clean move on a board where no square holds two
/// pieces is the occupancy before it flipped by the move's squares: what
/// the incremental update computes equals the full recomputation.
pub proof fn lemma_incremental_occupancy(p: Pieces, m: Move, mover: int)
    requires
        0 <= mover < 2,
        move_ok(m, mover),
        disjoint(p),
        clean_move(p, m, mover),
    ensures
        side_occ(toggled(p, m, mover), mover) == side_occ(p, mover) ^ occ_delta(m, mover, mover),
        side_occ(toggled(p, m, mover), 1 - mover) == side_occ(p, 1 - mover) ^ occ_delta(m, mover, 1 - mover),
{
    let q = toggled(p, m, mover);
    m.lemma_bounds();
    lemma_toggled(p, m, mover);
    lemma_side_occ_bits(p, 0);
    lemma_side_occ_bits(p, 1);
    lemma_side_occ_bits(q, 0);
    lemma_side_occ_bits(q, 1);
    lemma_bit_single(m.src());
    lemma_bit_single(m.dst());
    lemma_bit_or(single(m.src()), single(m.dst()));
    lemma_bit_zero();
    if m.flag() == FLAG_EP_CAPTURE {
        lemma_bit_single(ep_victim(m, mover));
    }
    if is_castle(m.flag()) {
        lemma_bit_single(7);
        lemma_bit_single(5);
        lemma_bit_single(63);
        lemma_bit_single(61);
        lemma_bit_single(0);
        lemma_bit_single(3);
        lemma_bit_single(56);
        lemma_bit_single(59);
        lemma_bit_or(single(7), single(5));
        lemma_bit_or(single(63), single(61));
        lemma_bit_or(single(0), single(3));
        lemma_bit_or(single(56), single(59));
        let ft = single(m.src()) | single(m.dst());
        lemma_bit_xor(ft, rook_toggle(m.flag(), mover));
    }
    assert forall|c: int, k: int, x: int| 0 <= c < 2 && 0 <= k < 6 implies #[trigger] bit(pb(q, c, k), x)
        == (bit(pb(p, c, k), x) != bit(toggle_mask(m, mover, c, k), x)) by {
        lemma_bit_xor(pb(p, c, k), toggle_mask(m, mover, c, k));
    }
    lemma_bit_xor(side_occ(p, 0), occ_delta(m, mover, 0));
    lemma_bit_xor(side_occ(p, 1), occ_delta(m, mover, 1));
    assert forall|c: int, x: int| 0 <= c < 2 && 0 <= x < 64 implies #[trigger] bit(side_occ(q, c), x)
        == bit(side_occ(p, c) ^ occ_delta(m, mover, c), x) by {
        assert(bit(pb(q, c, 0), x) == (bit(pb(p, c, 0), x) != bit(toggle_mask(m, mover, c, 0), x)));
        assert(bit(pb(q, c, 1), x) == (bit(pb(p, c, 1), x) != bit(toggle_mask(m, mover, c, 1), x)));
        assert(bit(pb(q, c, 2), x) == (bit(pb(p, c, 2), x) != bit(toggle_mask(m, mover, c, 2), x)));
        assert(bit(pb(q, c, 3), x) == (bit(pb(p, c, 3), x) != bit(toggle_mask(m, mover, c, 3), x)));
        assert(bit(pb(q, c, 4), x) == (bit(pb(p, c, 4), x) != bit(toggle_mask(m, mover, c, 4), x)));
        assert(bit(pb(q, c, 5), x) == (bit(pb(p, c, 5), x) != bit(toggle_mask(m, mover, c, 5), x)));
    }
    crate::bits::lemma_bits_ext(side_occ(q, mover), side_occ(p, mover) ^ occ_delta(m, mover, mover));
    crate::bits::lemma_bits_ext(
        side_occ(q, 1 - mover),
        side_occ(p, 1 - mover) ^ occ_delta(m, mover, 1 - mover),
    );
}

impl Board {
    /// Whether squares `a` and `b` share a rank, file or diagonal.
    pub fn shares_line(&self, a: u8, b: u8) -> (r: bool)
        ensures
            r == shares(a as int, b as int),
    {
        let ra = (a / 8) as i16;
        let fa = (a % 8) as i16;
        let rb = (b / 8) as i16;
        let fb = (b % 8) as i16;
        ra == rb || fa == fb || ra - fa == rb - fb || ra + fa == rb + fb
    }

    /// Flips the occupancy caches by the squares `mv` (played by
    /// `mover_color`) vacates and fills, instead of folding the bitboards
    /// again.
    pub fn update_state_incremental(&mut self, mv: Move, mover_color: usize)
        requires
            mover_color < 2,
            move_ok(mv, mover_color as int),
        ensures
            final(self).color_occupency[mover_color as int].0 == old(self).color_occupency[mover_color as int].0
                ^ occ_delta(mv, mover_color as int, mover_color as int),
            final(self).color_occupency[1 - mover_color].0 == old(self).color_occupency[1 - mover_color].0
                ^ occ_delta(mv, mover_color as int, 1 - mover_color),
            final(self).total_occupency.0 == final(self).color_occupency[0].0
                | final(self).color_occupency[1].0,
            final(self).pieces == old(self).pieces,
            final(self).player_turn == old(self).player_turn,
            final(self).castling_rights == old(self).castling_rights,
            final(self).en_passant_square == old(self).en_passant_square,
            final(self).halfmove_clock == old(self).halfmove_clock,
            final(self).fullmove_clock == old(self).fullmove_clock,
            final(self).zobrist_hash == old(self).zobrist_hash,
            final(self).promotion == old(self).promotion,
            final(self).move_gen == old(self).move_gen,
            final(self).history == old(self).history,
            final(self).attack_by_type == old(self).attack_by_type,
            final(self).attack_mask == old(self).attack_mask,
            final(self).kings == old(self).kings,
            final(self).pinned_pieces == old(self).pinned_pieces,
    {
        let opponent = 1 - mover_color;
        let from = mv.from();
        let to = mv.to();
        let f = mv.flags();
        let ft: u64 = (1u64 << (from as u64)) | (1u64 << (to as u64));
        proof {
            assert(1u64 << (from as u64) == single(from as int));
            assert(1u64 << (to as u64) == single(to as int));
        }
        let mut ours = self.color_occupency[mover_color].0 ^ ft;
        let mut theirs = self.color_occupency[opponent].0;
        if f == FLAG_EP_CAPTURE {
            let captured_idx: u8 = if mover_color == 0 {
                to - 8
            } else {
                to + 8
            };
            proof {
                assert(1u64 << (captured_idx as u64) == single(captured_idx as int));
            }
            theirs = theirs ^ (1u64 << (captured_idx as u64));
        } else if f == FLAG_KING_CASTLE {
            let rook: u64 = if mover_color == 0 {
                (1u64 << 7u64) | (1u64 << 5u64)
            } else {
                (1u64 << 63u64) | (1u64 << 61u64)
            };
            proof {
                assert(1u64 << 7u64 == single(7));
                assert(1u64 << 5u64 == single(5));
                assert(1u64 << 63u64 == single(63));
                assert(1u64 << 61u64 == single(61));
            }
            ours = ours ^ rook;
        } else if f == FLAG_QUEEN_CASTLE {
            let rook: u64 = if mover_color == 0 {
                (1u64 << 0u64) | (1u64 << 3u64)
            } else {
                (1u64 << 56u64) | (1u64 << 59u64)
            };
            proof {
                assert(1u64 << 0u64 == single(0));
                assert(1u64 << 3u64 == single(3));
                assert(1u64 << 56u64 == single(56));
                assert(1u64 << 59u64 == single(59));
            }
            ours = ours ^ rook;
        } else if mv.captured_piece() <= 5 {
            theirs = theirs ^ (1u64 << (to as u64));
        }
        proof {
            crate::zobrist::lemma_xor_facts(self.color_occupency[mover_color as int].0, ft, 0, 0);
            assert(forall|r: u64| #![auto] (self.color_occupency[mover_color as int].0 ^ ft) ^ r
                == self.color_occupency[mover_color as int].0 ^ (ft ^ r)) by {
                assert forall|r: u64| #![auto] (self.color_occupency[mover_color as int].0 ^ ft) ^ r
                    == self.color_occupency[mover_color as int].0 ^ (ft ^ r) by {
                    crate::zobrist::lemma_xor_facts(self.color_occupency[mover_color as int].0, ft, r, 0);
                }
            }
        }
        proof {
            crate::zobrist::lemma_xor_facts(self.color_occupency[opponent as int].0, 0, 0, 0);
        }
        let mut occ = self.color_occupency;
        occ[mover_color] = BitBoard(ours);
        occ[opponent] = BitBoard(theirs);
        self.color_occupency = occ;
        self.total_occupency = BitBoard(occ[0].0 | occ[1].0);
    }

    /// Recomputes one attack slot.
    fn recompute_slot(&mut self, c: u8, k: usize)
        requires
            old(self).move_gen.wf(),
            old(self).occupancy_ok(),
            c < 2,
            k < 6,
        ensures
            slot_ok(*final(self), c as int, k as int),
            forall|c2: int, k2: int|
                0 <= c2 < 2 && 0 <= k2 < 6 && !(c2 == c && k2 == k) ==> #[trigger] final(self).attack_by_type[c2][k2]
                    == old(self).attack_by_type[c2][k2],
            final(self).pieces == old(self).pieces,
            final(self).color_occupency == old(self).color_occupency,
            final(self).total_occupency == old(self).total_occupency,
            final(self).player_turn == old(self).player_turn,
            final(self).castling_rights == old(self).castling_rights,
            final(self).en_passant_square == old(self).en_passant_square,
            final(self).halfmove_clock == old(self).halfmove_clock,
            final(self).fullmove_clock == old(self).fullmove_clock,
            final(self).zobrist_hash == old(self).zobrist_hash,
            final(self).promotion == old(self).promotion,
            final(self).move_gen == old(self).move_gen,
            final(self).history == old(self).history,
            final(self).attack_mask == old(self).attack_mask,
            final(self).kings == old(self).kings,
            final(self).pinned_pieces == old(self).pinned_pieces,
    {
        let a = self.compute_attack_for_type(c, k);
        let mut row = self.attack_by_type[c as usize];
        row[k] = a;
        self.attack_by_type[c as usize] = row;
    }

    /// Whether some piece of slot (`c`, `k`) shares a line with a square
    /// `mv` changes.
    fn slider_affected(&self, c: u8, k: usize, mv: Move, mover: u8) -> (r: bool)
        requires
            c < 2,
            k < 6,
            mover < 2,
            move_ok(mv, mover as int),
        ensures
            r == exists|s: int, x: int|
                bit(pb(self.pieces, c as int, k as int), s) && #[trigger] in_changed(mv, mover as int, x)
                    && #[trigger] shares(s, x),
    {
        let mut pieces_of_type = self.pieces[c as usize][k];
        let ghost orig = pieces_of_type.0;
        while pieces_of_type.0 != 0
            invariant
                c < 2,
                k < 6,
                mover < 2,
                move_ok(mv, mover as int),
                orig == pb(self.pieces, c as int, k as int),
                forall|s: int| #[trigger] bit(pieces_of_type.0, s) ==> bit(orig, s),
                forall|s: int, x: int|
                    bit(orig, s) && !bit(pieces_of_type.0, s) && #[trigger] in_changed(mv, mover as int, x)
                        ==> !#[trigger] shares(s, x),
            decreases pieces_of_type.0,
        {
            let ghost before = pieces_of_type.0;
            let sq = match pieces_of_type.pop_lsb() {
                Some(s) => s,
                None => 0,
            };
            proof {
                lemma_pop_smaller(before, sq as int);
            }
            if self.touches_changed(sq, mv, mover) {
                proof {
                    assert(bit(orig, sq as int));
                    let x = choose|x: int| #[trigger] in_changed(mv, mover as int, x) && shares(sq as int, x);
                    assert(bit(pb(self.pieces, c as int, k as int), sq as int) && in_changed(mv, mover as int, x)
                        && shares(sq as int, x));
                }
                return true;
            }
        }
        proof {
            lemma_bit_zero();
            assert forall|s: int, x: int|
                bit(pb(self.pieces, c as int, k as int), s) && #[trigger] in_changed(mv, mover as int, x)
                    implies !#[trigger] shares(s, x) by {
                assert(!bit(pieces_of_type.0, s));
            }
        }
        false
    }

    /// Whether `s` shares a line with a square `mv` changes.
    fn touches_changed(&self, s: u8, mv: Move, mover: u8) -> (r: bool)
        requires
            mover < 2,
            move_ok(mv, mover as int),
        ensures
            r == exists|x: int| #[trigger] in_changed(mv, mover as int, x) && shares(s as int, x),
    {
        let from = mv.from();
        let to = mv.to();
        let f = mv.flags();
        let (e1, e2, n): (u8, u8, u8) = if f == FLAG_EP_CAPTURE {
            let v: u8 = if mover == 0 {
                to - 8
            } else {
                to + 8
            };
            (v, v, 1)
        } else if f == FLAG_KING_CASTLE {
            if mover == 0 {
                (7, 5, 2)
            } else {
                (63, 61, 2)
            }
        } else if f == FLAG_QUEEN_CASTLE {
            if mover == 0 {
                (0, 3, 2)
            } else {
                (56, 59, 2)
            }
        } else {
            (0, 0, 0)
        };
        let a = self.shares_line(s, from);
        let b = self.shares_line(s, to);
        let c1 = n >= 1 && self.shares_line(s, e1);
        let c2 = n >= 2 && self.shares_line(s, e2);
        let r = a || b || c1 || c2;
        proof {
            lemma_bit_single(7);
            lemma_bit_single(5);
            lemma_bit_single(63);
            lemma_bit_single(61);
            lemma_bit_single(0);
            lemma_bit_single(3);
            lemma_bit_single(56);
            lemma_bit_single(59);
            lemma_bit_or(single(7), single(5));
            lemma_bit_or(single(63), single(61));
            lemma_bit_or(single(0), single(3));
            lemma_bit_or(single(56), single(59));
            assert(in_changed(mv, mover as int, from as int));
            assert(in_changed(mv, mover as int, to as int));
            if n >= 1 {
                assert(in_changed(mv, mover as int, e1 as int));
                assert(in_changed(mv, mover as int, e2 as int));
            }
            if !r {
                assert forall|x: int| #[trigger] in_changed(mv, mover as int, x) implies !shares(
                    s as int,
                    x,
                ) by {
                    if is_castle(mv.flag()) && bit(rook_toggle(mv.flag(), mover as int), x) {
                        assert(x == e1 || x == e2);
                    }
                }
            }
        }
        r
    }

    /// Brings the attack slots up to date after `mv`, played by
    /// `mover_color`, whose pieces are already moved: the slots whose
    /// bitboards the move changes are recomputed, and so is every slider
    /// slot with a piece on a line through a square whose occupancy
    /// changed; then the two combined masks are folded again.
    pub fn update_attack_mask_incremental(&mut self, mv: Move, mover_color: u8)
        requires
            old(self).move_gen.wf(),
            old(self).occupancy_ok(),
            mover_color < 2,
            move_ok(mv, mover_color as int),
            attacks_describe(*old(self), toggled(old(self).pieces, mv, mover_color as int)),
        ensures
            final(self).attacks_ok(),
            final(self).pieces == old(self).pieces,
            final(self).color_occupency == old(self).color_occupency,
            final(self).total_occupency == old(self).total_occupency,
            final(self).player_turn == old(self).player_turn,
            final(self).castling_rights == old(self).castling_rights,
            final(self).en_passant_square == old(self).en_passant_square,
            final(self).halfmove_clock == old(self).halfmove_clock,
            final(self).fullmove_clock == old(self).fullmove_clock,
            final(self).zobrist_hash == old(self).zobrist_hash,
            final(self).promotion == old(self).promotion,
            final(self).move_gen == old(self).move_gen,
            final(self).history == old(self).history,
            final(self).kings == old(self).kings,
            final(self).pinned_pieces == old(self).pinned_pieces,
    {
        let ghost mover = mover_color as int;
        let ghost prev = toggled(self.pieces, mv, mover);
        proof {
            lemma_toggled(self.pieces, mv, mover);
            lemma_toggled(prev, mv, mover);
            let back = toggled(prev, mv, mover);
            assert forall|c: int, k: int| 0 <= c < 2 && 0 <= k < 6 implies #[trigger] pb(back, c, k)
                == pb(self.pieces, c, k) by {
                crate::zobrist::lemma_xor_facts(pb(self.pieces, c, k), toggle_mask(mv, mover, c, k), 0, 0);
            }
            assert forall|c: int, k: int| 0 <= c < 2 && 0 <= k < 6 implies back[c][k] == self.pieces[c][k] by {
                assert(pb(back, c, k) == pb(self.pieces, c, k));
            }
            assert(back[0] =~= self.pieces[0]);
            assert(back[1] =~= self.pieces[1]);
            assert(back =~= self.pieces);
        }
        let f = mv.flags();
        let opponent: u8 = 1 - mover_color;
        let victim = mv.captured_piece();
        let kind = mv.piece();
        if f == FLAG_EP_CAPTURE {
            self.recompute_slot(mover_color, 0);
            self.recompute_slot(opponent, 0);
        } else if f == FLAG_KING_CASTLE || f == FLAG_QUEEN_CASTLE {
            self.recompute_slot(mover_color, 5);
            self.recompute_slot(mover_color, 3);
        } else if f == FLAG_PROMO_QUEEN || f == FLAG_PROMO_ROOK || f == FLAG_PROMO_BISHOP || f
            == FLAG_PROMO_KNIGHT {
            let pk: usize = if f == FLAG_PROMO_QUEEN {
                4
            } else if f == FLAG_PROMO_ROOK {
                3
            } else if f == FLAG_PROMO_BISHOP {
                2
            } else {
                1
            };
            self.recompute_slot(mover_color, 0);
            self.recompute_slot(mover_color, pk);
            if victim <= 5 {
                self.recompute_slot(opponent, victim as usize);
            }
        } else {
            if kind < 6 {
                self.recompute_slot(mover_color, kind as usize);
            }
            if victim <= 5 {
                self.recompute_slot(opponent, victim as usize);
            }
        }
        assert(forall|c: int, k: int|
            0 <= c < 2 && 0 <= k < 6 ==> slot_ok(*self, c, k) || (#[trigger] self.attack_by_type[c][k]
                == old(self).attack_by_type[c][k] && toggle_mask(mv, mover, c, k) == 0));
        let mut c: u8 = 0;
        while c < 2
            invariant
                c <= 2,
                mover == mover_color,
                mover_color < 2,
                move_ok(mv, mover),
                prev == toggled(self.pieces, mv, mover),
                self.pieces == toggled(prev, mv, mover),
                self.move_gen.wf(),
                self.occupancy_ok(),
                self.pieces == old(self).pieces,
                self.color_occupency == old(self).color_occupency,
                self.total_occupency == old(self).total_occupency,
                self.player_turn == old(self).player_turn,
                self.castling_rights == old(self).castling_rights,
                self.en_passant_square == old(self).en_passant_square,
                self.halfmove_clock == old(self).halfmove_clock,
                self.fullmove_clock == old(self).fullmove_clock,
                self.zobrist_hash == old(self).zobrist_hash,
                self.promotion == old(self).promotion,
                self.move_gen == old(self).move_gen,
                self.history == old(self).history,
                self.kings == old(self).kings,
                self.pinned_pieces == old(self).pinned_pieces,
                attacks_describe(*old(self), prev),
                forall|c2: int, k2: int|
                    0 <= c2 < 2 && 0 <= k2 < 6 ==> slot_ok(*self, c2, k2) || (
                    #[trigger] self.attack_by_type[c2][k2] == old(self).attack_by_type[c2][k2]
                        && toggle_mask(mv, mover, c2, k2) == 0),
                forall|c2: int, k2: int|
                    0 <= c2 < c && 2 <= k2 <= 4 ==> #[trigger] slot_ok(*self, c2, k2),
            decreases 2 - c,
        {
            let mut k: usize = 2;
            while k <= 4
                invariant
                    c < 2,
                    2 <= k <= 5,
                    mover == mover_color,
                    mover_color < 2,
                    move_ok(mv, mover),
                    prev == toggled(self.pieces, mv, mover),
                    self.pieces == toggled(prev, mv, mover),
                    self.move_gen.wf(),
                    self.occupancy_ok(),
                    self.pieces == old(self).pieces,
                    self.color_occupency == old(self).color_occupency,
                    self.total_occupency == old(self).total_occupency,
                    self.player_turn == old(self).player_turn,
                    self.castling_rights == old(self).castling_rights,
                    self.en_passant_square == old(self).en_passant_square,
                    self.halfmove_clock == old(self).halfmove_clock,
                    self.fullmove_clock == old(self).fullmove_clock,
                    self.zobrist_hash == old(self).zobrist_hash,
                    self.promotion == old(self).promotion,
                    self.move_gen == old(self).move_gen,
                    self.history == old(self).history,
                    self.kings == old(self).kings,
                    self.pinned_pieces == old(self).pinned_pieces,
                    attacks_describe(*old(self), prev),
                    forall|c2: int, k2: int|
                        0 <= c2 < 2 && 0 <= k2 < 6 ==> slot_ok(*self, c2, k2) || (
                        #[trigger] self.attack_by_type[c2][k2] == old(self).attack_by_type[c2][k2]
                            && toggle_mask(mv, mover, c2, k2) == 0),
                    forall|c2: int, k2: int|
                        (0 <= c2 < c && 2 <= k2 <= 4) || (c2 == c && 2 <= k2 < k) ==> #[trigger] slot_ok(
                            *self,
                            c2,
                            k2,
                        ),
                decreases 5 - k,
            {
                let ghost before = *self;
                if self.slider_affected(c, k, mv, mover_color) {
                    self.recompute_slot(c, k);
                    proof {
                        assert forall|c2: int, k2: int|
                            0 <= c2 < 2 && 0 <= k2 < 6 && !(c2 == c && k2 == k) && slot_ok(before, c2, k2)
                                implies #[trigger] slot_ok(*self, c2, k2) by {
                            lemma_slot_frame(before, *self, c2, k2);
                        }
                    }
                } else {
                    proof {
                        if !slot_ok(*self, c as int, k as int) {
                            assert(self.attack_by_type[c as int][k as int] == old(self).attack_by_type[c as int][k as int]);
                            assert(toggle_mask(mv, mover, c as int, k as int) == 0);
                            lemma_toggled(prev, mv, mover);
                            crate::zobrist::lemma_xor_facts(pb(prev, c as int, k as int), 0, 0, 0);
                            assert(pb(prev, c as int, k as int) == pb(self.pieces, c as int, k as int));
                            assert forall|t: int| #[trigger] bit(self.attack_by_type[c as int][k as int].0, t)
                                == type_attacks(self.pieces, c as int, k as int, all_occ(self.pieces), t) by {
                                lemma_slider_stable(prev, self.pieces, mv, mover, c as int, k as int, t);
                            }
                        }
                    }
                }
                k = k + 1;
            }
            c = c + 1;
        }
        proof {
            lemma_toggled(prev, mv, mover);
            assert forall|c2: int, k2: int| 0 <= c2 < 2 && 0 <= k2 < 6 implies #[trigger] slot_ok(
                *self,
                c2,
                k2,
            ) by {
                if !slot_ok(*self, c2, k2) {
                    assert(self.attack_by_type[c2][k2] == old(self).attack_by_type[c2][k2]);
                    crate::zobrist::lemma_xor_facts(pb(prev, c2, k2), 0, 0, 0);
                    assert(pb(prev, c2, k2) == pb(self.pieces, c2, k2));
                    assert forall|t: int| #[trigger] bit(self.attack_by_type[c2][k2].0, t) == type_attacks(
                        self.pieces,
                        c2,
                        k2,
                        all_occ(self.pieces),
                        t,
                    ) by {
                        lemma_stepper_stable(prev, self.pieces, c2, k2, t);
                    }
                }
            }
        }
        let w = self.attack_by_type[0];
        let b = self.attack_by_type[1];
        self.attack_mask = [
            BitBoard(w[0].0 | w[1].0 | w[2].0 | w[3].0 | w[4].0 | w[5].0),
            BitBoard(b[0].0 | b[1].0 | b[2].0 | b[3].0 | b[4].0 | b[5].0),
        ];
    }

    /// Brings every cache up to date after `mv`, played by `mover_color`,
    /// whose pieces are already moved and whose caches describe the
    /// position before it: occupancy and attacks incrementally, then the
    /// pins of the side to move and the kings.
    pub fn update(&mut self, mv: Move, mover_color: usize)
        requires
            old(self).move_gen.wf(),
            mover_color < 2,
            old(self).player_turn == 1 - mover_color,
            move_ok(mv, mover_color as int),
            disjoint(toggled(old(self).pieces, mv, mover_color as int)),
            clean_move(toggled(old(self).pieces, mv, mover_color as int), mv, mover_color as int),
            old(self).color_occupency[0].0 == side_occ(toggled(old(self).pieces, mv, mover_color as int), 0),
            old(self).color_occupency[1].0 == side_occ(toggled(old(self).pieces, mv, mover_color as int), 1),
            attacks_describe(*old(self), toggled(old(self).pieces, mv, mover_color as int)),
        ensures
            final(self).caches_ok(),
            final(self).pieces == old(self).pieces,
            final(self).player_turn == old(self).player_turn,
            final(self).castling_rights == old(self).castling_rights,
            final(self).en_passant_square == old(self).en_passant_square,
            final(self).halfmove_clock == old(self).halfmove_clock,
            final(self).fullmove_clock == old(self).fullmove_clock,
            final(self).zobrist_hash == old(self).zobrist_hash,
            final(self).promotion == old(self).promotion,
            final(self).move_gen == old(self).move_gen,
            final(self).history == old(self).history,
    {
        let ghost prev = toggled(self.pieces, mv, mover_color as int);
        proof {
            lemma_toggled_twice(self.pieces, mv, mover_color as int);
            lemma_incremental_occupancy(prev, mv, mover_color as int);
        }
        self.update_state_incremental(mv, mover_color);
        self.update_attack_mask_incremental(mv, mover_color as u8);
        self.pinned_pieces = self.compute_pinned_pieces((1 - mover_color) as u8);
        self.kings = [self.pieces[0][5], self.pieces[1][5]];
    }
}

/// Clearing a set bit makes a word smaller.
proof fn lemma_pop_smaller(x: u64, s: int)
    requires
        0 <= s < 64,
        bit(x, s),
    ensures
        (x ^ single(s)) < x,
{
    let t = s as u64;
    crate::bits::lemma_mask_test(x, s);
    assert(x & (1u64 << t) != 0 ==> (x ^ (1u64 << t)) < x) by (bit_vector)
        requires
            t < 64,
    ;
}

} // verus!
