//! A legal move keeps a position consistent: no square holds two pieces.
use vstd::prelude::*;
use crate::bits::{bit, single, lemma_bit_or, lemma_bit_xor, lemma_bit_single};
use crate::movegen::{Move, promo_kind, FLAG_EP_CAPTURE, FLAG_KING_CASTLE, FLAG_QUEEN_CASTLE,
    FLAG_DOUBLE_PUSH};
use crate::board::{Board, Pieces, pb, all_occ, side_occ};
use crate::board::moves::{make_post, toggle_mask, ep_victim, rook_toggle, is_castle};
use crate::board::validation::{is_legal, shape_ok, castle_ok, victim_ok};
use crate::board::incremental::{lemma_side_occ_bits, lemma_all_occ_bits};

verus! {

/// No square holds two pieces.
pub open spec fn exclusive(p: Pieces) -> bool {
    forall|s: int, c: int, k: int, c2: int, k2: int|
        0 <= c < 2 && 0 <= k < 6 && 0 <= c2 < 2 && 0 <= k2 < 6 && #[trigger] bit(pb(p, c, k), s)
            && #[trigger] bit(pb(p, c2, k2), s) ==> c == c2 && k == k2
}

/// No square holds two pieces, and the en passant square (if any) is
/// empty.
pub open spec fn consistent(b: Board) -> bool {
    &&& exclusive(b.pieces)
    &&& !bit(all_occ(b.pieces), b.en_passant_square as int)
}

/// The squares the move `m` of `mover` changes on board (`c`, `k`): the
/// bits of its toggle mask.
pub open spec fn flips(m: Move, mover: int, c: int, k: int, i: int) -> bool {
    let fr = m.src();
    let to = m.dst();
    let f = m.flag();
    let e = 1 - mover;
    if f == FLAG_EP_CAPTURE {
        (c == mover && k == 0 && (i == fr || i == to)) || (c == e && k == 0 && i == ep_victim(m, mover))
    } else if is_castle(f) {
        let rf = if f == FLAG_KING_CASTLE {
            if mover == 0 { 7int } else { 63int }
        } else {
            if mover == 0 { 0int } else { 56int }
        };
        let rt = if f == FLAG_KING_CASTLE {
            if mover == 0 { 5int } else { 61int }
        } else {
            if mover == 0 { 3int } else { 59int }
        };
        (c == mover && k == 5 && (i == fr || i == to)) || (c == mover && k == 3 && (i == rf || i == rt))
    } else if promo_kind(f) is Some {
        (c == mover && k == 0 && i == fr) || (c == mover && k == promo_kind(f)->0 && i == to) || (c == e && k
            == m.victim() && i == to)
    } else {
        (c == mover && k == m.kind() && (i == fr || i == to)) || (c == e && k == m.victim() && i == to)
    }
}

pub(crate) proof fn lemma_flips(m: Move, mover: int)
    requires
        0 <= mover < 2,
        m.flag() == FLAG_EP_CAPTURE ==> 0 <= ep_victim(m, mover) < 64,
    ensures
        forall|c: int, k: int, i: int|
            0 <= c < 2 ==> #[trigger] bit(toggle_mask(m, mover, c, k), i) == flips(m, mover, c, k, i),
{
    m.lemma_bounds();
    let fr = m.src();
    let to = m.dst();
    lemma_bit_single(fr);
    lemma_bit_single(to);
    lemma_bit_or(single(fr), single(to));
    lemma_bit_single(7);
    lemma_bit_single(5);
    lemma_bit_single(63);
    lemma_bit_single(61);
    lemma_bit_single(0);
    lemma_bit_single(3);
    lemma_bit_single(56);
    lemma_bit_single(59);
    lemma_bit_or(single(7), single(5));
    lemma_bit_or(single(63), single(61));
    lemma_bit_or(single(0), single(3));
    lemma_bit_or(single(56), single(59));
    crate::bits::lemma_bit_zero();
    if m.flag() == FLAG_EP_CAPTURE {
        lemma_bit_single(ep_victim(m, mover));
    }
}

/// Color `c` has exactly one king.
pub open spec fn one_king(p: Pieces, c: int) -> bool {
    exists|s: int| 0 <= s < 64 && #[trigger] king_on(p, c, s)
}

/// The king of color `c` stands on `s` and nowhere else.
pub open spec fn king_on(p: Pieces, c: int, s: int) -> bool {
    forall|i: int| #[trigger] bit(pb(p, c, 5), i) == (i == s)
}

/// A legal move that does not take a king leaves each side one king.
pub proof fn lemma_legal_move_keeps_kings(b0: Board, m: Move, b1: Board)
    requires
        b0.wf(),
        consistent(b0),
        one_king(b0.pieces, 0),
        one_king(b0.pieces, 1),
        is_legal(b0, m),
        m.victim() != 5,
        make_post(b0, m, b1),
    ensures
        one_king(b1.pieces, 0),
        one_king(b1.pieces, 1),
{
    reveal(is_legal);
    let p0 = b0.pieces;
    let p1 = b1.pieces;
    let c0 = b0.player_turn as int;
    m.lemma_bounds();
    crate::board::validation::lemma_legal_move_ok(b0, m);
    lemma_flips(m, c0);
    assert forall|c: int, k: int, i: int| 0 <= c < 2 && 0 <= k < 6 implies #[trigger] bit(pb(p1, c, k), i) == (
    bit(pb(p0, c, k), i) != flips(m, c0, c, k, i)) by {
        lemma_bit_xor(pb(p0, c, k), toggle_mask(m, c0, c, k));
    }
    lemma_side_occ_bits(p0, 0);
    lemma_side_occ_bits(p0, 1);
    lemma_all_occ_bits(p0);
    let e = 1 - c0;
    let se = choose|s: int| 0 <= s < 64 && #[trigger] king_on(p0, e, s);
    assert forall|i: int| #[trigger] bit(pb(p1, e, 5), i) == (i == se) by {
        assert(bit(pb(p1, e, 5), i) == (bit(pb(p0, e, 5), i) != flips(m, c0, e, 5, i)));
    }
    let sm = choose|s: int| 0 <= s < 64 && #[trigger] king_on(p0, c0, s);
    if m.kind() == 5 {
        let t = m.dst();
        assert forall|i: int| #[trigger] bit(pb(p1, c0, 5), i) == (i == t) by {
            assert(bit(pb(p1, c0, 5), i) == (bit(pb(p0, c0, 5), i) != flips(m, c0, c0, 5, i)));
            assert(bit(pb(p0, c0, 5), m.src()));
        }
        assert(king_on(p1, c0, t));
        assert(one_king(p1, c0));
    } else {
        assert forall|i: int| #[trigger] bit(pb(p1, c0, 5), i) == (i == sm) by {
            assert(bit(pb(p1, c0, 5), i) == (bit(pb(p0, c0, 5), i) != flips(m, c0, c0, 5, i)));
        }
        assert(king_on(p1, c0, sm));
        assert(one_king(p1, c0));
    }
    assert(king_on(p1, e, se));
    assert(one_king(p1, e));
}

/// A legal move keeps a consistent position consistent.
pub proof fn lemma_legal_move_keeps_consistency(b0: Board, m: Move, b1: Board)
    requires
        b0.wf(),
        consistent(b0),
        is_legal(b0, m),
        make_post(b0, m, b1),
    ensures
        consistent(b1),
{
    reveal(is_legal);
    let p0 = b0.pieces;
    let p1 = b1.pieces;
    let c0 = b0.player_turn as int;
    let fr = m.src();
    let to = m.dst();
    let f = m.flag();
    m.lemma_bounds();
    crate::board::validation::lemma_legal_move_ok(b0, m);
    assert(f == FLAG_EP_CAPTURE ==> 0 <= ep_victim(m, c0) < 64);
    lemma_flips(m, c0);
    assert forall|c: int, k: int, i: int| 0 <= c < 2 && 0 <= k < 6 implies #[trigger] bit(pb(p1, c, k), i) == (
    bit(pb(p0, c, k), i) != flips(m, c0, c, k, i)) by {
        lemma_bit_xor(pb(p0, c, k), toggle_mask(m, c0, c, k));
    }
    lemma_side_occ_bits(p0, 0);
    lemma_side_occ_bits(p0, 1);
    lemma_all_occ_bits(p0);
    lemma_side_occ_bits(p1, 0);
    lemma_side_occ_bits(p1, 1);
    lemma_all_occ_bits(p1);
    assert(exclusive(p1));
    assert(!bit(all_occ(p1), b1.en_passant_square as int));

}

} // verus!
