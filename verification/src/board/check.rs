//! Checks and pins against the king of one side.
use vstd::prelude::*;
use crate::bitboard::BitBoard;
use crate::bits::{bit, single, lemma_bit_and, lemma_bit_or, lemma_bit_not, lemma_bit_single,
    lemma_bit_zero, lemma_zero_iff_no_bit, lemma_clear_lowest, lemma_nonzero_has_bit, lemma_bit_xor};
use crate::geometry::{between, rook_line, bishop_line, rook_attack, bishop_attack, queen_attack,
    knight_rel, pawn_attack_rel, lemma_attacks_symmetric};
use crate::movegen::ray_between;
use crate::types::PieceKind;
use crate::board::{Board, Pieces, pb, side_occ, all_occ, attacked_by, square_attacked};

verus! {

/// A friendly piece on `s` is the only piece between the king of color
/// `c` on `k` and an enemy slider on `pn` that moves along their line;
/// `v` is the line from the king to the slider, the slider included.
pub open spec fn pin_line(p: Pieces, c: int, k: int, s: int, pn: int, v: u64) -> bool {
    let e = 1 - c;
    &&& bit(pb(p, c, 5), k)
    &&& {
        ||| (bit(pb(p, e, 3), pn) || bit(pb(p, e, 4), pn)) && rook_line(k, pn)
        ||| (bit(pb(p, e, 2), pn) || bit(pb(p, e, 4), pn)) && bishop_line(k, pn)
    }
    &&& between(k, pn, s)
    &&& bit(side_occ(p, c), s)
    &&& forall|x: int| #[trigger] between(k, pn, x) && x != s ==> !bit(all_occ(p), x)
    &&& forall|x: int| #[trigger] bit(v, x) == (between(k, pn, x) || x == pn)
}

/// A friendly piece on `s` is the only piece between the king of color
/// `c` on `k` and an enemy slider on `pn` that moves along their line.
pub open spec fn pinned_by(p: Pieces, c: int, k: int, s: int, pn: int) -> bool {
    let e = 1 - c;
    &&& bit(pb(p, c, 5), k)
    &&& {
        ||| (bit(pb(p, e, 3), pn) || bit(pb(p, e, 4), pn)) && rook_line(k, pn)
        ||| (bit(pb(p, e, 2), pn) || bit(pb(p, e, 4), pn)) && bishop_line(k, pn)
    }
    &&& between(k, pn, s)
    &&& bit(side_occ(p, c), s)
    &&& forall|x: int| #[trigger] between(k, pn, x) && x != s ==> !bit(all_occ(p), x)
}

/// Every piece pinned to the king of color `c` (its lowest square, when
/// there is one) has an entry.
pub open spec fn pins_complete(p: Pieces, c: int, pinned: [Option<BitBoard>; 64]) -> bool {
    pb(p, c, 5) != 0 ==> forall|s: int, pn: int|
        #[trigger] pinned_by(p, c, pb(p, c, 5).trailing_zeros() as int, s, pn) ==> 0 <= s < 64
            && pinned[s] is Some
}

/// Every recorded pin is a real pin.
pub open spec fn pins_sound(p: Pieces, c: int, pinned: [Option<BitBoard>; 64]) -> bool {
    forall|s: int|
        0 <= s < 64 && #[trigger] pinned[s] is Some ==> exists|k: int, pn: int|
            #[trigger] pin_line(p, c, k, s, pn, (pinned[s]->0).0)
}

/// A piece of color `1 - c` other than the king gives check to the king of
/// color `c` on `k`.
pub open spec fn checker(p: Pieces, c: int, k: int, a: int) -> bool {
    let e = 1 - c;
    let occ = all_occ(p);
    ||| bit(pb(p, e, 1), a) && knight_rel(a, k)
    ||| bit(pb(p, e, 0), a) && pawn_attack_rel(e, a, k)
    ||| (bit(pb(p, e, 3), a) || bit(pb(p, e, 4), a)) && rook_attack(a, k, occ)
    ||| (bit(pb(p, e, 2), a) || bit(pb(p, e, 4), a)) && bishop_attack(a, k, occ)
}

/// Kind of the checking piece on `a`: the queen when one stands there,
/// otherwise the kind the attack came from.
pub open spec fn checker_kind(p: Pieces, c: int, k: int, a: int) -> int {
    let e = 1 - c;
    let occ = all_occ(p);
    if bit(pb(p, e, 1), a) && knight_rel(a, k) {
        if bit(pb(p, e, 4), a) { 4 } else { 1 }
    } else if bit(pb(p, e, 0), a) && pawn_attack_rel(e, a, k) {
        if bit(pb(p, e, 4), a) { 4 } else { 0 }
    } else if (bit(pb(p, e, 3), a) || bit(pb(p, e, 4), a)) && rook_attack(a, k, occ) {
        if bit(pb(p, e, 4), a) { 4 } else { 3 }
    } else {
        if bit(pb(p, e, 4), a) { 4 } else { 2 }
    }
}

#[derive(Debug, Clone, Copy)]
pub struct CheckInfo {
    pub is_check: bool,
    pub check_square: [u8; 2],
    pub piece_idx: [u8; 2],
    pub count: u8,
}

impl CheckInfo {
    fn new() -> (r: CheckInfo)
        ensures
            !r.is_check,
            r.count == 0,
            r.check_square[0] == 64 && r.check_square[1] == 64,
            r.piece_idx[0] == 6 && r.piece_idx[1] == 6,
    {
        CheckInfo { is_check: false, check_square: [64; 2], piece_idx: [6; 2], count: 0 }
    }
}

/// What `check_for_check` reports about the king of color `c`.
pub open spec fn check_info_ok(p: Pieces, c: int, info: CheckInfo) -> bool {
    let kb = pb(p, c, 5);
    &&& info.count <= 2
    &&& kb == 0 ==> !info.is_check && info.count == 0
    &&& kb != 0 ==> {
        let k = kb.trailing_zeros() as int;
        &&& info.is_check == attacked_by(p, 1 - c, k, all_occ(p))
        &&& forall|i: int|
            0 <= i < info.count ==> {
                &&& #[trigger] info.check_square[i] < 64
                &&& checker(p, c, k, info.check_square[i] as int)
                &&& info.piece_idx[i] as int == checker_kind(p, c, k, info.check_square[i] as int)
            }
        &&& info.count == 0 ==> forall|a: int| !#[trigger] checker(p, c, k, a)
        &&& info.count == 1 ==> forall|a: int| #[trigger] checker(p, c, k, a) ==> a == info.check_square[0]
        &&& info.count == 2 ==> info.check_square[0] != info.check_square[1]
    }
    &&& !info.is_check ==> info.count == 0
    &&& forall|i: int| info.count <= i < 2 ==> #[trigger] info.check_square[i] == 64 && info.piece_idx[i] == 6
}

/// Square `a` is in one of the first `n` checker categories.
pub open spec fn seen(cats: [u64; 4], n: int, a: int) -> bool {
    ||| n > 0 && bit(cats[0], a)
    ||| n > 1 && bit(cats[1], a)
    ||| n > 2 && bit(cats[2], a)
    ||| n > 3 && bit(cats[3], a)
}

/// Squares a slider of kind `k` (bishop, rook, else queen) on `a` attacks
/// over the occupancy `occ`.
pub open spec fn slider_attack(k: int, a: int, t: int, occ: u64) -> bool {
    if k == 2 {
        bishop_attack(a, t, occ)
    } else if k == 3 {
        rook_attack(a, t, occ)
    } else {
        queen_attack(a, t, occ)
    }
}

/// A slider of kind `k` on `a` no longer reaches the king of color `c`
/// once a piece stands on `to`: on a board holding only `to`, its attacks
/// miss every square of that king.
pub open spec fn blocks_slider(p: Pieces, c: int, k: int, a: int, to: int) -> bool {
    forall|t: int| bit(pb(p, c, 5), t) ==> !#[trigger] slider_attack(k, a, t, single(to))
}

/// The checker `info` reports must be looked at: a single check (or any
/// check answered by the king), not captured on `to`.
pub open spec fn needs_checker(info: CheckInfo, to: int, king_moves: bool) -> bool {
    &&& !(info.count >= 2 && !king_moves)
    &&& info.check_square[0] != to
    &&& info.count != 0
}

/// Whether a move of a piece (the king when `king_moves`) to `to` answers
/// the check `info` describes for the side `c`: with two checkers only the
/// king may move; taking the first checker answers; a bishop, rook or queen
/// is answered when the square blocks its line to the king; a knight or pawn
/// only by a king move.
pub open spec fn answers_check(p: Pieces, c: int, to: int, info: CheckInfo, king_moves: bool) -> bool {
    if info.count >= 2 && !king_moves {
        false
    } else if info.check_square[0] == to {
        true
    } else if info.count == 0 {
        false
    } else {
        let k = info.piece_idx[0] as int;
        if 2 <= k <= 4 {
            blocks_slider(p, c, k, info.check_square[0] as int, to)
        } else {
            king_moves
        }
    }
}

impl Board {
    /// Pinned pieces of `color`: entry `s` holds the line from the king to
    /// the pinning slider when the piece on `s` is pinned.
    pub fn compute_pinned_pieces(&self, color: u8) -> (r: [Option<BitBoard>; 64])
        requires
            self.move_gen.wf(),
            self.occupancy_ok(),
            color < 2,
        ensures
            pins_sound(self.pieces, color as int, r),
            pins_complete(self.pieces, color as int, r),
    {
        let mut pinned: [Option<BitBoard>; 64] = [None; 64];
        let player = color as usize;
        let enemy = (1 - color) as usize;
        let king_board = self.pieces[player][5].0;
        if king_board == 0 {
            return pinned;
        }
        let king_idx = king_board.trailing_zeros() as usize;
        proof {
            lemma_nonzero_has_bit(king_board);
        }
        let queen_board = self.pieces[enemy][4].0;
        let friendly = self.color_occupency[player].0;
        let occ_without_friendly = self.total_occupency.0 & !friendly;
        let ra = self.move_gen.get_rook_attacks(king_idx, occ_without_friendly);
        let ba = self.move_gen.get_bishop_attacks(king_idx, occ_without_friendly);
        let rook_pinners = ra & (self.pieces[enemy][3].0 | queen_board);
        let bishop_pinners = ba & (self.pieces[enemy][2].0 | queen_board);
        let ghost p = self.pieces;
        let ghost c = color as int;
        let ghost k = king_idx as int;
        proof {
            lemma_bit_and(ra, self.pieces[enemy as int][3].0 | queen_board);
            lemma_bit_and(ba, self.pieces[enemy as int][2].0 | queen_board);
            lemma_bit_or(self.pieces[enemy as int][3].0, queen_board);
            lemma_bit_or(self.pieces[enemy as int][2].0, queen_board);
            lemma_bit_and(self.total_occupency.0, !friendly);
            lemma_bit_not(friendly);
            lemma_bit_or(side_occ(p, 0), side_occ(p, 1));
            assert(c == 0 || c == 1);
        }
        let mut round: u8 = 0;
        while round < 2
            invariant
                round <= 2,
                self.move_gen.wf(),
                self.occupancy_ok(),
                color < 2,
                player == color,
                enemy == 1 - color,
                c == color,
                p == self.pieces,
                king_idx < 64,
                k == king_idx,
                bit(pb(p, c, 5), k),
                friendly == side_occ(p, c),
                forall|x: int| #[trigger] bit(occ_without_friendly, x) == (bit(all_occ(p), x) && !bit(friendly, x)),
                forall|x: int| #[trigger] bit(rook_pinners, x) ==> (bit(pb(p, 1 - c, 3), x) || bit(pb(p, 1 - c, 4), x)) && rook_attack(k, x, occ_without_friendly),
                forall|x: int| #[trigger] bit(bishop_pinners, x) ==> (bit(pb(p, 1 - c, 2), x) || bit(pb(p, 1 - c, 4), x)) && bishop_attack(k, x, occ_without_friendly),
                forall|x: int| #[trigger] bit(rook_pinners, x) == ((bit(pb(p, 1 - c, 3), x) || bit(pb(p, 1 - c, 4), x)) && rook_attack(k, x, occ_without_friendly)),
                forall|x: int| #[trigger] bit(bishop_pinners, x) == ((bit(pb(p, 1 - c, 2), x) || bit(pb(p, 1 - c, 4), x)) && bishop_attack(k, x, occ_without_friendly)),
                pins_sound(p, c, pinned),
                forall|s: int, pn: int| #[trigger] pinned_by(p, c, k, s, pn) && ((round >= 1 && bit(rook_pinners, pn))
                    || (round >= 2 && bit(bishop_pinners, pn))) ==> pinned[s] is Some,
            decreases 2 - round,
        {
            let mut pinners = if round == 0 { rook_pinners } else { bishop_pinners };
            let ghost whole = pinners;
            while pinners != 0
                invariant
                    round < 2,
                    self.move_gen.wf(),
                    self.occupancy_ok(),
                    color < 2,
                    player == color,
                    c == color,
                    p == self.pieces,
                    king_idx < 64,
                    k == king_idx,
                    bit(pb(p, c, 5), k),
                    friendly == side_occ(p, c),
                    forall|x: int| #[trigger] bit(occ_without_friendly, x) == (bit(all_occ(p), x) && !bit(friendly, x)),
                    forall|x: int| #[trigger] bit(pinners, x) ==> {
                        ||| (bit(pb(p, 1 - c, 3), x) || bit(pb(p, 1 - c, 4), x)) && rook_attack(k, x, occ_without_friendly)
                        ||| (bit(pb(p, 1 - c, 2), x) || bit(pb(p, 1 - c, 4), x)) && bishop_attack(k, x, occ_without_friendly)
                    },
                    pins_sound(p, c, pinned),
                    whole == (if round == 0 { rook_pinners } else { bishop_pinners }),
                    forall|x: int| #[trigger] bit(pinners, x) ==> bit(whole, x),
                    forall|x: int| #[trigger] bit(rook_pinners, x) == ((bit(pb(p, 1 - c, 3), x) || bit(pb(p, 1 - c, 4), x)) && rook_attack(k, x, occ_without_friendly)),
                    forall|x: int| #[trigger] bit(bishop_pinners, x) == ((bit(pb(p, 1 - c, 2), x) || bit(pb(p, 1 - c, 4), x)) && bishop_attack(k, x, occ_without_friendly)),
                    forall|s: int, pn: int| #[trigger] pinned_by(p, c, k, s, pn) && ((round >= 1 && bit(rook_pinners, pn))
                        || (bit(whole, pn) && !bit(pinners, pn))) ==> pinned[s] is Some,
                decreases pinners,
            {
                let ghost old_pinners = pinners;
                let ghost old_pinned = pinned;
                let pinner_sq = pinners.trailing_zeros() as usize;
                proof {
                    lemma_nonzero_has_bit(pinners);
                    lemma_clear_lowest(pinners);
                    lemma_bit_xor(pinners, single(pinner_sq as int));
                    lemma_bit_single(pinner_sq as int);
                    assert(pinners & ((pinners - 1) as u64) < pinners) by (bit_vector)
                        requires
                            pinners != 0,
                    ;
                }
                pinners = pinners & (pinners - 1);
                let betw = ray_between(king_idx, pinner_sq);
                let blockers = betw & friendly;
                proof {
                    lemma_bit_and(betw, friendly);
                    assert forall|s2: int| #[trigger] pinned_by(p, c, k, s2, pinner_sq as int) implies blockers
                        == single(s2) && blockers != 0 && blockers & ((blockers - 1) as u64) == 0 by {
                        lemma_bit_single(s2);
                        lemma_bit_or(side_occ(p, 0), side_occ(p, 1));
                        assert forall|x: int| 0 <= x < 64 implies #[trigger] bit(blockers, x) == bit(single(s2), x) by {
                            if x != s2 && between(k, pinner_sq as int, x) {
                                assert(!bit(all_occ(p), x));
                            }
                        }
                        crate::bits::lemma_bits_ext(blockers, single(s2));
                        let t = s2 as u64;
                        assert((1u64 << t) != 0 && (1u64 << t) & (((1u64 << t) - 1) as u64) == 0) by (bit_vector)
                            requires
                                t < 64,
                        ;
                    }
                }
                if blockers != 0 && blockers & (blockers - 1) == 0 {
                    let pinned_sq = blockers.trailing_zeros() as usize;
                    let v: u64 = betw | (1u64 << (pinner_sq as u64));
                    proof {
                        lemma_nonzero_has_bit(blockers);
                        lemma_clear_lowest(blockers);
                        lemma_bit_single(pinned_sq as int);
                        crate::zobrist::lemma_xor_facts(blockers, single(pinned_sq as int), 0, 0);
                        assert(blockers == single(pinned_sq as int)) by {
                            crate::zobrist::lemma_xor_facts(single(pinned_sq as int), 0, 0, 0);
                            assert(blockers ^ single(pinned_sq as int) == 0);
                        }
                        assert(1u64 << (pinner_sq as u64) == single(pinner_sq as int));
                        lemma_bit_or(betw, single(pinner_sq as int));
                        let s = pinned_sq as int;
                        let pn = pinner_sq as int;
                        assert forall|x: int| #[trigger] between(k, pn, x) && x != s implies !bit(all_occ(p), x) by {
                            assert(!bit(occ_without_friendly, x));
                            assert(!bit(blockers, x));
                        }
                        assert(pin_line(p, c, k, s, pn, v));
                    }
                    proof {
                        assert forall|s2: int| #[trigger] pinned_by(p, c, k, s2, pinner_sq as int) implies s2
                            == pinned_sq by {
                            lemma_bit_single(s2);
                            assert(bit(blockers, pinned_sq as int));
                        }
                    }
                    pinned[pinned_sq] = Some(BitBoard(v));
                    proof {
                        assert forall|i: int| 0 <= i < 64 && old_pinned[i] is Some implies #[trigger] pinned[i] is Some by {
                            if i != pinned_sq {
                                assert(pinned[i] == old_pinned[i]);
                            }
                        }
                        assert forall|s2: int| #[trigger] pinned_by(p, c, k, s2, pinner_sq as int) implies pinned[s2]
                            is Some by {
                            assert(s2 == pinned_sq);
                        }
                    }
                    proof {
                        assert forall|s: int|
                            0 <= s < 64 && #[trigger] pinned[s] is Some implies exists|k2: int, pn: int|
                                #[trigger] pin_line(p, c, k2, s, pn, (pinned[s]->0).0) by {
                            if s == pinned_sq {
                                assert(pin_line(p, c, k, s, pinner_sq as int, (pinned[s]->0).0));
                            }
                        }
                    }
                }
                proof {
                    assert forall|s2: int, pn2: int| #[trigger] pinned_by(p, c, k, s2, pn2) && ((round >= 1 && bit(
                        rook_pinners,
                        pn2,
                    )) || (bit(whole, pn2) && !bit(pinners, pn2))) implies pinned[s2] is Some by {
                        if pn2 != pinner_sq as int {
                            assert(!bit(old_pinners, pn2) || !bit(whole, pn2) || (round >= 1 && bit(rook_pinners, pn2)));
                            assert(old_pinned[s2] is Some);
                        }
                    }
                }
            }
            proof {
                lemma_bit_zero();
                assert forall|s2: int, pn2: int| #[trigger] pinned_by(p, c, k, s2, pn2) && ((round + 1 >= 1 && bit(
                    rook_pinners,
                    pn2,
                )) || (round + 1 >= 2 && bit(bishop_pinners, pn2))) implies pinned[s2] is Some by {
                    assert(!bit(pinners, pn2));
                }
            }
            round = round + 1;
        }
        pinned
    }

    /// The pin cache holds exactly the real pins: each entry is a pin, and
    /// each pinned piece has an entry.
    pub open spec fn pinned_ok(&self, color: u8) -> bool {
        &&& pins_sound(self.pieces, color as int, self.pinned_pieces)
        &&& pins_complete(self.pieces, color as int, self.pinned_pieces)
    }

    /// Whether the side to move is in check, and which pieces (at most two)
    /// give it.
    pub fn check_for_check(&self) -> (info: CheckInfo)
        requires
            self.move_gen.wf(),
            self.occupancy_ok(),
            self.player_turn < 2,
        ensures
            check_info_ok(self.pieces, self.player_turn as int, info),
    {
        let mut info = CheckInfo::new();
        let player = self.player_turn as usize;
        let enemy = (1 - self.player_turn) as usize;
        let king_board = self.pieces[player][5].0;
        let ghost p = self.pieces;
        let ghost c = self.player_turn as int;
        if king_board == 0 {
            return info;
        }
        let king_idx = king_board.trailing_zeros() as usize;
        proof {
            lemma_nonzero_has_bit(king_board);
            lemma_bit_or(side_occ(p, 0), side_occ(p, 1));
        }
        let occ = self.total_occupency.0;
        if !square_attacked(&self.move_gen, &self.pieces, occ, enemy as u8, king_idx) {
            proof {
                assert forall|a: int| !#[trigger] checker(p, c, king_idx as int, a) by {
                    if checker(p, c, king_idx as int, a) {
                        assert(crate::board::attacker(p, 1 - c, king_idx as int, occ, a));
                    }
                }
            }
            return info;
        }
        info.is_check = true;
        let queen_board = self.pieces[enemy][4].0;
        let na = self.move_gen.knight_attacks(king_idx);
        let pa = self.move_gen.pawn_attacks(self.player_turn, king_idx);
        let ra = self.move_gen.get_rook_attacks(king_idx, occ);
        let ba = self.move_gen.get_bishop_attacks(king_idx, occ);
        let cats: [u64; 4] = [
            na & self.pieces[enemy][1].0,
            pa & self.pieces[enemy][0].0,
            ra & (self.pieces[enemy][3].0 | queen_board),
            ba & (self.pieces[enemy][2].0 | queen_board),
        ];
        let ghost k = king_idx as int;
        proof {
            lemma_bit_and(na, self.pieces[enemy as int][1].0);
            lemma_bit_and(pa, self.pieces[enemy as int][0].0);
            lemma_bit_and(ra, self.pieces[enemy as int][3].0 | queen_board);
            lemma_bit_and(ba, self.pieces[enemy as int][2].0 | queen_board);
            lemma_bit_or(self.pieces[enemy as int][3].0, queen_board);
            lemma_bit_or(self.pieces[enemy as int][2].0, queen_board);
            assert forall|a: int| #[trigger] checker(p, c, k, a) == (bit(cats[0], a) || bit(cats[1], a) || bit(cats[2], a) || bit(cats[3], a)) by {
                lemma_attacks_symmetric(k, a, occ);
            }
            assert forall|a: int| #[trigger] bit(cats[0], a) == (bit(pb(p, 1 - c, 1), a) && knight_rel(a, k)) by {
                lemma_attacks_symmetric(k, a, occ);
            }
            assert forall|a: int| #[trigger] bit(cats[1], a) == (bit(pb(p, 1 - c, 0), a) && pawn_attack_rel(1 - c, a, k)) by {
                lemma_attacks_symmetric(k, a, occ);
            }
            assert forall|a: int| #[trigger] bit(cats[2], a) == ((bit(pb(p, 1 - c, 3), a) || bit(pb(p, 1 - c, 4), a)) && rook_attack(a, k, occ)) by {
                lemma_attacks_symmetric(k, a, occ);
            }
            assert forall|a: int| #[trigger] bit(cats[3], a) == ((bit(pb(p, 1 - c, 2), a) || bit(pb(p, 1 - c, 4), a)) && bishop_attack(a, k, occ)) by {
                lemma_attacks_symmetric(k, a, occ);
            }
        }
        let mut cat: usize = 0;
        let mut count: u8 = 0;
        while cat < 4 && count < 2
            invariant
                cat <= 4,
                count <= 2,
                info.is_check,
                info.count == 0,
                king_idx < 64,
                k == king_idx,
                c == self.player_turn,
                p == self.pieces,
                enemy == 1 - c,
                occ == all_occ(p),
                queen_board == pb(p, 1 - c, 4),
                forall|a: int| #[trigger] checker(p, c, k, a) == (bit(cats[0], a) || bit(cats[1], a) || bit(cats[2], a) || bit(cats[3], a)),
                forall|a: int| #[trigger] bit(cats[0], a) == (bit(pb(p, 1 - c, 1), a) && knight_rel(a, k)),
                forall|a: int| #[trigger] bit(cats[1], a) == (bit(pb(p, 1 - c, 0), a) && pawn_attack_rel(1 - c, a, k)),
                forall|a: int| #[trigger] bit(cats[2], a) == ((bit(pb(p, 1 - c, 3), a) || bit(pb(p, 1 - c, 4), a)) && rook_attack(a, k, occ)),
                forall|a: int| #[trigger] bit(cats[3], a) == ((bit(pb(p, 1 - c, 2), a) || bit(pb(p, 1 - c, 4), a)) && bishop_attack(a, k, occ)),
                forall|i: int| 0 <= i < count ==> {
                    &&& #[trigger] info.check_square[i] < 64
                    &&& checker(p, c, k, info.check_square[i] as int)
                    &&& info.piece_idx[i] as int == checker_kind(p, c, k, info.check_square[i] as int)
                },
                count < 2 ==> forall|a: int| #[trigger] checker(p, c, k, a) && seen(cats, cat as int, a) ==> count >= 1 && a == info.check_square[0],
                count == 2 ==> info.check_square[0] != info.check_square[1],
                forall|i: int| count <= i < 2 ==> #[trigger] info.check_square[i] == 64 && info.piece_idx[i] == 6,
                count == 0 ==> forall|a: int| #[trigger] checker(p, c, k, a) ==> !seen(cats, cat as int, a),
            decreases 4 - cat,
        {
            let mut m = cats[cat];
            let ghost whole = cats[cat as int];
            while m != 0 && count < 2
                invariant
                    cat < 4,
                    count <= 2,
                    whole == cats[cat as int],
                    forall|a: int| #[trigger] bit(m, a) ==> bit(whole, a),
                    king_idx < 64,
                    k == king_idx,
                    p == self.pieces,
                    c == self.player_turn,
                    enemy == 1 - c,
                    occ == all_occ(p),
                    queen_board == pb(p, 1 - c, 4),
                    forall|a: int| #[trigger] checker(p, c, k, a) == (bit(cats[0], a) || bit(cats[1], a) || bit(cats[2], a) || bit(cats[3], a)),
                    forall|a: int| #[trigger] bit(cats[0], a) == (bit(pb(p, 1 - c, 1), a) && knight_rel(a, k)),
                    forall|a: int| #[trigger] bit(cats[1], a) == (bit(pb(p, 1 - c, 0), a) && pawn_attack_rel(1 - c, a, k)),
                    forall|a: int| #[trigger] bit(cats[2], a) == ((bit(pb(p, 1 - c, 3), a) || bit(pb(p, 1 - c, 4), a)) && rook_attack(a, k, occ)),
                    forall|a: int| #[trigger] bit(cats[3], a) == ((bit(pb(p, 1 - c, 2), a) || bit(pb(p, 1 - c, 4), a)) && bishop_attack(a, k, occ)),
                        forall|i: int| 0 <= i < count ==> {
                        &&& #[trigger] info.check_square[i] < 64
                        &&& checker(p, c, k, info.check_square[i] as int)
                        &&& info.piece_idx[i] as int == checker_kind(p, c, k, info.check_square[i] as int)
                    },
                    count < 2 ==> forall|a: int| #[trigger] checker(p, c, k, a) && (seen(cats, cat as int, a) || (bit(whole, a) && !bit(m, a))) ==> count >= 1 && a == info.check_square[0],
                    count == 2 ==> info.check_square[0] != info.check_square[1],
                    forall|i: int| count <= i < 2 ==> #[trigger] info.check_square[i] == 64 && info.piece_idx[i] == 6,
                    count == 0 ==> forall|a: int| #[trigger] checker(p, c, k, a) ==> !seen(cats, cat as int, a) && (bit(whole, a) ==> bit(m, a)),
                    info.is_check,
                    info.count == 0,
                decreases m,
            {
                let sq = m.trailing_zeros() as usize;
                proof {
                    lemma_nonzero_has_bit(m);
                    lemma_clear_lowest(m);
                    lemma_bit_xor(m, single(sq as int));
                    lemma_bit_single(sq as int);
                    assert(m & ((m - 1) as u64) < m) by (bit_vector)
                        requires
                            m != 0,
                    ;
                }
                m = m & (m - 1);
                let bsq: u64 = 1u64 << (sq as u64);
                let kind: u8 = if (queen_board & bsq) != 0 {
                    4
                } else if cats[0] & bsq != 0 {
                    1
                } else if cats[1] & bsq != 0 {
                    0
                } else if cats[2] & bsq != 0 {
                    3
                } else {
                    2
                };
                proof {
                    assert(bsq == single(sq as int));
                    crate::bits::lemma_mask_test(queen_board, sq as int);
                    crate::bits::lemma_mask_test(cats[0], sq as int);
                    crate::bits::lemma_mask_test(cats[1], sq as int);
                    crate::bits::lemma_mask_test(cats[2], sq as int);
                    assert(checker(p, c, k, sq as int));
                    assert(kind as int == checker_kind(p, c, k, sq as int)) by {
                        lemma_attacks_symmetric(k, sq as int, occ);
                    }
                }
                if !(count == 1 && info.check_square[0] as usize == sq) {
                    assert(count == 0 ==> info.check_square[1] == 64 && info.piece_idx[1] == 6);
                    let ghost before = info;
                    info.check_square[count as usize] = sq as u8;
                    info.piece_idx[count as usize] = kind;
                    proof {
                        if count == 0 {
                            assert(before.check_square[1] == 64 && before.piece_idx[1] == 6);
                            assert(info.check_square[1] == before.check_square[1]);
                            assert(info.piece_idx[1] == before.piece_idx[1]);
                        }
                    }
                    count = count + 1;
                }
            }
            proof {
                assert forall|a: int| #[trigger] seen(cats, cat + 1, a) == (seen(cats, cat as int, a) || bit(whole, a)) by {
                    if cat == 0 {} else if cat == 1 {} else if cat == 2 {} else {}
                }
                lemma_bit_zero();
                if count < 2 {
                    assert(m == 0);
                }
            }
            cat = cat + 1;
        }
        assert(count <= 1 ==> info.check_square[1] == 64 && info.piece_idx[1] == 6);
        assert(count == 0 ==> info.check_square[0] == 64 && info.piece_idx[0] == 6);
        info.count = count;
        info
    }

    /// Whether moving a piece of kind `piece_type` to `to` answers the
    /// check `check_info` describes for the side to move (see
    /// `answers_check`).
    pub fn validate_move_with_check(&self, to: u8, check_info: &CheckInfo, piece_type: PieceKind) -> (r: bool)
        requires
            self.player_turn < 2,
            needs_checker(*check_info, to as int, piece_type == PieceKind::King) ==> {
                &&& check_info.piece_idx[0] < 5
                &&& check_info.check_square[0] < 64
                &&& 2 <= check_info.piece_idx[0] <= 4 ==> to < 64
            },
        ensures
            r == answers_check(
                self.pieces,
                self.player_turn as int,
                to as int,
                *check_info,
                piece_type == PieceKind::King,
            ),
    {
        let is_king = match piece_type {
            PieceKind::King => true,
            _ => false,
        };
        if check_info.count >= 2 && !is_king {
            return false;
        }
        if check_info.check_square[0] == to {
            return true;
        }
        if check_info.count == 0 {
            return false;
        }
        let k = check_info.piece_idx[0];
        if k < 2 {
            return is_king;
        }
        let a = check_info.check_square[0] as usize;
        let occupied = 1u64 << to;
        let attack_map = if k == 2 {
            self.move_gen.get_bishop_attacks(a, occupied)
        } else if k == 3 {
            self.move_gen.get_rook_attacks(a, occupied)
        } else {
            self.move_gen.get_queen_attacks(a, occupied)
        };
        let king = self.pieces[self.player_turn as usize][5].0;
        proof {
            lemma_bit_and(attack_map, king);
            lemma_zero_iff_no_bit(attack_map & king);
            assert(occupied == single(to as int));
            assert(forall|t: int| #[trigger] bit(attack_map, t) == slider_attack(k as int, a as int, t, occupied));
            if attack_map & king == 0 {
                assert forall|t: int| bit(king, t) implies !#[trigger] slider_attack(k as int, a as int, t, single(to as int)) by {
                    assert(!bit(attack_map & king, t));
                }
            } else {
                let t = choose|t: int| 0 <= t < 64 && #[trigger] bit(attack_map & king, t);
                assert(bit(king, t) && slider_attack(k as int, a as int, t, single(to as int)));
            }
        }
        attack_map & king == 0
    }
}

} // verus!
