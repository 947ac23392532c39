//! Legality of single moves: king safety, castling, en passant.
use vstd::prelude::*;
use crate::bitboard::BitBoard;
use crate::bits::{bit, single, lemma_bit_and, lemma_bit_or, lemma_bit_not, lemma_bit_single,
    lemma_mask_test, lemma_nonzero_has_bit, lemma_bit_zero};
use crate::geometry::{king_rel, pawn_attack_rel, rank, absd};
use crate::movegen::{Move, MoveFlag, pseudo_rel, promo_kind, pack_mask, FLAG_QUIET,
    FLAG_DOUBLE_PUSH, FLAG_KING_CASTLE, FLAG_QUEEN_CASTLE, FLAG_CAPTURE, FLAG_EP_CAPTURE,
    FLAG_PROMO_QUEEN, lemma_pack, lemma_flag_bits, is_flag};
use crate::types::{PieceKind, CastlingRights};
use crate::board::{Board, Pieces, pb, side_occ, all_occ, attacked_by, king_in_check, kind_at,
    side_occupancy, square_attacked};
use crate::board::moves::{toggle_mask, move_ok, apply_toggles, ep_victim, is_castle};
use crate::zobrist::lemma_xor_facts;

verus! {

broadcast use vstd::array::group_array_axioms;

/// The pieces after `mover` plays `m`.
pub open spec fn toggled(p: Pieces, m: Move, mover: int) -> Pieces {
    [
        [
            BitBoard(pb(p, 0, 0) ^ toggle_mask(m, mover, 0, 0)),
            BitBoard(pb(p, 0, 1) ^ toggle_mask(m, mover, 0, 1)),
            BitBoard(pb(p, 0, 2) ^ toggle_mask(m, mover, 0, 2)),
            BitBoard(pb(p, 0, 3) ^ toggle_mask(m, mover, 0, 3)),
            BitBoard(pb(p, 0, 4) ^ toggle_mask(m, mover, 0, 4)),
            BitBoard(pb(p, 0, 5) ^ toggle_mask(m, mover, 0, 5)),
        ],
        [
            BitBoard(pb(p, 1, 0) ^ toggle_mask(m, mover, 1, 0)),
            BitBoard(pb(p, 1, 1) ^ toggle_mask(m, mover, 1, 1)),
            BitBoard(pb(p, 1, 2) ^ toggle_mask(m, mover, 1, 2)),
            BitBoard(pb(p, 1, 3) ^ toggle_mask(m, mover, 1, 3)),
            BitBoard(pb(p, 1, 4) ^ toggle_mask(m, mover, 1, 4)),
            BitBoard(pb(p, 1, 5) ^ toggle_mask(m, mover, 1, 5)),
        ],
    ]
}

/// After `m` the mover's king is not attacked.
pub open spec fn safe_after_spec(b: Board, m: Move) -> bool {
    !king_in_check(toggled(b.pieces, m, b.player_turn as int), b.player_turn as int)
}

/// The captured-piece nibble matches the square `m` moves to.
pub open spec fn victim_ok(b: Board, m: Move) -> bool {
    m.victim() == kind_at(b.pieces, 1 - b.player_turn, m.dst())
}

/// Flag of a plain move or capture.
pub open spec fn plain_flag(m: Move) -> u16 {
    if m.victim() <= 5 {
        FLAG_CAPTURE
    } else {
        FLAG_QUIET
    }
}

/// The rank a pawn of color `c` promotes on.
pub open spec fn last_rank(c: int) -> int {
    if c == 0 {
        7
    } else {
        0
    }
}

/// The four castling moves with their conditions: the right is held, the
/// rook stands in its corner, the squares between are empty and the king's
/// start, transit and destination squares are not attacked.
pub open spec fn castle_ok(b: Board, m: Move) -> bool {
    let p = b.pieces;
    let c = b.player_turn as int;
    let occ = all_occ(p);
    let fr = m.src();
    let to = m.dst();
    let f = m.flag();
    let cr = b.castling_rights;
    &&& m.kind() == 5
    &&& m.victim() == 6
    &&& {
        ||| c == 0 && fr == 4 && to == 6 && f == FLAG_KING_CASTLE && cr & 0x08 != 0 && bit(pb(p, 0, 3), 7)
            && !bit(occ, 5) && !bit(occ, 6) && !attacked_by(p, 1, 4, occ) && !attacked_by(p, 1, 5, occ)
            && !attacked_by(p, 1, 6, occ)
        ||| c == 0 && fr == 4 && to == 2 && f == FLAG_QUEEN_CASTLE && cr & 0x04 != 0 && bit(pb(p, 0, 3), 0)
            && !bit(occ, 1) && !bit(occ, 2) && !bit(occ, 3) && !attacked_by(p, 1, 2, occ)
            && !attacked_by(p, 1, 3, occ) && !attacked_by(p, 1, 4, occ)
        ||| c == 1 && fr == 60 && to == 62 && f == FLAG_KING_CASTLE && cr & 0x02 != 0 && bit(pb(p, 1, 3), 63)
            && !bit(occ, 61) && !bit(occ, 62) && !attacked_by(p, 0, 60, occ) && !attacked_by(p, 0, 61, occ)
            && !attacked_by(p, 0, 62, occ)
        ||| c == 1 && fr == 60 && to == 58 && f == FLAG_QUEEN_CASTLE && cr & 0x01 != 0 && bit(pb(p, 1, 3), 56)
            && !bit(occ, 57) && !bit(occ, 58) && !bit(occ, 59) && !attacked_by(p, 0, 58, occ)
            && !attacked_by(p, 0, 59, occ) && !attacked_by(p, 0, 60, occ)
    }
}

/// Where the move goes and how it is flagged, by the rules of its piece.
pub open spec fn shape_ok(b: Board, m: Move) -> bool {
    let p = b.pieces;
    let c = b.player_turn as int;
    let e = 1 - c;
    let occ = all_occ(p);
    let friendly = side_occ(p, c);
    let enemy = side_occ(p, e);
    let fr = m.src();
    let to = m.dst();
    let k = m.kind();
    let f = m.flag();
    let ep = b.en_passant_square as int;
    if k == 5 {
        (f == FLAG_QUIET && king_rel(fr, to) && !bit(friendly, to) && victim_ok(b, m)) || castle_ok(b, m)
    } else if k == 0 {
        &&& pseudo_rel(0, c, fr, to, occ, enemy, friendly, ep)
        &&& if rank(to) == last_rank(c) {
            promo_kind(f) is Some && victim_ok(b, m)
        } else if to == ep {
            f == FLAG_EP_CAPTURE && m.victim() == 6 && pawn_attack_rel(c, fr, to) && bit(
                pb(p, e, 0),
                ep_victim(m, c),
            )
        } else if absd(to - fr) == 16 {
            f == FLAG_DOUBLE_PUSH && victim_ok(b, m)
        } else {
            f == plain_flag(m) && victim_ok(b, m)
        }
    } else {
        pseudo_rel(k, c, fr, to, occ, enemy, friendly, ep) && f == plain_flag(m) && victim_ok(b, m)
    }
}

/// A legal move of the side to move: its piece stands on its source square,
/// it moves by the piece's rules, and it leaves its own king unattacked.
#[verifier::opaque]
pub open spec fn is_legal(b: Board, m: Move) -> bool {
    &&& 0 <= m.kind() < 6
    &&& bit(pb(b.pieces, b.player_turn as int, m.kind()), m.src())
    &&& shape_ok(b, m)
    &&& move_ok(m, b.player_turn as int)
    &&& safe_after_spec(b, m)
}

/// Squares the rook leaves and enters for a castling flag.
pub open spec fn rook_squares(f: u16, c: int) -> (u8, u8) {
    if f == FLAG_KING_CASTLE {
        if c == 0 {
            (7u8, 5u8)
        } else {
            (63u8, 61u8)
        }
    } else {
        if c == 0 {
            (0u8, 3u8)
        } else {
            (56u8, 59u8)
        }
    }
}

/// Legality of a normal king move.
pub proof fn lemma_legal_king_step(b: Board, m: Move)
    requires
        m.kind() == 5,
        m.flag() == FLAG_QUIET,
        0 <= m.src() < 64,
        b.player_turn < 2,
    ensures
        is_legal(b, m) == (bit(pb(b.pieces, b.player_turn as int, 5), m.src()) && king_rel(m.src(), m.dst())
            && !bit(side_occ(b.pieces, b.player_turn as int), m.dst()) && victim_ok(b, m)
            && safe_after_spec(b, m)),
{
    reveal(is_legal);
}

/// A legal move's piece stands on its source square.
pub proof fn lemma_legal_bit(b: Board, m: Move)
    requires
        is_legal(b, m),
    ensures
        0 <= m.kind() < 6,
        bit(pb(b.pieces, b.player_turn as int, m.kind()), m.src()),
{
    reveal(is_legal);
}

/// A legal move stays on the board.
pub proof fn lemma_legal_move_ok(b: Board, m: Move)
    requires
        is_legal(b, m),
    ensures
        move_ok(m, b.player_turn as int),
{
    reveal(is_legal);
}

/// Legality of any king move: a step or castling.
pub proof fn lemma_legal_king_any(b: Board, m: Move)
    requires
        m.kind() == 5,
        b.player_turn < 2,
    ensures
        is_legal(b, m) == (bit(pb(b.pieces, b.player_turn as int, 5), m.src()) && ((m.flag() == FLAG_QUIET
            && king_rel(m.src(), m.dst()) && !bit(side_occ(b.pieces, b.player_turn as int), m.dst())
            && victim_ok(b, m)) || castle_ok(b, m)) && move_ok(m, b.player_turn as int)
            && safe_after_spec(b, m)),
{
    reveal(is_legal);
}

/// Legality of a move of a piece other than the king.
pub proof fn lemma_legal_piece(b: Board, m: Move)
    requires
        0 <= m.kind() < 5,
        b.player_turn < 2,
    ensures
        is_legal(b, m) == (bit(pb(b.pieces, b.player_turn as int, m.kind()), m.src()) && shape_ok(b, m)
            && move_ok(m, b.player_turn as int) && safe_after_spec(b, m)),
{
    reveal(is_legal);
}

/// The flag the generator gives a move of kind `k` from `from` to `to`
/// (a queen for promotions).
pub open spec fn canon_flag(b: Board, k: int, from: int, to: int) -> u16 {
    let c = b.player_turn as int;
    if k == 0 && rank(to) == last_rank(c) {
        FLAG_PROMO_QUEEN
    } else if k == 0 && to == b.en_passant_square {
        FLAG_EP_CAPTURE
    } else if k == 0 && absd(to - from) == 16 {
        FLAG_DOUBLE_PUSH
    } else if kind_at(b.pieces, 1 - c, to) <= 5 {
        FLAG_CAPTURE
    } else {
        FLAG_QUIET
    }
}

/// Legality of castling.
pub proof fn lemma_legal_castle(b: Board, m: Move)
    requires
        m.kind() == 5,
        is_castle(m.flag()),
        b.player_turn < 2,
    ensures
        is_legal(b, m) == (bit(pb(b.pieces, b.player_turn as int, 5), m.src()) && castle_ok(b, m)
            && safe_after_spec(b, m)),
{
    reveal(is_legal);
}

pub proof fn lemma_toggled(p: Pieces, m: Move, mover: int)
    ensures
        forall|c: int, k: int|
            0 <= c < 2 && 0 <= k < 6 ==> #[trigger] pb(toggled(p, m, mover), c, k) == pb(p, c, k)
                ^ toggle_mask(m, mover, c, k),
{
}

/// A move with the generator's flag to a square the piece reaches, past
/// the en passant checks, has the shape of a legal move.
proof fn lemma_canonical_shape(b: Board, m: Move, dest: u64)
    requires
        b.wf(),
        0 <= m.kind() < 5,
        0 <= m.src() < 64,
        0 <= m.dst() < 64,
        m.flag() == canon_flag(b, m.kind(), m.src(), m.dst()),
        m.victim() == (if m.flag() == FLAG_EP_CAPTURE {
            6
        } else {
            kind_at(b.pieces, 1 - b.player_turn, m.dst())
        }),
        bit(dest, m.dst()),
        forall|t: int| #[trigger]
            bit(dest, t) == pseudo_rel(
                m.kind(),
                b.player_turn as int,
                m.src(),
                t,
                all_occ(b.pieces),
                side_occ(b.pieces, 1 - b.player_turn),
                side_occ(b.pieces, b.player_turn as int),
                b.en_passant_square as int,
            ),
        m.flag() == FLAG_EP_CAPTURE ==> pawn_attack_rel(b.player_turn as int, m.src(), m.dst())
            && bit(pb(b.pieces, 1 - b.player_turn, 0), ep_victim(m, b.player_turn as int)),
    ensures
        shape_ok(b, m),
        move_ok(m, b.player_turn as int),
{
    assert(pseudo_rel(
        m.kind(),
        b.player_turn as int,
        m.src(),
        m.dst(),
        all_occ(b.pieces),
        side_occ(b.pieces, 1 - b.player_turn),
        side_occ(b.pieces, b.player_turn as int),
        b.en_passant_square as int,
    ));
}

impl Board {
    /// Whether the mover's king is safe after `mv`.
    pub fn safe_after(&self, mv: Move) -> (r: bool)
        requires
            self.move_gen.wf(),
            self.player_turn < 2,
            move_ok(mv, self.player_turn as int),
        ensures
            r == safe_after_spec(*self, mv),
    {
        let mover = self.player_turn;
        let mut p = self.pieces;
        apply_toggles(&mut p, mv, mover);
        proof {
            lemma_toggled(self.pieces, mv, mover as int);
            let t = toggled(self.pieces, mv, mover as int);
            assert forall|c: int| 0 <= c < 2 implies p[c] =~= t[c] by {
                assert forall|k: int| 0 <= k < 6 implies p[c][k] == t[c][k] by {
                    assert(pb(p, c, k) == pb(t, c, k));
                }
            }
            assert(p =~= t);
        }
        let kb = p[mover as usize][5].0;
        if kb == 0 {
            return true;
        }
        let ksq = kb.trailing_zeros() as usize;
        proof {
            lemma_nonzero_has_bit(kb);
        }
        let occ = side_occupancy(&p, 0) | side_occupancy(&p, 1);
        !square_attacked(&self.move_gen, &p, occ, 1 - mover, ksq)
    }

    /// Kind of the enemy piece on `sq`; 6 when none stands there.
    pub fn captured_piece_idx_at(&self, sq: u8) -> (r: u8)
        requires
            sq < 64,
            self.player_turn < 2,
        ensures
            r as int == kind_at(self.pieces, 1 - self.player_turn, sq as int),
    {
        let enemy = 1 - self.player_turn;
        let mask: u64 = 1u64 << (sq as u64);
        let r = self.get_piece_index(mask, enemy);
        proof {
            assert(mask == single(sq as int));
            lemma_mask_test(self.pieces[enemy as int][0].0, sq as int);
            lemma_mask_test(self.pieces[enemy as int][1].0, sq as int);
            lemma_mask_test(self.pieces[enemy as int][2].0, sq as int);
            lemma_mask_test(self.pieces[enemy as int][3].0, sq as int);
            lemma_mask_test(self.pieces[enemy as int][4].0, sq as int);
            lemma_mask_test(self.pieces[enemy as int][5].0, sq as int);
        }
        r as u8
    }

    /// An en passant capture from `from` to `to` has our pawn on `from` and
    /// the enemy pawn behind `to`.
    fn validate_ep(&self, from: u8, to: u8) -> (r: bool)
        requires
            from < 64,
            to < 64,
            self.player_turn < 2,
            self.player_turn == 0 ==> to >= 8,
            self.player_turn == 1 ==> to < 56,
        ensures
            r == (bit(pb(self.pieces, self.player_turn as int, 0), from as int) && bit(
                pb(self.pieces, 1 - self.player_turn, 0),
                if self.player_turn == 0 { to - 8 } else { to + 8 },
            )),
    {
        let capturing_idx: u8 = if self.player_turn == 1 {
            to + 8
        } else {
            to - 8
        };
        let us = self.player_turn as usize;
        let them = (1 - self.player_turn) as usize;
        let a = self.pieces[us][0].0 & (1u64 << (from as u64));
        let b = self.pieces[them][0].0 & (1u64 << (capturing_idx as u64));
        proof {
            assert(1u64 << (from as u64) == single(from as int));
            assert(1u64 << (capturing_idx as u64) == single(capturing_idx as int));
            lemma_mask_test(self.pieces[us as int][0].0, from as int);
            lemma_mask_test(self.pieces[them as int][0].0, capturing_idx as int);
        }
        a != 0 && b != 0
    }

    /// The move of the piece of kind `k` from `from` to `to` with flag
    /// `flag`, its captured-piece nibble read off the board (none for en
    /// passant).
    pub fn build_move(&self, k: u8, from: u8, to: u8, flag: u16) -> (r: Move)
        requires
            k < 6,
            from < 64,
            to < 64,
            is_flag(flag),
            self.player_turn < 2,
        ensures
            r.src() == from,
            r.dst() == to,
            r.flag() == flag,
            r.kind() == k,
            r.victim() == if flag == FLAG_EP_CAPTURE || is_castle(flag) {
                6
            } else {
                kind_at(self.pieces, 1 - self.player_turn, to as int)
            },
    {
        let cap: u8 = if flag == FLAG_EP_CAPTURE || flag == FLAG_KING_CASTLE || flag == FLAG_QUEEN_CASTLE {
            6
        } else {
            self.captured_piece_idx_at(to)
        };
        proof {
            lemma_flag_bits(flag);
            lemma_pack(from as u16, to as u16, flag, k, cap);
        }
        Move::new((from as u16) | ((to as u16) << 6u16) | flag, (cap << 4u8) | k)
    }

    /// A normal king move: to an adjacent square without a friendly piece,
    /// not attacked once the king stands there.
    fn quiet_king_push(&self, from: u8, to: u8) -> (r: bool)
        requires
            self.wf(),
            from < 64,
            to < 64,
            bit(pb(self.pieces, self.player_turn as int, 5), from as int),
        ensures
            forall|m: Move|
                m.src() == from && m.dst() == to && m.flag() == FLAG_QUIET && m.kind() == 5
                    && victim_ok(*self, m) ==> r == #[trigger] is_legal(*self, m),
    {
        proof {
            assert forall|m: Move|
                m.src() == from && m.dst() == to && m.flag() == FLAG_QUIET && m.kind() == 5 implies
                    #[trigger] is_legal(*self, m) == (king_rel(from as int, to as int) && !bit(
                        side_occ(self.pieces, self.player_turn as int), to as int) && victim_ok(*self, m)
                        && safe_after_spec(*self, m)) by {
                lemma_legal_king_step(*self, m);
            }
        }
        let friendly = self.color_occupency[self.player_turn as usize].0;
        let ka = self.move_gen.king_attacks(from as usize);
        let targets = ka & !friendly;
        proof {
            lemma_bit_and(ka, !friendly);
            lemma_bit_not(friendly);
            lemma_mask_test(targets, to as int);
            assert(1u64 << (to as u64) == single(to as int));
        }
        if targets & (1u64 << (to as u64)) == 0 {
            return false;
        }
        let mv = self.build_move(5, from, to, FLAG_QUIET);
        self.safe_after(mv)
    }

    /// Whether square `s` is empty.
    fn empty_sq(&self, s: u8) -> (r: bool)
        requires
            s < 64,
            self.occupancy_ok(),
        ensures
            r == !bit(all_occ(self.pieces), s as int),
    {
        let m: u64 = 1u64 << (s as u64);
        proof {
            assert(m == single(s as int));
            lemma_mask_test(self.total_occupency.0, s as int);
        }
        self.total_occupency.0 & m == 0
    }

    /// Castling from `from` to `to`: the flag and the rook's squares when
    /// the rules allow it.
    fn validate_castle(&self, from: u8, to: u8) -> (r: (Option<MoveFlag>, (u8, u8)))
        requires
            self.wf(),
            from < 64,
            to < 64,
            bit(pb(self.pieces, self.player_turn as int, 5), from as int),
        ensures
            r.0 is Some ==> is_castle(r.0->0.spec_bits()) && forall|m: Move|
                m.src() == from && m.dst() == to && m.flag() == r.0->0.spec_bits() && m.kind() == 5
                    && m.victim() == 6 ==> #[trigger] is_legal(*self, m),
            r.0 is None ==> forall|m: Move|
                m.src() == from && m.dst() == to && m.kind() == 5 && is_castle(m.flag()) ==> !#[trigger] is_legal(*self, m),
            r.0 is Some ==> r.1 == rook_squares(r.0->0.spec_bits(), self.player_turn as int),
            r.0 is None ==> r.1 == (65u8, 65u8),
    {
        let us = self.player_turn;
        let castle = match self.identify_castle_type(us, from, to) {
            Some(castle) => castle,
            None => {
                proof {
                    assert forall|m: Move|
                        m.src() == from && m.dst() == to && m.kind() == 5 && is_castle(m.flag()) implies !#[trigger] is_legal(*self, m) by {
                        lemma_legal_castle(*self, m);
                    }
                }
                return (None, (65, 65));
            },
        };
        let (rook_square, e1, e2, e3, s1, s2, s3, flag, rook_moves): (u8, u8, u8, u8, u8, u8, u8, MoveFlag, (u8, u8)) = match castle {
            CastlingRights::WhiteKingside => (7, 5, 6, 6, 4, 5, 6, MoveFlag::KingCastle, (7, 5)),
            CastlingRights::WhiteQueenside => (0, 1, 2, 3, 2, 3, 4, MoveFlag::QueenCastle, (0, 3)),
            CastlingRights::BlackKingside => (63, 61, 62, 62, 60, 61, 62, MoveFlag::KingCastle, (63, 61)),
            CastlingRights::BlackQueenside => (56, 57, 58, 59, 58, 59, 60, MoveFlag::QueenCastle, (56, 59)),
        };
        let occ = self.total_occupency.0;
        let them = 1 - us;
        let ok = self.has_castling_right(castle)
            && self.pieces[us as usize][3].0 & (1u64 << (rook_square as u64)) != 0
            && self.empty_sq(e1) && self.empty_sq(e2) && self.empty_sq(e3)
            && !square_attacked(&self.move_gen, &self.pieces, occ, them, s1 as usize)
            && !square_attacked(&self.move_gen, &self.pieces, occ, them, s2 as usize)
            && !square_attacked(&self.move_gen, &self.pieces, occ, them, s3 as usize);
        proof {
            assert(1u64 << (rook_square as u64) == single(rook_square as int));
            lemma_mask_test(self.pieces[us as int][3].0, rook_square as int);
        }
        if !ok {
            proof {
                assert forall|m: Move|
                    m.src() == from && m.dst() == to && m.kind() == 5 && is_castle(m.flag()) implies !#[trigger] is_legal(*self, m) by {
                    lemma_legal_castle(*self, m);
                }
            }
            return (None, (65, 65));
        }
        let mv = self.build_move(5, from, to, flag.bits());
        let safe = self.safe_after(mv);
        proof {
            assert forall|m: Move|
                m.src() == from && m.dst() == to && m.kind() == 5 && is_castle(m.flag()) && m.victim() == 6 implies
                    #[trigger] is_legal(*self, m) == (m.flag() == flag.spec_bits() && safe) by {
                lemma_legal_castle(*self, m);
            }
        }
        if !safe {
            proof {
                assert forall|m: Move|
                    m.src() == from && m.dst() == to && m.kind() == 5 && is_castle(m.flag()) implies !#[trigger] is_legal(*self, m) by {
                    lemma_legal_castle(*self, m);
                }
            }
            return (None, (65, 65));
        }
        (Some(flag), rook_moves)
    }

    /// The castling right a king move of `color` from `from` to `to` would
    /// use, if it is one of the four castling moves.
    fn identify_castle_type(&self, color: u8, from: u8, to: u8) -> (r: Option<CastlingRights>)
        ensures
            r == (if color == 0 && from == 4 && to == 6 {
                Some(CastlingRights::WhiteKingside)
            } else if color == 0 && from == 4 && to == 2 {
                Some(CastlingRights::WhiteQueenside)
            } else if color == 1 && from == 60 && to == 62 {
                Some(CastlingRights::BlackKingside)
            } else if color == 1 && from == 60 && to == 58 {
                Some(CastlingRights::BlackQueenside)
            } else {
                None
            }),
    {
        if color == 0 && from == 4 && to == 6 {
            Some(CastlingRights::WhiteKingside)
        } else if color == 0 && from == 4 && to == 2 {
            Some(CastlingRights::WhiteQueenside)
        } else if color == 1 && from == 60 && to == 62 {
            Some(CastlingRights::BlackKingside)
        } else if color == 1 && from == 60 && to == 58 {
            Some(CastlingRights::BlackQueenside)
        } else {
            None
        }
    }

    /// Whether `right` is among the castling rights.
    fn has_castling_right(&self, right: CastlingRights) -> (r: bool)
        ensures
            r == (self.castling_rights & right.spec_bits() != 0),
    {
        self.castling_rights & right.bits() != 0
    }

    /// Validates a king move: a normal step first, then castling. Gives the
    /// flag and the squares the rook (for castling) or the king moves
    /// between.
    pub fn validate_king_move(&self, from: u8, to: u8) -> (r: (Option<MoveFlag>, (u8, u8)))
        requires
            self.wf(),
            from < 64,
            to < 64,
            bit(pb(self.pieces, self.player_turn as int, 5), from as int),
        ensures
            r.0 == Some(MoveFlag::Quiet) ==> r.1 == (from, to) && forall|m: Move|
                m.src() == from && m.dst() == to && m.flag() == FLAG_QUIET && m.kind() == 5
                    && victim_ok(*self, m) ==> #[trigger] is_legal(*self, m),
            r.0 is Some && r.0 != Some(MoveFlag::Quiet) ==> is_castle(r.0->0.spec_bits()) && r.1
                == rook_squares(r.0->0.spec_bits(), self.player_turn as int) && forall|m: Move|
                m.src() == from && m.dst() == to && m.flag() == r.0->0.spec_bits() && m.kind() == 5
                    && m.victim() == 6 ==> #[trigger] is_legal(*self, m),
            r.0 is None ==> r.1 == (65u8, 65u8) && forall|m: Move|
                m.src() == from && m.dst() == to && m.kind() == 5 && ((m.flag() == FLAG_QUIET
                    && victim_ok(*self, m)) || is_castle(m.flag())) ==> !#[trigger] is_legal(*self, m),
    {
        if self.quiet_king_push(from, to) {
            return (Some(MoveFlag::Quiet), (from, to));
        }
        let castle_result = self.validate_castle(from, to);
        if let Some(castle) = castle_result.0 {
            return (Some(castle), castle_result.1);
        }
        (None, (65, 65))
    }

    /// Validates a move of a piece other than the king from `from` to `to`,
    /// as the generator would build it (a promotion to a queen).
    pub fn validate_move(&self, piece_type: PieceKind, from: u8, to: u8) -> (r: bool)
        requires
            self.wf(),
            from < 64,
            to < 64,
            piece_type != PieceKind::King,
        ensures
            forall|m: Move|
                m.src() == from && m.dst() == to && m.kind() == piece_type.idx() && m.flag()
                    == canon_flag(*self, piece_type.idx() as int, from as int, to as int)
                    && m.victim() == (if m.flag() == FLAG_EP_CAPTURE {
                    6
                } else {
                    kind_at(self.pieces, 1 - self.player_turn, to as int)
                }) ==> r == #[trigger] is_legal(*self, m),
    {
        let k = piece_type.to_u8();
        let us = self.player_turn;
        let mask: u64 = 1u64 << (from as u64);
        let to_bit: u64 = 1u64 << (to as u64);
        proof {
            assert(mask == single(from as int));
            assert(to_bit == single(to as int));
            lemma_mask_test(self.pieces[us as int][k as int].0, from as int);
            assert forall|m: Move| m.kind() == k implies #[trigger] is_legal(*self, m) == (bit(
                pb(self.pieces, self.player_turn as int, m.kind()), m.src()) && shape_ok(*self, m)
                && move_ok(m, self.player_turn as int) && safe_after_spec(*self, m)) by {
                lemma_legal_piece(*self, m);
            }
        }
        if self.pieces[us as usize][k as usize].0 & mask == 0 {
            return false;
        }
        let targets = self.move_gen.get_legal_moves_by_piece(
            piece_type,
            self.total_occupency.0,
            from as usize,
            us,
            self.color_occupency[(1 - us) as usize].0,
            self.color_occupency[us as usize].0,
            false,
            self.en_passant_square,
        );
        let dest = match targets {
            Some(t) => t.0,
            None => 0,
        };
        proof {
            lemma_mask_test(dest, to as int);
        }
        if dest & to_bit == 0 {
            return false;
        }
        let flag = self.canonical_flag(k, from, to);
        if flag == FLAG_EP_CAPTURE {
            let att = self.move_gen.pawn_attacks(us, from as usize);
            proof {
                lemma_mask_test(att, to as int);
            }
            if att & to_bit == 0 {
                return false;
            }
            if !self.validate_ep(from, to) {
                return false;
            }
        }
        let mv = self.build_move(k, from, to, flag);
        proof {
            lemma_canonical_shape(*self, mv, dest);
        }
        self.safe_after(mv)
    }

    /// The flag the generator gives this move (a queen for promotions).
    pub(crate) fn canonical_flag(&self, k: u8, from: u8, to: u8) -> (r: u16)
        requires
            k < 6,
            from < 64,
            to < 64,
            self.player_turn < 2,
        ensures
            r == canon_flag(*self, k as int, from as int, to as int),
            is_flag(r),
    {
        let last: u8 = if self.player_turn == 0 { 7 } else { 0 };
        if k == 0 && to / 8 == last {
            FLAG_PROMO_QUEEN
        } else if k == 0 && to == self.en_passant_square {
            FLAG_EP_CAPTURE
        } else if k == 0 && (if from > to { from - to } else { to - from }) == 16 {
            FLAG_DOUBLE_PUSH
        } else if self.captured_piece_idx_at(to) <= 5 {
            FLAG_CAPTURE
        } else {
            FLAG_QUIET
        }
    }
}

} // verus!
