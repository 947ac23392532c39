//! Generation of every legal move of the side to move.
use vstd::prelude::*;
use crate::bitboard::BitBoard;
use crate::bits::{bit, single, lemma_bit_and, lemma_bit_not, lemma_bit_zero};
use crate::geometry::{rank, king_rel};
use crate::movegen::{Move, pseudo_rel, promo_kind, FLAG_QUIET, FLAG_DOUBLE_PUSH, FLAG_CAPTURE,
    FLAG_EP_CAPTURE, FLAG_KING_CASTLE, FLAG_QUEEN_CASTLE, FLAG_PROMO_QUEEN, FLAG_PROMO_ROOK,
    FLAG_PROMO_BISHOP, FLAG_PROMO_KNIGHT};
use crate::types::PieceKind;
use crate::board::{Board, pb, side_occ, all_occ, kind_at};
use crate::board::moves::is_castle;
use crate::board::validation::{is_legal, canon_flag, last_rank, shape_ok, victim_ok, castle_ok,
    lemma_legal_piece, lemma_legal_king_step, lemma_legal_castle};

verus! {

broadcast use vstd::array::group_array_axioms;

/// Every move of `s` is legal on `b`.
pub open spec fn all_legal(b: Board, s: Seq<Move>) -> bool {
    forall|i: int| 0 <= i < s.len() ==> #[trigger] is_legal(b, s[i])
}

/// `new` starts with `old`.
pub open spec fn grows(old: Seq<Move>, new: Seq<Move>) -> bool {
    &&& old.len() <= new.len()
    &&& forall|i: int| 0 <= i < old.len() ==> #[trigger] new[i] == old[i]
}

/// The move of the piece of kind `k` from `from` to `to` with the flag the
/// generator gives it is legal.
pub open spec fn canonical_legal(b: Board, k: int, from: int, to: int) -> bool {
    forall|m: Move|
        m.src() == from && m.dst() == to && m.kind() == k && m.flag() == canon_flag(b, k, from, to)
            && m.victim() == (if m.flag() == FLAG_EP_CAPTURE {
            6
        } else {
            kind_at(b.pieces, 1 - b.player_turn, to)
        }) ==> #[trigger] is_legal(b, m)
}

/// Every legal move of kind `k` from `from` to `to` is in `s`.
pub open spec fn has_moves_to(b: Board, s: Seq<Move>, k: int, from: int, to: int) -> bool {
    forall|m: Move|
        #[trigger] is_legal(b, m) && m.kind() == k && m.src() == from && m.dst() == to ==> s.contains(
            m,
        )
}

/// Every legal move of kind `k` from `from` is in `s`.
pub open spec fn has_moves_from(b: Board, s: Seq<Move>, k: int, from: int) -> bool {
    forall|m: Move| #[trigger] is_legal(b, m) && m.kind() == k && m.src() == from ==> s.contains(m)
}

/// What `grows` keeps: a move that was in `old` is in `new`.
proof fn lemma_grows_contains(old: Seq<Move>, new: Seq<Move>, m: Move)
    requires
        grows(old, new),
        old.contains(m),
    ensures
        new.contains(m),
{
    let i = choose|i: int| 0 <= i < old.len() && old[i] == m;
    assert(new[i] == m);
}

proof fn lemma_grows_trans(a: Seq<Move>, b: Seq<Move>, c: Seq<Move>)
    requires
        grows(a, b),
        grows(b, c),
    ensures
        grows(a, c),
{
    assert forall|i: int| 0 <= i < a.len() implies #[trigger] c[i] == a[i] by {
        assert(b[i] == a[i]);
    }
}

/// A legal move other than a promotion carries the generator's flag and
/// victim.
proof fn lemma_legal_is_canonical(b: Board, m: Move)
    requires
        b.player_turn < 2,
        0 <= m.kind() < 5,
        is_legal(b, m),
        !(m.kind() == 0 && rank(m.dst()) == last_rank(b.player_turn as int)),
    ensures
        m.flag() == canon_flag(b, m.kind(), m.src(), m.dst()),
        m.victim() == (if m.flag() == FLAG_EP_CAPTURE {
            6
        } else {
            kind_at(b.pieces, 1 - b.player_turn, m.dst())
        }),
{
    lemma_legal_piece(b, m);
}

impl Board {
    /// Every legal move of the side to move, each once: pseudo-legal
    /// destinations of each piece, kept when they leave the king safe; king
    /// steps and castling are checked by `validate_king_move`.
    pub fn generate_legal_moves(&self) -> (r: Vec<Move>)
        requires
            self.wf(),
        ensures
            all_legal(*self, r@),
            forall|m: Move| #[trigger] is_legal(*self, m) ==> r@.contains(m),
            r@.no_duplicates(),
    {
        let mut moves: Vec<Move> = Vec::new();
        let color = self.player_turn as usize;
        let friendly = self.color_occupency[color].0;
        let enemy = self.color_occupency[1 - color].0;
        let occupied = self.total_occupency.0;
        let mut piece_idx: usize = 0;
        while piece_idx < 6
            invariant
                self.wf(),
                color == self.player_turn,
                friendly == side_occ(self.pieces, color as int),
                enemy == side_occ(self.pieces, 1 - color),
                occupied == all_occ(self.pieces),
                piece_idx <= 6,
                all_legal(*self, moves@),
                moves@.no_duplicates(),
                forall|m: Move| #[trigger] is_legal(*self, m) && m.kind() < piece_idx ==> moves@.contains(m),
            decreases 6 - piece_idx,
        {
            let piece_type = PieceKind::from_idx(piece_idx);
            let mut piece_board: BitBoard = self.pieces[color][piece_idx];
            proof {
                assert forall|m: Move| #[trigger]
                    is_legal(*self, m) && (m.kind() < piece_idx || (m.kind() == piece_idx && !bit(
                        piece_board.0,
                        m.src(),
                    ))) implies moves@.contains(m) by {
                    crate::board::validation::lemma_legal_bit(*self, m);
                }
            }
            while piece_board.0 != 0
                invariant
                    self.wf(),
                    color == self.player_turn,
                    friendly == side_occ(self.pieces, color as int),
                    enemy == side_occ(self.pieces, 1 - color),
                    occupied == all_occ(self.pieces),
                    piece_idx < 6,
                    piece_type.idx() == piece_idx,
                    forall|s: int| #[trigger]
                        bit(piece_board.0, s) ==> bit(pb(self.pieces, color as int, piece_idx as int), s),
                    all_legal(*self, moves@),
                    moves@.no_duplicates(),
                    forall|m: Move| #[trigger]
                        is_legal(*self, m) && (m.kind() < piece_idx || (m.kind() == piece_idx && !bit(
                            piece_board.0,
                            m.src(),
                        ))) ==> moves@.contains(m),
                decreases piece_board.0,
            {
                let ghost before = piece_board.0;
                let ghost before_moves = moves@;
                let from = match piece_board.pop_lsb() {
                    Some(s) => s,
                    None => 0,
                };
                proof {
                    lemma_pop_smaller(before, from as int);
                }
                if piece_idx == 5 {
                    self.collect_king_moves(from, &mut moves);
                } else {
                    let targets = self.move_gen.get_legal_moves_by_piece(
                        piece_type,
                        occupied,
                        from as usize,
                        self.player_turn,
                        enemy,
                        friendly,
                        false,
                        self.en_passant_square,
                    );
                    let mut destinations: BitBoard = match targets {
                        Some(t) => t,
                        None => BitBoard(0),
                    };
                    let ghost dest0 = destinations.0;
                    while destinations.0 != 0
                        invariant
                            self.wf(),
                            color == self.player_turn,
                            friendly == side_occ(self.pieces, color as int),
                            enemy == side_occ(self.pieces, 1 - color),
                            occupied == all_occ(self.pieces),
                            piece_idx < 5,
                            piece_type.idx() == piece_idx,
                            from < 64,
                            bit(pb(self.pieces, self.player_turn as int, piece_idx as int), from as int),
                            forall|t: int| #[trigger]
                                bit(dest0, t) == pseudo_rel(
                                    piece_idx as int,
                                    color as int,
                                    from as int,
                                    t,
                                    occupied,
                                    enemy,
                                    friendly,
                                    self.en_passant_square as int,
                                ),
                            forall|t: int| #[trigger] bit(destinations.0, t) ==> bit(dest0, t),
                            all_legal(*self, moves@),
                            moves@.no_duplicates(),
                            grows(before_moves, moves@),
                            forall|t: int|
                                bit(dest0, t) && !bit(destinations.0, t) ==> #[trigger] has_moves_to(
                                    *self,
                                    moves@,
                                    piece_idx as int,
                                    from as int,
                                    t,
                                ),
                        decreases destinations.0,
                    {
                        let ghost dbefore = destinations.0;
                        let ghost mbefore = moves@;
                        let to = match destinations.pop_lsb() {
                            Some(s) => s,
                            None => 0,
                        };
                        proof {
                            lemma_pop_smaller(dbefore, to as int);
                        }
                        let promotes = piece_idx == 0 && (if self.player_turn == 0 {
                            to >= 56
                        } else {
                            to <= 7
                        });
                        if promotes || self.validate_move(piece_type, from, to) {
                            self.push_pseudo_legal_move(piece_idx, from, to, &mut moves);
                        } else {
                            proof {
                                assert forall|m: Move|
                                    #[trigger] is_legal(*self, m) && m.kind() == piece_idx && m.src() == from
                                        && m.dst() == to implies moves@.contains(m) by {
                                    lemma_legal_is_canonical(*self, m);
                                }
                            }
                        }
                        proof {
                            assert forall|t: int|
                                bit(dest0, t) && !bit(destinations.0, t) implies #[trigger] has_moves_to(
                                    *self,
                                    moves@,
                                    piece_idx as int,
                                    from as int,
                                    t,
                                ) by {
                                if t != to {
                                    assert(has_moves_to(*self, mbefore, piece_idx as int, from as int, t));
                                    assert forall|m: Move|
                                        #[trigger] is_legal(*self, m) && m.kind() == piece_idx && m.src() == from
                                            && m.dst() == t implies moves@.contains(m) by {
                                        lemma_grows_contains(mbefore, moves@, m);
                                    }
                                }
                            }
                        }
                    }
                    proof {
                        lemma_bit_zero();
                        assert forall|m: Move| #[trigger]
                            is_legal(*self, m) && m.kind() == piece_idx && m.src() == from implies moves@.contains(m) by {
                            lemma_legal_piece(*self, m);
                            assert(bit(dest0, m.dst()));
                            assert(has_moves_to(*self, moves@, piece_idx as int, from as int, m.dst()));
                        }
                    }
                }
                proof {
                    assert forall|m: Move| #[trigger]
                        is_legal(*self, m) && (m.kind() < piece_idx || (m.kind() == piece_idx && !bit(
                            piece_board.0,
                            m.src(),
                        ))) implies moves@.contains(m) by {
                        if m.kind() == piece_idx && m.src() == from {
                        } else {
                            lemma_grows_contains(before_moves, moves@, m);
                        }
                    }
                }
            }
            proof {
                lemma_bit_zero();
                assert forall|m: Move| #[trigger] is_legal(*self, m) && m.kind() < piece_idx + 1 implies moves@.contains(m) by {
                    if m.kind() == piece_idx {
                        crate::board::validation::lemma_legal_bit(*self, m);
                    }
                }
            }
            piece_idx = piece_idx + 1;
        }
        proof {
            assert forall|m: Move| #[trigger] is_legal(*self, m) implies moves@.contains(m) by {
                crate::board::validation::lemma_legal_bit(*self, m);
            }
        }
        moves
    }

    /// Pushes the legal moves of the king on `from`: steps to adjacent
    /// squares, then the two castling destinations of its side.
    fn collect_king_moves(&self, from: u8, moves: &mut Vec<Move>)
        requires
            self.wf(),
            from < 64,
            bit(pb(self.pieces, self.player_turn as int, 5), from as int),
            all_legal(*self, old(moves)@),
            old(moves)@.no_duplicates(),
        ensures
            all_legal(*self, final(moves)@),
            final(moves)@.no_duplicates(),
            grows(old(moves)@, final(moves)@),
            has_moves_from(*self, final(moves)@, 5, from as int),
    {
        let ghost start = moves@;
        let friendly = self.color_occupency[self.player_turn as usize].0;
        let ka = self.move_gen.king_attacks(from as usize);
        let cand0 = ka & !friendly;
        proof {
            lemma_bit_and(ka, !friendly);
            lemma_bit_not(friendly);
        }
        let mut candidates = BitBoard(cand0);
        while candidates.0 != 0
            invariant
                self.wf(),
                from < 64,
                bit(pb(self.pieces, self.player_turn as int, 5), from as int),
                all_legal(*self, moves@),
                moves@.no_duplicates(),
                grows(start, moves@),
                forall|t: int| #[trigger] bit(candidates.0, t) ==> bit(cand0, t),
                forall|t: int|
                    bit(cand0, t) && !bit(candidates.0, t) ==> #[trigger] has_moves_to(
                        *self,
                        moves@,
                        5,
                        from as int,
                        t,
                    ),
            decreases candidates.0,
        {
            let ghost before = candidates.0;
            let ghost mbefore = moves@;
            let to = match candidates.pop_lsb() {
                Some(s) => s,
                None => 0,
            };
            proof {
                lemma_pop_smaller(before, to as int);
            }
            self.try_push_king_move(from, to, moves);
            proof {
                assert forall|t: int|
                    bit(cand0, t) && !bit(candidates.0, t) implies #[trigger] has_moves_to(
                        *self,
                        moves@,
                        5,
                        from as int,
                        t,
                    ) by {
                    if t != to {
                        assert(has_moves_to(*self, mbefore, 5, from as int, t));
                        assert forall|m: Move|
                            #[trigger] is_legal(*self, m) && m.kind() == 5 && m.src() == from && m.dst()
                                == t implies moves@.contains(m) by {
                            lemma_grows_contains(mbefore, moves@, m);
                        }
                    }
                }
            }
        }
        let ghost after_steps = moves@;
        proof {
            lemma_grows_trans(start, after_steps, after_steps);
        }
        let (a, b): (u8, u8) = if self.player_turn == 0 {
            (6, 2)
        } else {
            (62, 58)
        };
        let home: u8 = if self.player_turn == 0 {
            4
        } else {
            60
        };
        if from == home {
            self.try_push_king_move(from, a, moves);
            let ghost after_a = moves@;
            self.try_push_king_move(from, b, moves);
            proof {
                lemma_grows_trans(after_steps, after_a, moves@);
                assert forall|m: Move|
                    #[trigger] is_legal(*self, m) && m.kind() == 5 && m.src() == from && m.dst() == a implies moves@.contains(m) by {
                    lemma_grows_contains(after_a, moves@, m);
                }
            }
        }
        proof {
            lemma_bit_zero();
            lemma_grows_trans(start, after_steps, moves@);
            assert forall|m: Move| #[trigger] is_legal(*self, m) && m.kind() == 5 && m.src() == from implies moves@.contains(m) by {
                if is_castle(m.flag()) {
                    lemma_legal_castle(*self, m);
                } else {
                    crate::board::validation::lemma_legal_king_any(*self, m);
                    assert(bit(cand0, m.dst()));
                    assert(has_moves_to(*self, after_steps, 5, from as int, m.dst()));
                    assert(after_steps.contains(m));
                    lemma_grows_contains(after_steps, moves@, m);
                }
            }
        }
    }

    /// Pushes the king move from `from` to `to` when it is legal.
    fn try_push_king_move(&self, from: u8, to: u8, moves: &mut Vec<Move>)
        requires
            self.wf(),
            from < 64,
            to < 64,
            bit(pb(self.pieces, self.player_turn as int, 5), from as int),
            all_legal(*self, old(moves)@),
            old(moves)@.no_duplicates(),
        ensures
            all_legal(*self, final(moves)@),
            final(moves)@.no_duplicates(),
            grows(old(moves)@, final(moves)@),
            has_moves_to(*self, final(moves)@, 5, from as int, to as int),
    {
        let (flag, _) = self.validate_king_move(from, to);
        let flag = match flag {
            Some(f) => f,
            None => {
                proof {
                    assert forall|m: Move|
                        #[trigger] is_legal(*self, m) && m.kind() == 5 && m.src() == from && m.dst() == to implies old(
                        moves,
                    )@.contains(m) by {
                        crate::board::validation::lemma_legal_king_any(*self, m);
                    }
                }
                return ;
            },
        };
        let mv = self.build_move(5, from, to, flag.bits());
        self.push_known_legal(mv, moves);
        proof {
            assert(moves@.contains(mv));
            assert forall|m: Move|
                #[trigger] is_legal(*self, m) && m.kind() == 5 && m.src() == from && m.dst() == to implies moves@.contains(m) by {
                crate::board::validation::lemma_legal_king_any(*self, m);
                crate::board::validation::lemma_legal_king_any(*self, mv);
                m.lemma_fields_determine(mv);
            }
        }
    }

    /// Pushes the legal moves of the piece of kind `piece_idx` from `from`
    /// to `to`, a destination it reaches: the four promotions of a pawn
    /// reaching its last rank, each when it leaves the king safe; otherwise
    /// the move with the generator's flag (en passant, double push, capture
    /// or quiet), which is known to be legal.
    fn push_pseudo_legal_move(&self, piece_idx: usize, from: u8, to: u8, moves: &mut Vec<Move>)
        requires
            self.wf(),
            piece_idx < 5,
            from < 64,
            to < 64,
            bit(pb(self.pieces, self.player_turn as int, piece_idx as int), from as int),
            pseudo_rel(
                piece_idx as int,
                self.player_turn as int,
                from as int,
                to as int,
                all_occ(self.pieces),
                side_occ(self.pieces, 1 - self.player_turn),
                side_occ(self.pieces, self.player_turn as int),
                self.en_passant_square as int,
            ),
            !(piece_idx == 0 && rank(to as int) == last_rank(self.player_turn as int))
                ==> canonical_legal(*self, piece_idx as int, from as int, to as int),
            all_legal(*self, old(moves)@),
            old(moves)@.no_duplicates(),
        ensures
            all_legal(*self, final(moves)@),
            final(moves)@.no_duplicates(),
            grows(old(moves)@, final(moves)@),
            has_moves_to(*self, final(moves)@, piece_idx as int, from as int, to as int),
    {
        let k = piece_idx as u8;
        if k == 0 {
            let promotes = if self.player_turn == 0 {
                to >= 56
            } else {
                to <= 7
            };
            if promotes {
                let ghost m0 = moves@;
                self.push_promotion(from, to, FLAG_PROMO_QUEEN, moves);
                let ghost m1 = moves@;
                self.push_promotion(from, to, FLAG_PROMO_ROOK, moves);
                let ghost m2 = moves@;
                self.push_promotion(from, to, FLAG_PROMO_BISHOP, moves);
                let ghost m3 = moves@;
                self.push_promotion(from, to, FLAG_PROMO_KNIGHT, moves);
                proof {
                    lemma_grows_trans(m0, m1, m2);
                    lemma_grows_trans(m0, m2, m3);
                    lemma_grows_trans(m0, m3, moves@);
                    assert forall|m: Move|
                        #[trigger] is_legal(*self, m) && m.kind() == 0 && m.src() == from && m.dst() == to implies moves@.contains(m) by {
                        lemma_legal_piece(*self, m);
                        if m.flag() == FLAG_PROMO_QUEEN {
                            lemma_grows_contains(m1, m2, m);
                            lemma_grows_contains(m2, m3, m);
                            lemma_grows_contains(m3, moves@, m);
                        } else if m.flag() == FLAG_PROMO_ROOK {
                            lemma_grows_contains(m2, m3, m);
                            lemma_grows_contains(m3, moves@, m);
                        } else if m.flag() == FLAG_PROMO_BISHOP {
                            lemma_grows_contains(m3, moves@, m);
                        }
                    }
                }
                return ;
            }
            if to == self.en_passant_square {
                let mv = self.build_move(0, from, to, FLAG_EP_CAPTURE);
                self.push_canonical(mv, moves);
                return ;
            }
            let diff: u8 = if from > to {
                from - to
            } else {
                to - from
            };
            if diff == 16 {
                let mv = self.build_move(0, from, to, FLAG_DOUBLE_PUSH);
                self.push_canonical(mv, moves);
                return ;
            }
        }
        let flag = if self.captured_piece_idx_at(to) <= 5 {
            FLAG_CAPTURE
        } else {
            FLAG_QUIET
        };
        let mv = self.build_move(k, from, to, flag);
        self.push_canonical(mv, moves);
    }

    /// Pushes the generator's form of a move, known to be legal; it is the
    /// only legal move of its piece between its squares.
    fn push_canonical(&self, mv: Move, moves: &mut Vec<Move>)
        requires
            self.wf(),
            0 <= mv.kind() < 5,
            !(mv.kind() == 0 && rank(mv.dst()) == last_rank(self.player_turn as int)),
            mv.flag() == canon_flag(*self, mv.kind(), mv.src(), mv.dst()),
            mv.victim() == (if mv.flag() == FLAG_EP_CAPTURE {
                6
            } else {
                kind_at(self.pieces, 1 - self.player_turn, mv.dst())
            }),
            canonical_legal(*self, mv.kind(), mv.src(), mv.dst()),
            all_legal(*self, old(moves)@),
            old(moves)@.no_duplicates(),
        ensures
            all_legal(*self, final(moves)@),
            final(moves)@.no_duplicates(),
            grows(old(moves)@, final(moves)@),
            has_moves_to(*self, final(moves)@, mv.kind(), mv.src(), mv.dst()),
    {
        proof {
            assert(is_legal(*self, mv));
        }
        self.push_known_legal(mv, moves);
        proof {
            assert(moves@.contains(mv));
            assert forall|m: Move|
                #[trigger] is_legal(*self, m) && m.kind() == mv.kind() && m.src() == mv.src() && m.dst()
                    == mv.dst() implies moves@.contains(m) by {
                lemma_legal_is_canonical(*self, m);
                m.lemma_fields_determine(mv);
            }
        }
    }

    /// Pushes the promotion of the pawn on `from` to `to` into the piece of
    /// `flag` when it leaves the king safe.
    fn push_promotion(&self, from: u8, to: u8, flag: u16, moves: &mut Vec<Move>)
        requires
            self.wf(),
            from < 64,
            to < 64,
            bit(pb(self.pieces, self.player_turn as int, 0), from as int),
            rank(to as int) == last_rank(self.player_turn as int),
            pseudo_rel(
                0,
                self.player_turn as int,
                from as int,
                to as int,
                all_occ(self.pieces),
                side_occ(self.pieces, 1 - self.player_turn),
                side_occ(self.pieces, self.player_turn as int),
                self.en_passant_square as int,
            ),
            flag == FLAG_PROMO_QUEEN || flag == FLAG_PROMO_ROOK || flag == FLAG_PROMO_BISHOP || flag
                == FLAG_PROMO_KNIGHT,
            all_legal(*self, old(moves)@),
            old(moves)@.no_duplicates(),
        ensures
            all_legal(*self, final(moves)@),
            final(moves)@.no_duplicates(),
            grows(old(moves)@, final(moves)@),
            forall|m: Move|
                #[trigger] is_legal(*self, m) && m.kind() == 0 && m.src() == from && m.dst() == to
                    && m.flag() == flag ==> final(moves)@.contains(m),
    {
        let mv = self.build_move(0, from, to, flag);
        proof {
            lemma_legal_piece(*self, mv);
        }
        if self.safe_after(mv) {
            self.push_known_legal(mv, moves);
            proof {
                assert(moves@.contains(mv));
                assert forall|m: Move|
                    #[trigger] is_legal(*self, m) && m.kind() == 0 && m.src() == from && m.dst() == to
                        && m.flag() == flag implies moves@.contains(m) by {
                    lemma_legal_piece(*self, m);
                    m.lemma_fields_determine(mv);
                }
            }
        } else {
            proof {
                assert forall|m: Move|
                    #[trigger] is_legal(*self, m) && m.kind() == 0 && m.src() == from && m.dst() == to
                        && m.flag() == flag implies moves@.contains(m) by {
                    lemma_legal_piece(*self, m);
                    m.lemma_fields_determine(mv);
                }
            }
        }
    }

    /// Adds a move known to be legal, unless the list has it already.
    fn push_known_legal(&self, mv: Move, moves: &mut Vec<Move>)
        requires
            is_legal(*self, mv),
            all_legal(*self, old(moves)@),
            old(moves)@.no_duplicates(),
        ensures
            old(moves)@.contains(mv) ==> final(moves)@ == old(moves)@,
            !old(moves)@.contains(mv) ==> final(moves)@ == old(moves)@.push(mv),
            final(moves)@.contains(mv),
            final(moves)@.no_duplicates(),
            all_legal(*self, final(moves)@),
            grows(old(moves)@, final(moves)@),
    {
        let mut i: usize = 0;
        while i < moves.len()
            invariant
                i <= moves@.len(),
                moves@ == old(moves)@,
                all_legal(*self, old(moves)@),
                old(moves)@.no_duplicates(),
                forall|j: int| 0 <= j < i ==> moves@[j] != mv,
            decreases moves@.len() - i,
        {
            if moves[i] == mv {
                proof {
                    assert(moves@.contains(mv));
                }
                return;
            }
            i = i + 1;
        }
        proof {
            assert(!moves@.contains(mv));
        }
        moves.push(mv);
        proof {
            assert(moves@[moves@.len() - 1] == mv);
            assert forall|i: int| 0 <= i < moves@.len() implies #[trigger] is_legal(*self, moves@[i]) by {
                if i < moves@.len() - 1 {
                    assert(moves@[i] == old(moves)@[i]);
                }
            }
            assert forall|a: int, b: int| 0 <= a < b < moves@.len() implies moves@[a] != moves@[b] by {
                if b == moves@.len() - 1 {
                    assert(moves@[a] == old(moves)@[a]);
                    assert(old(moves)@.contains(old(moves)@[a]));
                }
            }
        }
    }
}

/// Clearing a set bit makes a word smaller.
proof fn lemma_pop_smaller(x: u64, s: int)
    requires
        0 <= s < 64,
        bit(x, s),
    ensures
        (x ^ single(s)) < x,
{
    let t = s as u64;
    crate::bits::lemma_mask_test(x, s);
    assert(x & (1u64 << t) != 0 ==> (x ^ (1u64 << t)) < x) by (bit_vector)
        requires
            t < 64,
    ;
}

} // verus!
