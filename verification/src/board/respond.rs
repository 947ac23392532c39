//! Playing a move the user interface asks for, and describing the squares
//! it changed.
use vstd::prelude::*;
use vstd::string::*;
use crate::bits::{bit, single, lemma_mask_test};
use crate::geometry::{absd, rank, king_rel};
use crate::movegen::{Move, MoveFlag, promo_kind, FLAG_QUIET, FLAG_DOUBLE_PUSH, FLAG_KING_CASTLE,
    FLAG_QUEEN_CASTLE, FLAG_CAPTURE, FLAG_EP_CAPTURE, FLAG_PROMO_QUEEN, FLAG_PROMO_ROOK,
    FLAG_PROMO_BISHOP, FLAG_PROMO_KNIGHT, lemma_flag_bits, is_flag};
use crate::types::{Color, PieceKind, kind_of};
use crate::dto::{MoveInfo, PromotionPiece, Legality, MoveType, PieceKindDto, PieceInfo,
    SquareChange, Response, GameState, CommandError, kind_to_dto};
use crate::board::{Board, pb, side_occ, kind_at};
use crate::board::moves::{move_ok, make_post, is_castle, fits_mover};
use crate::board::validation::{is_legal, canon_flag, rook_squares, victim_ok,
    lemma_legal_king_any};
use crate::board::legal_moves::canonical_legal;
use crate::board::state::{notation, notation_index, low_byte, game_state_of};

verus! {

/// Flag bits of a requested promotion.
pub open spec fn promo_bits(p: Option<PromotionPiece>) -> u16 {
    match p {
        None => 0,
        Some(PromotionPiece::Queen) => FLAG_PROMO_QUEEN,
        Some(PromotionPiece::Rook) => FLAG_PROMO_ROOK,
        Some(PromotionPiece::Bishop) => FLAG_PROMO_BISHOP,
        Some(PromotionPiece::Knight) => FLAG_PROMO_KNIGHT,
    }
}

/// The board's record of a requested promotion: 4 queen .. 1 knight.
pub open spec fn promo_value(p: PromotionPiece) -> u8 {
    match p {
        PromotionPiece::Queen => 4,
        PromotionPiece::Rook => 3,
        PromotionPiece::Bishop => 2,
        PromotionPiece::Knight => 1,
    }
}

pub open spec fn promo_dto(p: PromotionPiece) -> PieceKindDto {
    match p {
        PromotionPiece::Queen => PieceKindDto::Queen,
        PromotionPiece::Rook => PieceKindDto::Rook,
        PromotionPiece::Bishop => PieceKindDto::Bishop,
        PromotionPiece::Knight => PieceKindDto::Knight,
    }
}

/// The board with a requested promotion recorded.
pub open spec fn with_promotion(b: Board, p: Option<PromotionPiece>) -> Board {
    match p {
        None => b,
        Some(x) => Board { promotion: promo_value(x), ..b },
    }
}

/// Color 0 is white, any other black.
pub open spec fn color_of(n: int) -> Color {
    if n == 0 {
        Color::White
    } else {
        Color::Black
    }
}

/// A square change as the specification sees it: the square's name and
/// what stands there.
pub open spec fn changes_view(v: Seq<SquareChange>) -> Seq<(Seq<char>, Option<PieceInfo>)> {
    v.map_values(|c: SquareChange| (c.square@, c.piece))
}

/// The square of `b`'s side to move holds a king move to `to` that is
/// legal.
pub open spec fn king_move_legal(b: Board, from: int, to: int) -> bool {
    exists|m: Move| #[trigger] is_legal(b, m) && m.kind() == 5 && m.src() == from && m.dst() == to
}

/// Move mask of the squares and flag bits.
pub open spec fn squares_mask(from: int, to: int, f: u16) -> u16 {
    ((to as u16) << 6u16) | (from as u16) | f
}

/// Flag bits a non-king request gets: the promotion asked for, a double
/// push, an en passant capture.
pub open spec fn request_flags(b: Board, from: int, to: int, k: int, p: Option<PromotionPiece>) -> u16 {
    let f1 = if k == 0 && absd(to - from) == 16 {
        promo_bits(p) | FLAG_DOUBLE_PUSH
    } else {
        promo_bits(p)
    };
    if k == 0 && to == b.en_passant_square {
        f1 | FLAG_EP_CAPTURE
    } else {
        f1
    }
}

/// The mask a move gets once its destination is looked at: the capture
/// bit when an enemy piece stands there, unless the flag is a promotion.
pub open spec fn packed_mask(b: Board, mask: u16, to: int) -> u16 {
    if kind_at(b.pieces, 1 - b.player_turn, to) <= 5 && promo_kind(mask & 0xF000) is None {
        mask | FLAG_CAPTURE
    } else {
        mask
    }
}

/// Piece byte: the captured kind (6 for none) over the moving kind.
pub open spec fn packed_piece(b: Board, to: int, k: int) -> u8 {
    (((kind_at(b.pieces, 1 - b.player_turn, to) as u8) << 4u8) | (k as u8)) as u8
}

impl Board {
    /// Both squares of a request, or the first one outside the board.
    fn parse_move_squares(&self, move_info: &MoveInfo) -> (r: Result<(u8, u8), CommandError>)
        requires
            move_info.from@.len() >= 2,
            move_info.to@.len() >= 2,
        ensures
            r == (if notation_index(move_info.from@) > 63 {
                Err(CommandError::InvalidSquareIndex { square: notation_index(move_info.from@) as u16 })
            } else if notation_index(move_info.to@) > 63 {
                Err(CommandError::InvalidSquareIndex { square: notation_index(move_info.to@) as u16 })
            } else {
                Ok((notation_index(move_info.from@), notation_index(move_info.to@)))
            }),
    {
        let from = self.notation_to_index(move_info.from.as_str());
        let to = self.notation_to_index(move_info.to.as_str());
        if from > 63 {
            return Err(CommandError::InvalidSquareIndex { square: from as u16 });
        }
        if to > 63 {
            return Err(CommandError::InvalidSquareIndex { square: to as u16 });
        }
        Ok((from, to))
    }

    /// Records a requested promotion and gives the move mask of the
    /// squares with its flag, and the kind the pawn becomes.
    fn apply_promotion_flags(&mut self, from: u8, to: u8, promotion: Option<PromotionPiece>) -> (r: (
        u16,
        Option<PieceKindDto>,
    ))
        requires
            from < 64,
            to < 64,
        ensures
            r.0 == squares_mask(from as int, to as int, promo_bits(promotion)),
            r.1 == (match promotion {
                None => None,
                Some(p) => Some(promo_dto(p)),
            }),
            *final(self) == with_promotion(*old(self), promotion),
    {
        let move_mask = ((to as u16) << 6u16) | (from as u16);
        proof {
            assert(move_mask | 0u16 == move_mask) by (bit_vector);
        }
        let promo = match promotion {
            Some(p) => p,
            None => {
                return (move_mask, None);
            },
        };
        let (bits, promotion_value, kind): (u16, u8, PieceKindDto) = match promo {
            PromotionPiece::Queen => (MoveFlag::PromoQueen.bits(), 4, PieceKindDto::Queen),
            PromotionPiece::Rook => (MoveFlag::PromoRook.bits(), 3, PieceKindDto::Rook),
            PromotionPiece::Bishop => (MoveFlag::PromoBishop.bits(), 2, PieceKindDto::Bishop),
            PromotionPiece::Knight => (MoveFlag::PromoKnight.bits(), 1, PieceKindDto::Knight),
        };
        self.promotion = promotion_value;
        (move_mask | bits, Some(kind))
    }

    /// The two changes of a move: its source empties, its destination
    /// holds the moved piece (or the promoted one) of the side to move.
    pub fn build_move_changes(
        &self,
        from: u8,
        to: u8,
        piece_type: PieceKind,
        promoted_kind: Option<PieceKindDto>,
    ) -> (r: Vec<SquareChange>)
        ensures
            changes_view(r@) == seq![
                (notation(from as int), None),
                (
                    notation(to as int),
                    Some(
                        PieceInfo {
                            kind: match promoted_kind {
                                Some(k) => k,
                                None => kind_to_dto(piece_type),
                            },
                            color: color_of(self.player_turn as int),
                        },
                    ),
                ),
            ],
    {
        let kind = match promoted_kind {
            Some(k) => k,
            None => PieceKindDto::from(piece_type),
        };
        let mut v: Vec<SquareChange> = Vec::new();
        v.push(SquareChange::new(self.index_to_notation(from), None));
        v.push(
            SquareChange::new(
                self.index_to_notation(to),
                Some(PieceInfo::new(kind, Color::from(self.player_turn))),
            ),
        );
        proof {
            assert(changes_view(v@) =~= seq![
                (notation(from as int), None),
                (
                    notation(to as int),
                    Some(PieceInfo { kind, color: color_of(self.player_turn as int) }),
                ),
            ]);
        }
        v
    }

    /// The square of the pawn taken en passant goes empty.
    fn build_ep_capture_change(&self, from: u8, to: u8) -> (r: SquareChange)
        requires
            to > from ==> to >= 8,
            to <= from ==> to < 248,
        ensures
            r.square@ == notation(if to > from { to - 8 } else { to + 8 }),
            r.piece is None,
    {
        let captured_idx: u8 = if to > from {
            to - 8
        } else {
            to + 8
        };
        SquareChange::new(self.index_to_notation(captured_idx), None)
    }

    /// Packs the move with the captured piece read from its destination
    /// (adding the capture flag unless the move is a promotion).
    fn build_packed_move(&self, move_mask: u16, to: u8, piece_idx: usize) -> (r: Option<Move>)
        requires
            self.occupancy_ok(),
            self.player_turn < 2,
            to < 64,
            piece_idx < 16,
        ensures
            r is Some,
            r->0.mask_of() == packed_mask(*self, move_mask, to as int),
            r->0.piece_byte() == packed_piece(*self, to as int, piece_idx as int),
            r->0 == Move::from_parts(
                packed_mask(*self, move_mask, to as int),
                packed_piece(*self, to as int, piece_idx as int),
            ),
    {
        let side = self.player_turn;
        let captured_piece_mask: u64 = 1u64 << (to as u64);
        proof {
            assert(captured_piece_mask == single(to as int));
            lemma_mask_test(side_occ(self.pieces, 1 - side), to as int);
            crate::board::incremental::lemma_side_occ_bits(self.pieces, 1 - side);
            lemma_mask_test(self.pieces[1 - side][0].0, to as int);
            lemma_mask_test(self.pieces[1 - side][1].0, to as int);
            lemma_mask_test(self.pieces[1 - side][2].0, to as int);
            lemma_mask_test(self.pieces[1 - side][3].0, to as int);
            lemma_mask_test(self.pieces[1 - side][4].0, to as int);
            lemma_mask_test(self.pieces[1 - side][5].0, to as int);
        }
        if self.color_occupency[(1 - side) as usize].0 & captured_piece_mask == 0 {
            let piece = (6u8 << 4u8) | (piece_idx as u8);
            return Some(Move::new(move_mask, piece));
        }
        let captured_piece_idx = self.get_piece_index(captured_piece_mask, 1 - side);
        if captured_piece_idx > 5 {
            return None;
        }
        let captured_piece = ((captured_piece_idx as u8) << 4u8) | (piece_idx as u8);
        let f = move_mask & 0xF000;
        let promo = f == FLAG_PROMO_QUEEN || f == FLAG_PROMO_ROOK || f == FLAG_PROMO_BISHOP || f
            == FLAG_PROMO_KNIGHT;
        let mask = if promo {
            move_mask
        } else {
            move_mask | FLAG_CAPTURE
        };
        Some(Move::new(mask, captured_piece))
    }

    /// Validates a king move; for castling, also the rook's two changes.
    fn resolve_king_move(&self, from: u8, to: u8) -> (r: Option<(MoveFlag, Option<Vec<SquareChange>>)>)
        requires
            self.wf(),
            from < 64,
            to < 64,
            bit(pb(self.pieces, self.player_turn as int, 5), from as int),
        ensures
            r is None <==> !king_move_legal(*self, from as int, to as int),
            r is Some ==> {
                let pair = r->0;
                let f = pair.0.spec_bits();
                &&& forall|m: Move|
                    m.src() == from && m.dst() == to && m.kind() == 5 && m.flag() == f && m.victim() == (
                    if is_castle(f) {
                        6
                    } else {
                        kind_at(self.pieces, 1 - self.player_turn, to as int)
                    }) ==> #[trigger] is_legal(*self, m)
                &&& f == FLAG_QUIET || is_castle(f)
                &&& f == king_flag(from as int, to as int)
                &&& !is_castle(f) ==> pair.1 is None
                &&& is_castle(f) ==> pair.1 is Some && changes_view(pair.1->0@) == seq![
                    (
                        notation(rook_squares(f, self.player_turn as int).1 as int),
                        Some(PieceInfo { kind: PieceKindDto::Rook, color: color_of(self.player_turn as int) }),
                    ),
                    (notation(rook_squares(f, self.player_turn as int).0 as int), None),
                ]
            },
    {
        let (flag, (rook_from, rook_to)) = self.validate_king_move(from, to);
        let flag = match flag {
            Some(f) => f,
            None => {
                proof {
                    assert forall|m: Move|
                        #[trigger] is_legal(*self, m) && m.kind() == 5 && m.src() == from && m.dst() == to implies false by {
                        lemma_legal_king_any(*self, m);
                    }
                }
                return None;
            },
        };
        let mv = self.build_move(5, from, to, flag.bits());
        proof {
            lemma_legal_king_any(*self, mv);
            assert(is_legal(*self, mv));
        }
        if flag == MoveFlag::KingCastle || flag == MoveFlag::QueenCastle {
            let piece_info = PieceInfo::new(PieceKindDto::Rook, Color::from(self.player_turn));
            let mut changes: Vec<SquareChange> = Vec::new();
            changes.push(SquareChange::new(self.index_to_notation(rook_to), Some(piece_info)));
            changes.push(SquareChange::new(self.index_to_notation(rook_from), None));
            proof {
                assert(changes_view(changes@) =~= seq![
                    (
                        notation(rook_to as int),
                        Some(PieceInfo { kind: PieceKindDto::Rook, color: color_of(self.player_turn as int) }),
                    ),
                    (notation(rook_from as int), None),
                ]);
            }
            return Some((flag, Some(changes)));
        }
        Some((flag, None))
    }
}


/// The flag a valid king request gets: a step, or castling towards the
/// destination.
pub open spec fn king_flag(from: int, to: int) -> u16 {
    if king_rel(from, to) {
        FLAG_QUIET
    } else if to > from {
        FLAG_KING_CASTLE
    } else {
        FLAG_QUEEN_CASTLE
    }
}

/// Flag bits of a request of the piece of kind `k`, before its destination
/// is looked at.
pub open spec fn requested_flags(b: Board, from: int, to: int, k: int, p: Option<PromotionPiece>) -> u16 {
    if k == 5 {
        promo_bits(p) | king_flag(from, to)
    } else {
        request_flags(b, from, to, k, p)
    }
}

/// The move a request of the piece of kind `k` from `from` to `to` plays.
pub open spec fn requested_move(b: Board, from: int, to: int, k: int, p: Option<PromotionPiece>) -> Move {
    Move::from_parts(
        packed_mask(b, squares_mask(from, to, requested_flags(b, from, to, k, p)), to),
        packed_piece(b, to, k),
    )
}

/// The rules allow the request: a legal king move between its squares, or
/// for another piece the generator's form of its move.
pub open spec fn request_valid(b: Board, from: int, to: int, k: int) -> bool {
    if k == 5 {
        king_move_legal(b, from, to)
    } else {
        canonical_legal(b, k, from, to)
    }
}

/// The square changes a played request reports: the castling rook, the
/// moved (or promoted) piece, the pawn taken en passant.
#[verifier::opaque]
pub open spec fn request_changes(b: Board, from: int, to: int, k: int, p: Option<PromotionPiece>) -> Seq<
    (Seq<char>, Option<PieceInfo>),
> {
    let c = b.player_turn as int;
    let color = color_of(c);
    let f = king_flag(from, to);
    let rook = if k == 5 && is_castle(f) {
        seq![
            (notation(rook_squares(f, c).1 as int), Some(PieceInfo { kind: PieceKindDto::Rook, color })),
            (notation(rook_squares(f, c).0 as int), None),
        ]
    } else {
        seq![]
    };
    let kind = match p {
        Some(x) => promo_dto(x),
        None => kind_to_dto(kind_of(k)->0),
    };
    let moved = seq![(notation(from), None), (notation(to), Some(PieceInfo { kind, color }))];
    let ep = if k == 0 && to == b.en_passant_square {
        seq![(notation(if to > from { to - 8 } else { to + 8 }), None)]
    } else {
        seq![]
    };
    rook + moved + ep
}

/// What a request that is played yields: its move, the square changes
/// it reports and its kind.
#[verifier::opaque]
pub open spec fn request_result(
    b: Board,
    from: int,
    to: int,
    k: int,
    p: Option<PromotionPiece>,
    t: (Move, Vec<SquareChange>, MoveType),
) -> bool {
    &&& t.0 == requested_move(b, from, to, k, p)
    &&& changes_view(t.1@) == request_changes(b, from, to, k, p)
    &&& t.2 == request_type(b, from, to, k)
}

/// What playing a request does: when the rules allow it and it stays on
/// the board, the position becomes the one after the requested move (with
/// the promotion asked for recorded) and the answer describes it;
/// otherwise the request is refused with only the promotion recorded.
#[verifier::opaque]
pub open spec fn request_outcome(
    b: Board,
    from: int,
    to: int,
    k: int,
    p: Option<PromotionPiece>,
    r: Legality,
    b2: Board,
) -> bool {
    let mid = with_promotion(b, p);
    let pm = requested_move(mid, from, to, k, p);
    if request_valid(mid, from, to, k) && move_ok(pm, b.player_turn as int) {
        &&& r matches Legality::Legal(resp)
        &&& make_post(mid, pm, b2)
        &&& response_ok(b2, resp)
        &&& resp.move_type == request_type(mid, from, to, k)
        &&& changes_view(resp.changes@) == request_changes(mid, from, to, k, p)
    } else {
        r == Legality::Illegal && b2 == mid
    }
}

/// The kind of move a played request reports.
pub open spec fn request_type(b: Board, from: int, to: int, k: int) -> MoveType {
    if k == 0 && to == b.en_passant_square {
        MoveType::EnPassant
    } else if k == 5 && is_castle(king_flag(from, to)) {
        MoveType::Castling
    } else {
        MoveType::Normal
    }
}

/// The answer to a position reached by a move: its state, and the winner
/// (the side that just moved) when it is mate.
pub open spec fn response_ok(b: Board, r: Response) -> bool {
    &&& r.condition == game_state_of(b)
    &&& r.winner == (if r.condition == GameState::Checkmate {
        Some(color_of(1 - b.player_turn))
    } else {
        None
    })
}

proof fn lemma_changes_concat(a: Seq<SquareChange>, b: Seq<SquareChange>)
    ensures
        changes_view(a + b) == changes_view(a) + changes_view(b),
{
    assert(changes_view(a + b) =~= changes_view(a) + changes_view(b));
}

/// A pawn that moves to a higher square lands past the first rank.
proof fn lemma_pawn_forward(c: int, s: int, t: int, occ: u64, enemy: u64, friendly: u64, ep: int)
    requires
        0 <= c < 2,
        crate::movegen::pseudo_rel(0, c, s, t, occ, enemy, friendly, ep),
    ensures
        t > s ==> t >= 8,
{
}

proof fn lemma_or_assoc(a: u16, b: u16, c: u16)
    ensures
        (a | b) | c == a | (b | c),
{
    assert((a | b) | c == a | (b | c)) by (bit_vector);
}

/// A move with the generator's flag and victim for a piece of kind `k`
/// going from `from` to `to`.
pub(crate) proof fn lemma_canonical_witness(b: Board, from: int, to: int, k: int) -> (m: Move)
    requires
        0 <= k < 6,
        0 <= from < 64,
        0 <= to < 64,
        b.player_turn < 2,
    ensures
        m.src() == from,
        m.dst() == to,
        m.kind() == k,
        m.flag() == canon_flag(b, k, from, to),
        m.victim() == (if m.flag() == FLAG_EP_CAPTURE {
            6
        } else {
            kind_at(b.pieces, 1 - b.player_turn, to)
        }),
{
    let cf = canon_flag(b, k, from, to);
    let v: u8 = if cf == FLAG_EP_CAPTURE {
        6
    } else {
        kind_at(b.pieces, 1 - b.player_turn, to) as u8
    };
    let mask = (from as u16) | ((to as u16) << 6u16) | cf;
    let piece = (v << 4u8) | (k as u8);
    Move::lemma_from_parts(mask, piece);
    lemma_flag_bits(cf);
    crate::movegen::lemma_pack(from as u16, to as u16, cf, k as u8, v);
    Move::from_parts(mask, piece)
}

impl Board {
    /// Whether `mv` keeps to the squares of the board for the side to move.
    fn playable(&self, mv: Move) -> (r: bool)
        requires
            self.player_turn < 2,
        ensures
            r == move_ok(mv, self.player_turn as int),
    {
        fits_mover(mv, self.player_turn)
    }

    /// The answer to the move just played: the changes it made, its kind,
    /// the state of the game and the winner on mate.
    pub fn build_response(&self, square_changes: Vec<SquareChange>, move_type: MoveType) -> (r: Response)
        requires
            self.wf(),
        ensures
            response_ok(*self, r),
            r.changes@ == square_changes@,
            r.move_type == move_type,
    {
        let game_state = self.get_game_state();
        let winner = if game_state == GameState::Checkmate {
            Some(Color::from(1 - self.player_turn))
        } else {
            None
        };
        Response { changes: square_changes, condition: game_state, winner, move_type }
    }

    /// The move, square changes and kind of a king request, when a king
    /// move between its squares is legal and stays on the board.
    fn king_request(
        &self,
        from: u8,
        to: u8,
        move_mask: u16,
        promoted_kind: Option<PieceKindDto>,
        promotion: Option<PromotionPiece>,
    ) -> (r: Option<(Move, Vec<SquareChange>, MoveType)>)
        requires
            self.wf(),
            from < 64,
            to < 64,
            kind_at(self.pieces, self.player_turn as int, from as int) == 5,
            move_mask == squares_mask(from as int, to as int, promo_bits(promotion)),
            promoted_kind == (match promotion {
                None => None,
                Some(p) => Some(promo_dto(p)),
            }),
        ensures
            r is Some <==> request_valid(*self, from as int, to as int, 5) && move_ok(
                requested_move(*self, from as int, to as int, 5, promotion),
                self.player_turn as int,
            ),
            r is Some ==> request_result(*self, from as int, to as int, 5, promotion, r->0),
    {
        let resolved = self.resolve_king_move(from, to);
        match resolved {
            None => None,
            Some(x) => self.assemble_king(from, to, move_mask, x.0, x.1, promoted_kind, promotion),
        }
    }

    /// Puts a validated king request together: mask, changes, kind.
    fn assemble_king(
        &self,
        from: u8,
        to: u8,
        move_mask: u16,
        flag: MoveFlag,
        castle_changes: Option<Vec<SquareChange>>,
        promoted_kind: Option<PieceKindDto>,
        promotion: Option<PromotionPiece>,
    ) -> (r: Option<(Move, Vec<SquareChange>, MoveType)>)
        requires
            self.occupancy_ok(),
            self.player_turn < 2,
            from < 64,
            to < 64,
            move_mask == squares_mask(from as int, to as int, promo_bits(promotion)),
            promoted_kind == (match promotion {
                None => None,
                Some(p) => Some(promo_dto(p)),
            }),
            flag.spec_bits() == king_flag(from as int, to as int),
            flag.spec_bits() == FLAG_QUIET || is_castle(flag.spec_bits()),
            !is_castle(flag.spec_bits()) ==> castle_changes is None,
            is_castle(flag.spec_bits()) ==> castle_changes is Some && changes_view(castle_changes->0@)
                == seq![
                (
                    notation(rook_squares(flag.spec_bits(), self.player_turn as int).1 as int),
                    Some(PieceInfo { kind: PieceKindDto::Rook, color: color_of(self.player_turn as int) }),
                ),
                (notation(rook_squares(flag.spec_bits(), self.player_turn as int).0 as int), None),
            ],
        ensures
            r is Some <==> move_ok(
                requested_move(*self, from as int, to as int, 5, promotion),
                self.player_turn as int,
            ),
            r is Some ==> request_result(*self, from as int, to as int, 5, promotion, r->0),
    {
        let mut square_changes: Vec<SquareChange> = Vec::new();
        let mut move_type = MoveType::Normal;
        proof {
            lemma_or_assoc((((to as u16) << 6u16) | (from as u16)), promo_bits(promotion), flag.spec_bits());
        }
        let mask = move_mask | flag.bits();
        if let Some(mut changes) = castle_changes {
            square_changes.append(&mut changes);
            move_type = MoveType::Castling;
        }
        let mut moved = self.build_move_changes(from, to, PieceKind::King, promoted_kind);
        let ghost rook = square_changes@;
        let ghost moved_view = moved@;
        square_changes.append(&mut moved);
        proof {
            lemma_changes_concat(rook, moved_view);
        }
        let new_move = self.build_packed_move(mask, to, 5);
        let new_move = match new_move {
            Some(m) => m,
            None => {
                return None;
            },
        };
        if !self.playable(new_move) {
            return None;
        }
        proof {
            reveal(request_result);
            reveal(request_changes);
            assert(changes_view(square_changes@) =~= request_changes(*self, from as int, to as int, 5, promotion));
        }
        Some((new_move, square_changes, move_type))
    }

    /// The move, square changes and kind of a request of a piece other than
    /// the king, when the generator's form of the move is legal and the
    /// move stays on the board.
    fn piece_request(
        &self,
        from: u8,
        to: u8,
        piece_idx: usize,
        move_mask: u16,
        promoted_kind: Option<PieceKindDto>,
        promotion: Option<PromotionPiece>,
    ) -> (r: Option<(Move, Vec<SquareChange>, MoveType)>)
        requires
            self.wf(),
            from < 64,
            to < 64,
            piece_idx < 5,
            kind_at(self.pieces, self.player_turn as int, from as int) == piece_idx,
            move_mask == squares_mask(from as int, to as int, promo_bits(promotion)),
            promoted_kind == (match promotion {
                None => None,
                Some(p) => Some(promo_dto(p)),
            }),
        ensures
            r is Some <==> request_valid(*self, from as int, to as int, piece_idx as int) && move_ok(
                requested_move(*self, from as int, to as int, piece_idx as int, promotion),
                self.player_turn as int,
            ),
            r is Some ==> request_result(*self, from as int, to as int, piece_idx as int, promotion, r->0),
    {
        let piece_type = PieceKind::from_idx(piece_idx);
        let ok = self.validate_move(piece_type, from, to);
        proof {
            let m = lemma_canonical_witness(*self, from as int, to as int, piece_idx as int);
            crate::board::validation::lemma_legal_piece(*self, m);
            if ok {
                assert(is_legal(*self, m));
                if piece_idx == 0 {
                    lemma_pawn_forward(
                        self.player_turn as int,
                        from as int,
                        to as int,
                        crate::board::all_occ(self.pieces),
                        side_occ(self.pieces, 1 - self.player_turn),
                        side_occ(self.pieces, self.player_turn as int),
                        self.en_passant_square as int,
                    );
                }
            } else {
                assert(!is_legal(*self, m));
            }
        }
        if !ok {
            return None;
        }
        self.assemble_piece(from, to, piece_idx, move_mask, promoted_kind, promotion)
    }

    /// Puts a validated request of a piece other than the king together:
    /// mask, changes, kind.
    fn assemble_piece(
        &self,
        from: u8,
        to: u8,
        piece_idx: usize,
        move_mask: u16,
        promoted_kind: Option<PieceKindDto>,
        promotion: Option<PromotionPiece>,
    ) -> (r: Option<(Move, Vec<SquareChange>, MoveType)>)
        requires
            self.occupancy_ok(),
            self.player_turn < 2,
            from < 64,
            to < 64,
            piece_idx < 5,
            move_mask == squares_mask(from as int, to as int, promo_bits(promotion)),
            promoted_kind == (match promotion {
                None => None,
                Some(p) => Some(promo_dto(p)),
            }),
            piece_idx == 0 && to > from ==> to >= 8,
        ensures
            r is Some <==> move_ok(
                requested_move(*self, from as int, to as int, piece_idx as int, promotion),
                self.player_turn as int,
            ),
            r is Some ==> request_result(*self, from as int, to as int, piece_idx as int, promotion, r->0),
    {
        let piece_type = PieceKind::from_idx(piece_idx);
        let mut square_changes = self.build_move_changes(from, to, piece_type, promoted_kind);
        let mut move_type = MoveType::Normal;
        let mut mask = move_mask;
        if piece_idx == 0 {
            let diff: u8 = if from > to {
                from - to
            } else {
                to - from
            };
            proof {
                lemma_or_assoc((((to as u16) << 6u16) | (from as u16)), promo_bits(promotion), FLAG_DOUBLE_PUSH);
            }
            if diff == 16 {
                mask = mask | FLAG_DOUBLE_PUSH;
            }
            proof {
                let f1 = if diff == 16 {
                    promo_bits(promotion) | FLAG_DOUBLE_PUSH
                } else {
                    promo_bits(promotion)
                };
                lemma_or_assoc((((to as u16) << 6u16) | (from as u16)), f1, FLAG_EP_CAPTURE);
            }
            if self.en_passant_square == to {
                let ghost before = square_changes@;
                let ch = self.build_ep_capture_change(from, to);
                let ghost chv = (ch.square@, ch.piece);
                square_changes.push(ch);
                proof {
                    assert(changes_view(square_changes@) =~= changes_view(before).push(chv));
                }
                move_type = MoveType::EnPassant;
                mask = mask | FLAG_EP_CAPTURE;
            }
        }
        let new_move = self.build_packed_move(mask, to, piece_idx);
        let new_move = match new_move {
            Some(m) => m,
            None => {
                return None;
            },
        };
        if !self.playable(new_move) {
            return None;
        }
        proof {
            reveal(request_result);
            reveal(request_changes);
            assert(changes_view(square_changes@) =~= request_changes(
                *self,
                from as int,
                to as int,
                piece_idx as int,
                promotion,
            ));
        }
        Some((new_move, square_changes, move_type))
    }

    /// Records the promotion asked for and plays the request of the piece
    /// of kind `piece_idx` from `from` to `to` when the rules allow it.
    fn play_request(&mut self, from: u8, to: u8, piece_idx: usize, promotion: Option<PromotionPiece>) -> (r:
        Legality)
        requires
            old(self).wf(),
            old(self).halfmove_clock < 0xFF,
            old(self).fullmove_clock < 0xFFFF,
            from < 64,
            to < 64,
            piece_idx <= 5,
            kind_at(old(self).pieces, old(self).player_turn as int, from as int) == piece_idx,
        ensures
            request_outcome(*old(self), from as int, to as int, piece_idx as int, promotion, r, *final(self)),
    {
        let (move_mask, promoted_kind) = self.apply_promotion_flags(from, to, promotion);
        let request = if piece_idx == 5 {
            self.king_request(from, to, move_mask, promoted_kind, promotion)
        } else {
            self.piece_request(from, to, piece_idx, move_mask, promoted_kind, promotion)
        };
        let (new_move, square_changes, move_type) = match request {
            Some(t) => t,
            None => {
                proof {
                    reveal(request_outcome);
                }
                return Legality::Illegal;
            },
        };
        proof {
            reveal(request_result);
        }
        self.make_move(new_move);
        let resp = self.build_response(square_changes, move_type);
        proof {
            reveal(request_outcome);
        }
        Legality::Legal(resp)
    }

    /// Plays a move the interface asks for, when the game is on, both
    /// squares are on the board, a piece of the side to move stands on the
    /// first and the rules allow the move; answers with the squares it
    /// changed and the state of the game.
    pub fn parse_react_move(&mut self, move_info: MoveInfo) -> (r: Result<Legality, CommandError>)
        requires
            old(self).wf(),
            old(self).halfmove_clock < 0xFF,
            old(self).fullmove_clock < 0xFFFF,
            move_info.from@.len() >= 2,
            move_info.to@.len() >= 2,
        ensures
            ({
                let b = *old(self);
                let fi = notation_index(move_info.from@) as int;
                let ti = notation_index(move_info.to@) as int;
                let k = kind_at(b.pieces, b.player_turn as int, fi);
                if game_state_of(b) != GameState::InProgress {
                    r == Err::<Legality, CommandError>(CommandError::GameAlreadyOver) && *final(self) == b
                } else if fi > 63 {
                    r == Err::<Legality, CommandError>(CommandError::InvalidSquareIndex { square: fi as u16 })
                        && *final(self) == b
                } else if ti > 63 {
                    r == Err::<Legality, CommandError>(CommandError::InvalidSquareIndex { square: ti as u16 })
                        && *final(self) == b
                } else if k == 6 {
                    r == Err::<Legality, CommandError>(CommandError::EmptySquare { square: fi as u8 })
                        && *final(self) == b
                } else {
                    r matches Ok(l) && request_outcome(b, fi, ti, k, move_info.promotion, l, *final(self))
                }
            }),
    {
        let ghost b = *self;
        if self.get_game_state() != GameState::InProgress {
            return Err(CommandError::GameAlreadyOver);
        }
        let (from, to) = match self.parse_move_squares(&move_info) {
            Ok(squares) => squares,
            Err(e) => {
                return Err(e);
            },
        };
        let piece_idx = self.get_piece_index(1u64 << (from as u64), self.player_turn);
        proof {
            let fi = from as int;
            assert(1u64 << (from as u64) == single(fi));
            lemma_mask_test(self.pieces[b.player_turn as int][0].0, fi);
            lemma_mask_test(self.pieces[b.player_turn as int][1].0, fi);
            lemma_mask_test(self.pieces[b.player_turn as int][2].0, fi);
            lemma_mask_test(self.pieces[b.player_turn as int][3].0, fi);
            lemma_mask_test(self.pieces[b.player_turn as int][4].0, fi);
            lemma_mask_test(self.pieces[b.player_turn as int][5].0, fi);
            assert(piece_idx as int == kind_at(b.pieces, b.player_turn as int, fi));
        }
        if piece_idx > 5 {
            return Err(CommandError::EmptySquare { square: from });
        }
        Ok(self.play_request(from, to, piece_idx, move_info.promotion))
    }
}

} // verus!
