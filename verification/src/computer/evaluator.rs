//! Static evaluation: material, piece-square tables blended by game phase,
//! piece mobility and pawn advancement, from the side to move's view.
use vstd::prelude::*;
use crate::bitboard::BitBoard;
use crate::bits::{bit, popcount, count_ones};
use crate::types::{PieceKind, centipawns};
use crate::board::{Board, pb, all_occ};
use crate::board::state::{squares, dest_bits, lemma_lowest_pop, is_dest_word};
use crate::computer::tables::{PAWN_MG, KNIGHT_MG, BISHOP_MG, ROOK_MG, QUEEN_MG, KING_MG, PAWN_EG,
    KNIGHT_EG, BISHOP_EG, ROOK_EG, QUEEN_EG, KING_EG, KNIGHT_MOBILITY_MG, BISHOP_MOBILITY_MG,
    ROOK_MOBILITY_MG, QUEEN_MOBILITY_MG, KING_MOBILITY_MG, KNIGHT_MOBILITY_EG, BISHOP_MOBILITY_EG,
    ROOK_MOBILITY_EG, QUEEN_MOBILITY_EG, KING_MOBILITY_EG, PAWN_ADVANCE_BONUS,
    PAWN_BLOCKED_PENALTY, PHASE_WEIGHTS, MAX_PHASE};

verus! {

broadcast use vstd::array::group_array_axioms;

/// Integer division rounding towards zero, by a positive divisor.
pub open spec fn tdiv(a: int, b: int) -> int {
    if a >= 0 {
        a / b
    } else {
        -((-a) / b)
    }
}

/// A midgame and an endgame score blended by the phase: all midgame at
/// the full phase, all endgame at zero.
pub open spec fn taper(mg: int, eg: int, phase: int) -> int {
    tdiv(mg * phase + eg * (24 - phase), 24)
}

/// The table square of a piece of color `c` on `s`: the tables list the
/// eighth rank first, so white squares are mirrored.
pub open spec fn table_sq(c: int, s: int) -> int {
    if c == 0 {
        (7 - s / 8) * 8 + s % 8
    } else {
        s
    }
}

pub open spec fn pst_mg(k: int, s: int) -> int {
    if k == 0 {
        PAWN_MG[s] as int
    } else if k == 1 {
        KNIGHT_MG[s] as int
    } else if k == 2 {
        BISHOP_MG[s] as int
    } else if k == 3 {
        ROOK_MG[s] as int
    } else if k == 4 {
        QUEEN_MG[s] as int
    } else {
        KING_MG[s] as int
    }
}

pub open spec fn pst_eg(k: int, s: int) -> int {
    if k == 0 {
        PAWN_EG[s] as int
    } else if k == 1 {
        KNIGHT_EG[s] as int
    } else if k == 2 {
        BISHOP_EG[s] as int
    } else if k == 3 {
        ROOK_EG[s] as int
    } else if k == 4 {
        QUEEN_EG[s] as int
    } else {
        KING_EG[s] as int
    }
}

pub open spec fn imin(a: int, b: int) -> int {
    if a < b {
        a
    } else {
        b
    }
}

/// Midgame mobility bonus of a piece of kind `k` with `n` safe squares
/// (the tables stop at their last entry).
pub open spec fn mob_mg(k: int, n: int) -> int {
    if k == 1 {
        KNIGHT_MOBILITY_MG[imin(n, 8)] as int
    } else if k == 2 {
        BISHOP_MOBILITY_MG[imin(n, 13)] as int
    } else if k == 3 {
        ROOK_MOBILITY_MG[imin(n, 14)] as int
    } else if k == 4 {
        QUEEN_MOBILITY_MG[imin(n, 27)] as int
    } else {
        KING_MOBILITY_MG[imin(n, 8)] as int
    }
}

pub open spec fn mob_eg(k: int, n: int) -> int {
    if k == 1 {
        KNIGHT_MOBILITY_EG[imin(n, 8)] as int
    } else if k == 2 {
        BISHOP_MOBILITY_EG[imin(n, 13)] as int
    } else if k == 3 {
        ROOK_MOBILITY_EG[imin(n, 14)] as int
    } else if k == 4 {
        QUEEN_MOBILITY_EG[imin(n, 27)] as int
    } else {
        KING_MOBILITY_EG[imin(n, 8)] as int
    }
}

/// Material weight of the pieces of kinds below `k`, both colors.
pub open spec fn phase_sum(b: Board, k: int) -> int
    decreases k,
{
    if k <= 0 {
        0
    } else {
        phase_sum(b, k - 1) + (popcount(pb(b.pieces, 0, k - 1)) + popcount(pb(b.pieces, 1, k - 1)))
            * PHASE_WEIGHTS[k - 1] as int
    }
}

/// Game phase: the material weight, at most the full phase.
pub open spec fn phase_of(b: Board) -> int {
    imin(phase_sum(b, 6), 24)
}

/// Squares a piece of color `c` counts for mobility: empty, and not
/// attacked by the other side.
pub open spec fn safe_squares(b: Board, c: int) -> u64 {
    !b.attack_mask[1 - c].0 & !b.total_occupency.0
}

/// Advancement bonus of a pawn on table square `ts`, with a penalty when
/// none of its moves leads to an empty square. The tables list the far rank
/// first, so `7 - ts / 8` is the pawn's rank counted from its own side.
pub open spec fn pawn_bonus(b: Board, ts: int, moves: u64) -> int {
    let r = 7 - ts / 8;
    let blocked = moves & !b.total_occupency.0 == 0;
    PAWN_ADVANCE_BONUS[r] as int + (if blocked {
        PAWN_BLOCKED_PENALTY[r] as int
    } else {
        0
    })
}

/// Mobility term of the piece of kind `k` and color `c` on `s`.
pub open spec fn mobility(b: Board, c: int, k: int, s: int, phase: int) -> int {
    let moves = dest_bits(b, c, k, s, false);
    if k == 0 {
        pawn_bonus(b, table_sq(c, s), moves)
    } else {
        let n = popcount(moves & safe_squares(b, c)) as int;
        taper(mob_mg(k, n), mob_eg(k, n), phase)
    }
}

/// What the piece of kind `k` and color `c` on `s` is worth.
pub open spec fn piece_term(b: Board, c: int, k: int, s: int, phase: int) -> int {
    let ts = table_sq(c, s);
    centipawns(k) as int + taper(pst_mg(k, ts), pst_eg(k, ts), phase) + mobility(b, c, k, s, phase)
}

/// Worth of the pieces of kind `k` and color `c` on the squares `sq`.
pub open spec fn terms_sum(b: Board, c: int, k: int, sq: Seq<int>, phase: int) -> int
    decreases sq.len(),
{
    if sq.len() == 0 {
        0
    } else {
        piece_term(b, c, k, sq[0], phase) + terms_sum(b, c, k, sq.drop_first(), phase)
    }
}

/// Worth of the pieces of color `c` of the kinds below `k`.
pub open spec fn kinds_sum(b: Board, c: int, k: int, phase: int) -> int
    decreases k,
{
    if k <= 0 {
        0
    } else {
        kinds_sum(b, c, k - 1, phase) + terms_sum(b, c, k - 1, squares(pb(b.pieces, c, k - 1)), phase)
    }
}

/// The evaluation: the side to move's pieces' worth less the other side's.
#[verifier::opaque]
pub open spec fn eval_of(b: Board) -> int {
    let p = phase_of(b);
    kinds_sum(b, b.player_turn as int, 6, p) - kinds_sum(b, 1 - b.player_turn, 6, p)
}

pub struct Evaluator<'a> {
    board: &'a Board,
}

impl<'a> Evaluator<'a> {
    pub closed spec fn board_of(&self) -> Board {
        *self.board
    }

    pub fn new(board: &'a Board) -> (r: Evaluator<'a>)
        ensures
            r.board_of() == *board,
    {
        Evaluator { board }
    }

    /// The evaluation of the position from the side to move's view.
    pub fn static_eval(&self) -> (r: i32)
        requires
            self.board_of().move_gen.wf(),
            self.board_of().occupancy_ok(),
            self.board_of().player_turn < 2,
        ensures
            r as int == eval_of(self.board_of()),
            -1100000 <= r <= 1100000,
    {
        proof {
            reveal(eval_of);
        }
        let phase = self.compute_phase();
        let white = self.side_score(0, phase);
        let black = self.side_score(1, phase);
        if self.board.player_turn == 0 {
            white - black
        } else {
            black - white
        }
    }

    /// Worth of the pieces of one color.
    fn side_score(&self, color: usize, phase: i32) -> (r: i32)
        requires
            self.board_of().move_gen.wf(),
            self.board_of().occupancy_ok(),
            color < 2,
            0 <= phase <= 24,
        ensures
            r as int == kinds_sum(self.board_of(), color as int, 6, phase as int),
            -504000 <= r <= 504000,
    {
        let mut score: i32 = 0;
        let mut piece_idx: usize = 0;
        while piece_idx < 6
            invariant
                piece_idx <= 6,
                color < 2,
                0 <= phase <= 24,
                self.board_of().move_gen.wf(),
                self.board_of().occupancy_ok(),
                score as int == kinds_sum(self.board_of(), color as int, piece_idx as int, phase as int),
                -84000 * piece_idx <= score <= 84000 * piece_idx,
            decreases 6 - piece_idx,
        {
            let t = self.kind_score(color, piece_idx, phase);
            score = score + t;
            piece_idx = piece_idx + 1;
        }
        score
    }

    /// Worth of the pieces of one kind and color.
    fn kind_score(&self, color: usize, piece_idx: usize, phase: i32) -> (r: i32)
        requires
            self.board_of().move_gen.wf(),
            self.board_of().occupancy_ok(),
            color < 2,
            piece_idx < 6,
            0 <= phase <= 24,
        ensures
            r as int == terms_sum(
                self.board_of(),
                color as int,
                piece_idx as int,
                squares(pb(self.board_of().pieces, color as int, piece_idx as int)),
                phase as int,
            ),
            -84000 <= r <= 84000,
    {
        let ghost b = self.board_of();
        let ghost c = color as int;
        let ghost k = piece_idx as int;
        let mut pieces: BitBoard = self.board.pieces[color][piece_idx];
        let ghost orig = pieces.0;
        let mut score: i32 = 0;
        let mut n: u32 = 0;
        let mut lo: u32 = 0;
        proof {
            crate::bits::lemma_bit_zero();
        }
        while pieces.0 != 0
            invariant
                color < 2,
                piece_idx < 6,
                0 <= phase <= 24,
                b == self.board_of(),
                c == color,
                k == piece_idx,
                b.move_gen.wf(),
                b.occupancy_ok(),
                orig == pb(b.pieces, c, k),
                terms_sum(b, c, k, squares(orig), phase as int) == score as int + terms_sum(
                    b,
                    c,
                    k,
                    squares(pieces.0),
                    phase as int,
                ),
                n <= lo <= 64,
                forall|i: int| #[trigger] bit(pieces.0, i) ==> i >= lo,
                -1300 * n <= score <= 1300 * n,
            decreases pieces.0,
        {
            let ghost before = pieces.0;
            let square = match pieces.pop_lsb() {
                Some(s) => s,
                None => 0,
            };
            proof {
                lemma_lowest_pop(before);
                assert(squares(before) == seq![square as int] + squares(pieces.0));
                assert((seq![square as int] + squares(pieces.0)).drop_first() =~= squares(pieces.0));
            }
            let t = self.piece_score(color, piece_idx, square, phase);
            score = score + t;
            n = n + 1;
            lo = square as u32 + 1;
        }
        score
    }

    /// Worth of the piece of kind `piece_idx` and color `color` on `square`.
    fn piece_score(&self, color: usize, piece_idx: usize, square: u8, phase: i32) -> (r: i32)
        requires
            self.board_of().move_gen.wf(),
            self.board_of().occupancy_ok(),
            color < 2,
            piece_idx < 6,
            square < 64,
            0 <= phase <= 24,
        ensures
            r as int == piece_term(self.board_of(), color as int, piece_idx as int, square as int, phase as int),
            -1300 <= r <= 1300,
    {
        let sq: u8 = if color == 0 {
            (7 - square / 8) * 8 + square % 8
        } else {
            square
        };
        let (mg, eg) = pst(piece_idx, sq as usize);
        let kind = PieceKind::from_idx(piece_idx);
        let mobility = self.compute_mobility_bonus(kind, square, phase, sq, color);
        kind.value() + self.interpolate(mg, eg, phase) + mobility
    }

    /// Mobility term of a piece: for a pawn its advancement bonus, for the
    /// others the blended bonus of the number of safe squares it can go to.
    fn compute_mobility_bonus(&self, piece: PieceKind, idx: u8, phase: i32, sq: u8, color: usize) -> (r:
        i32)
        requires
            self.board_of().move_gen.wf(),
            self.board_of().occupancy_ok(),
            idx < 64,
            sq < 64,
            sq as int == table_sq(color as int, idx as int),
            color < 2,
            0 <= phase <= 24,
        ensures
            r as int == mobility(self.board_of(), color as int, piece.idx() as int, idx as int, phase as int),
            -200 <= r <= 200,
    {
        let b = self.board;
        let moves = match b.move_gen.get_legal_moves_by_piece(
            piece,
            b.total_occupency.0,
            idx as usize,
            color as u8,
            b.color_occupency[1 - color].0,
            b.color_occupency[color].0,
            false,
            b.en_passant_square,
        ) {
            Some(m) => m.0,
            None => 0,
        };
        proof {
            crate::board::state::lemma_dest_bits(*b, color as int, piece.idx() as int, idx as int, false, moves);
        }
        let k = piece.to_u8();
        if k == 0 {
            return self.compute_pawn_bonus(sq, moves);
        }
        let safe = b.unoccupied_or_safe(1 - color);
        let count = count_ones(moves & safe.0);
        let (mg_score, eg_score): (i32, i32) = if k == 1 {
            let i: usize = if count > 8 { 8 } else { count as usize };
            (KNIGHT_MOBILITY_MG[i], KNIGHT_MOBILITY_EG[i])
        } else if k == 2 {
            let i: usize = if count > 13 { 13 } else { count as usize };
            (BISHOP_MOBILITY_MG[i], BISHOP_MOBILITY_EG[i])
        } else if k == 3 {
            let i: usize = if count > 14 { 14 } else { count as usize };
            (ROOK_MOBILITY_MG[i], ROOK_MOBILITY_EG[i])
        } else if k == 4 {
            let i: usize = if count > 27 { 27 } else { count as usize };
            (QUEEN_MOBILITY_MG[i], QUEEN_MOBILITY_EG[i])
        } else {
            let i: usize = if count > 8 { 8 } else { count as usize };
            (KING_MOBILITY_MG[i], KING_MOBILITY_EG[i])
        };
        self.interpolate(mg_score, eg_score, phase)
    }

    /// Advancement bonus of a pawn on table square `sq`, with the blocked
    /// penalty when none of its moves leads to an empty square.
    fn compute_pawn_bonus(&self, sq: u8, moves: u64) -> (r: i32)
        requires
            sq < 64,
        ensures
            r as int == pawn_bonus(self.board_of(), sq as int, moves),
            -15 <= r <= 55,
    {
        let rank: usize = (7 - sq / 8) as usize;
        let is_blocked: i32 = if moves & !self.board.total_occupency.0 == 0 {
            1
        } else {
            0
        };
        PAWN_ADVANCE_BONUS[rank] + PAWN_BLOCKED_PENALTY[rank] * is_blocked
    }

    /// Material weight on the board, at most the full phase.
    fn compute_phase(&self) -> (r: i32)
        ensures
            r as int == phase_of(self.board_of()),
            0 <= r <= 24,
    {
        let mut phase: i32 = 0;
        let mut piece_idx: usize = 0;
        while piece_idx < 6
            invariant
                piece_idx <= 6,
                phase as int == phase_sum(self.board_of(), piece_idx as int),
                0 <= phase <= 512 * piece_idx,
            decreases 6 - piece_idx,
        {
            proof {
                crate::bits::lemma_popcount_bound(self.board.pieces[0][piece_idx as int].0);
                crate::bits::lemma_popcount_bound(self.board.pieces[1][piece_idx as int].0);
            }
            let w = count_ones(self.board.pieces[0][piece_idx].0);
            let bl = count_ones(self.board.pieces[1][piece_idx].0);
            let both = (w + bl) as i32;
            let weight = PHASE_WEIGHTS[piece_idx];
            proof {
                assert(0 <= weight <= 4);
                assert(0 <= both * weight <= 512) by (nonlinear_arith)
                    requires
                        0 <= both <= 128,
                        0 <= weight <= 4,
                ;
            }
            phase = phase + both * weight;
            piece_idx = piece_idx + 1;
        }
        if phase > MAX_PHASE {
            MAX_PHASE
        } else {
            phase
        }
    }

    /// Blends a midgame and an endgame score by the phase.
    fn interpolate(&self, mg_score: i32, eg_score: i32, phase: i32) -> (r: i32)
        requires
            -200 <= mg_score <= 200,
            -200 <= eg_score <= 200,
            0 <= phase <= 24,
        ensures
            r as int == taper(mg_score as int, eg_score as int, phase as int),
            -200 <= r <= 200,
    {
        proof {
            assert(-4800 <= mg_score * phase + eg_score * (24 - phase) <= 4800) by (nonlinear_arith)
                requires
                    -200 <= mg_score <= 200,
                    -200 <= eg_score <= 200,
                    0 <= phase <= 24,
            ;
        }
        (mg_score * phase + eg_score * (MAX_PHASE - phase)) / MAX_PHASE
    }
}

/// Midgame and endgame table values of kind `k` on table square `s`.
fn pst(k: usize, s: usize) -> (r: (i32, i32))
    requires
        k < 6,
        s < 64,
    ensures
        r.0 as int == pst_mg(k as int, s as int),
        r.1 as int == pst_eg(k as int, s as int),
        -200 <= r.0 <= 200,
        -200 <= r.1 <= 200,
{
    if k == 0 {
        (PAWN_MG[s], PAWN_EG[s])
    } else if k == 1 {
        (KNIGHT_MG[s], KNIGHT_EG[s])
    } else if k == 2 {
        (BISHOP_MG[s], BISHOP_EG[s])
    } else if k == 3 {
        (ROOK_MG[s], ROOK_EG[s])
    } else if k == 4 {
        (QUEEN_MG[s], QUEEN_EG[s])
    } else {
        (KING_MG[s], KING_EG[s])
    }
}

/// Two boards that agree on everything the evaluation reads but the side
/// to move.
pub open spec fn same_but_turn(b1: Board, b2: Board) -> bool {
    &&& b2.pieces == b1.pieces
    &&& b2.en_passant_square == b1.en_passant_square
    &&& b2.attack_mask == b1.attack_mask
    &&& b2.total_occupency == b1.total_occupency
}

proof fn lemma_terms_sum_same(b1: Board, b2: Board, c: int, k: int, sq: Seq<int>, phase: int)
    requires
        same_but_turn(b1, b2),
    ensures
        terms_sum(b1, c, k, sq, phase) == terms_sum(b2, c, k, sq, phase),
    decreases sq.len(),
{
    if sq.len() > 0 {
        lemma_terms_sum_same(b1, b2, c, k, sq.drop_first(), phase);
    }
}

proof fn lemma_kinds_sum_same(b1: Board, b2: Board, c: int, k: int, phase: int)
    requires
        same_but_turn(b1, b2),
    ensures
        kinds_sum(b1, c, k, phase) == kinds_sum(b2, c, k, phase),
    decreases k,
{
    if k > 0 {
        lemma_kinds_sum_same(b1, b2, c, k - 1, phase);
        lemma_terms_sum_same(b1, b2, c, k - 1, squares(pb(b1.pieces, c, k - 1)), phase);
    }
}

proof fn lemma_phase_sum_same(b1: Board, b2: Board, k: int)
    requires
        b1.pieces == b2.pieces,
    ensures
        phase_sum(b1, k) == phase_sum(b2, k),
    decreases k,
{
    if k > 0 {
        lemma_phase_sum_same(b1, b2, k - 1);
    }
}

/// The evaluation is zero-sum in the side to move: handing the move to the
/// other side, with nothing else that the evaluation reads changed, negates
/// the score.
pub proof fn lemma_eval_side_flip(b1: Board, b2: Board)
    requires
        b1.player_turn < 2,
        b2.player_turn == 1 - b1.player_turn,
        same_but_turn(b1, b2),
    ensures
        eval_of(b2) == -eval_of(b1),
{
    reveal(eval_of);
    lemma_phase_sum_same(b1, b2, 6);
    let p = phase_of(b1);
    lemma_kinds_sum_same(b1, b2, 0, 6, p);
    lemma_kinds_sum_same(b1, b2, 1, 6, p);
}

/// A blend of two scores in `lo ..= hi` stays in `lo ..= hi`.
proof fn lemma_taper_bounds(mg: int, eg: int, phase: int, lo: int, hi: int)
    requires
        lo <= mg <= hi,
        lo <= eg <= hi,
        0 <= phase <= 24,
    ensures
        lo <= taper(mg, eg, phase) <= hi,
{
    let a = mg * phase + eg * (24 - phase);
    assert(24 * lo <= a <= 24 * hi) by (nonlinear_arith)
        requires
            lo <= mg <= hi,
            lo <= eg <= hi,
            0 <= phase <= 24,
            a == mg * phase + eg * (24 - phase),
    ;
    if a >= 0 {
        assert(lo <= a / 24 <= hi) by (nonlinear_arith)
            requires
                24 * lo <= a <= 24 * hi,
                a >= 0,
        ;
    } else {
        assert(lo <= -((-a) / 24) <= hi) by (nonlinear_arith)
            requires
                24 * lo <= a <= 24 * hi,
                a < 0,
        ;
    }
}

/// The piece-square values of each kind lie in these ranges.
proof fn lemma_pst_bounds(k: int, s: int)
    requires
        0 <= k < 6,
        0 <= s < 64,
    ensures
        k == 0 ==> -35 <= pst_mg(k, s) <= 187 && -35 <= pst_eg(k, s) <= 187,
        k == 1 ==> -167 <= pst_mg(k, s) <= 129 && -167 <= pst_eg(k, s) <= 129,
        k == 2 ==> -82 <= pst_mg(k, s) <= 59 && -82 <= pst_eg(k, s) <= 59,
        k == 3 ==> -71 <= pst_mg(k, s) <= 80 && -71 <= pst_eg(k, s) <= 80,
        k == 4 ==> -50 <= pst_mg(k, s) <= 59 && -50 <= pst_eg(k, s) <= 59,
        k == 5 ==> -74 <= pst_mg(k, s) <= 45 && -74 <= pst_eg(k, s) <= 45,
{
}

/// The mobility term of each kind lies in these ranges.
proof fn lemma_mobility_bounds(b: Board, c: int, k: int, s: int, phase: int)
    requires
        0 <= c < 2,
        0 <= k < 6,
        0 <= s < 64,
        0 <= phase <= 24,
    ensures
        k == 0 ==> -15 <= mobility(b, c, k, s, phase) <= 55,
        k == 1 ==> -20 <= mobility(b, c, k, s, phase) <= 24,
        k == 2 ==> -25 <= mobility(b, c, k, s, phase) <= 32,
        k == 3 ==> -20 <= mobility(b, c, k, s, phase) <= 30,
        k == 4 ==> -35 <= mobility(b, c, k, s, phase) <= 35,
        k == 5 ==> -80 <= mobility(b, c, k, s, phase) <= 30,
{
    let ts = table_sq(c, s);
    assert(0 <= ts < 64) by (nonlinear_arith)
        requires
            0 <= s < 64,
            ts == (if c == 0 {
                (7 - s / 8) * 8 + s % 8
            } else {
                s
            }),
    ;
    let moves = dest_bits(b, c, k, s, false);
    if k == 0 {
        let r = 7 - ts / 8;
        assert(0 <= r < 8);
    } else {
        let n = popcount(moves & safe_squares(b, c)) as int;
        if k == 1 {
            lemma_taper_bounds(mob_mg(k, n), mob_eg(k, n), phase, -20, 24);
        } else if k == 2 {
            lemma_taper_bounds(mob_mg(k, n), mob_eg(k, n), phase, -25, 32);
        } else if k == 3 {
            lemma_taper_bounds(mob_mg(k, n), mob_eg(k, n), phase, -20, 30);
        } else if k == 4 {
            lemma_taper_bounds(mob_mg(k, n), mob_eg(k, n), phase, -35, 35);
        } else {
            lemma_taper_bounds(mob_mg(k, n), mob_eg(k, n), phase, -80, 30);
        }
    }
}

/// Every piece counts its material: the worth of a piece lies within the
/// reach of its piece-square and mobility terms around its material value
/// (pawn 100, knight 320, bishop 330, rook 500, queen 900, king 0), so a
/// queen is worth at least 800, a rook at least 400, and so on.
pub proof fn lemma_piece_term_material(b: Board, c: int, k: int, s: int, phase: int)
    requires
        0 <= c < 2,
        0 <= k < 6,
        0 <= s < 64,
        0 <= phase <= 24,
    ensures
        k == 0 ==> 50 <= piece_term(b, c, k, s, phase) <= 350,
        k == 1 ==> 130 <= piece_term(b, c, k, s, phase) <= 480,
        k == 2 ==> 220 <= piece_term(b, c, k, s, phase) <= 430,
        k == 3 ==> 400 <= piece_term(b, c, k, s, phase) <= 620,
        k == 4 ==> 800 <= piece_term(b, c, k, s, phase) <= 1000,
        k == 5 ==> -160 <= piece_term(b, c, k, s, phase) <= 80,
{
    let ts = table_sq(c, s);
    assert(0 <= ts < 64) by (nonlinear_arith)
        requires
            0 <= s < 64,
            ts == (if c == 0 {
                (7 - s / 8) * 8 + s % 8
            } else {
                s
            }),
    ;
    lemma_pst_bounds(k, ts);
    lemma_mobility_bounds(b, c, k, s, phase);
    if k == 0 {
        lemma_taper_bounds(pst_mg(k, ts), pst_eg(k, ts), phase, -35, 187);
    } else if k == 1 {
        lemma_taper_bounds(pst_mg(k, ts), pst_eg(k, ts), phase, -167, 129);
    } else if k == 2 {
        lemma_taper_bounds(pst_mg(k, ts), pst_eg(k, ts), phase, -82, 59);
    } else if k == 3 {
        lemma_taper_bounds(pst_mg(k, ts), pst_eg(k, ts), phase, -71, 80);
    } else if k == 4 {
        lemma_taper_bounds(pst_mg(k, ts), pst_eg(k, ts), phase, -50, 59);
    } else {
        lemma_taper_bounds(pst_mg(k, ts), pst_eg(k, ts), phase, -74, 45);
    }
}

/// The worth of a piece is its material value (pawn 100, knight 320,
/// bishop 330, rook 500, queen 900, king 0) plus its blended
/// piece-square value and its mobility term.
pub proof fn lemma_piece_term_parts(b: Board, c: int, k: int, s: int, phase: int)
    requires
        0 <= k < 6,
    ensures
        piece_term(b, c, k, s, phase) == (if k == 0 {
            100int
        } else if k == 1 {
            320int
        } else if k == 2 {
            330int
        } else if k == 3 {
            500int
        } else if k == 4 {
            900int
        } else {
            0int
        }) + taper(pst_mg(k, table_sq(c, s)), pst_eg(k, table_sq(c, s)), phase) + mobility(b, c, k, s, phase),
{
}

/// White reads the tables mirrored: a white piece on `s` uses the entry a
/// black piece on the mirrored square (same file, rank counted from the
/// other side) uses; and a pawn's advancement is counted from its own side
/// of the board.
pub proof fn lemma_table_square_mirror(s: int)
    requires
        0 <= s < 64,
    ensures
        table_sq(0, s) == table_sq(1, (7 - s / 8) * 8 + s % 8),
        7 - table_sq(0, s) / 8 == s / 8,
        7 - table_sq(1, s) / 8 == 7 - s / 8,
{
    let r = s / 8;
    let f = s % 8;
    assert(s == r * 8 + f);
    assert(((7 - r) * 8 + f) / 8 == 7 - r);
}

} // verus!
