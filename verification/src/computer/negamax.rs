//! Alpha-beta search in negamax form, with a transposition table,
//! null-move pruning, late-move reductions and principal-variation
//! re-searches, and iterative deepening at the root.
use vstd::prelude::*;
use std::time::{Duration, Instant};
use crate::movegen::{Move, FLAG_QUIET, FLAG_EP_CAPTURE, FLAG_PROMO_QUEEN, FLAG_PROMO_ROOK,
    FLAG_PROMO_BISHOP, FLAG_PROMO_KNIGHT};
use crate::types::{PieceKind, centipawns, kind_of};
use crate::board::{Board, king_in_check, pb};
use crate::board::moves::{move_ok, make_post, lemma_make_undo, undo_post};
use crate::board::validation::{is_legal, lemma_legal_bit};
use crate::board::legal_moves::all_legal;
use crate::board::state::has_legal_move;
use crate::computer::evaluator::{Evaluator, eval_of};
use crate::computer::tt::{Bound, TTEntry, TranspositionTable, probe_spec, store_spec};
use crate::computer::search_value::{lemma_one_searched_same, lemma_one_searched_first, lemma_one_searched_later,
    lemma_second_search_again, lemma_second_search_none, lemma_researched_again, lemma_researched_none,
    lemma_searched_settled, lemma_searched_null_cut, lemma_node_searched, lemma_moves_searched_none,
    lemma_moves_searched_eval, lemma_moves_searched_list, lemma_moves_loop_step, lemma_moves_loop_end, searched, one_searched, moves_loop, moves_searched, second_search,
    lists_legal, table_move, root_alpha, root_prefix, round_done, best_in, rounds_upto, lemma_root_prefix_start, rounds_completed,
    lemma_root_prefix_step, lemma_rounds_step};
use crate::computer::tables::{MATE_SCORE, MATE_THRESHOLD, MAX_DEPTH, MAX_MOVES, INF, LN_FIXED};

verus! {

/// `b2` holds the position of `b1`, with its history and move tables,
/// and is ready for move generation.
pub open spec fn same_position(b1: Board, b2: Board) -> bool {
    &&& b2.pieces == b1.pieces
    &&& b2.player_turn == b1.player_turn
    &&& b2.castling_rights == b1.castling_rights
    &&& b2.en_passant_square == b1.en_passant_square
    &&& b2.halfmove_clock == b1.halfmove_clock
    &&& b2.fullmove_clock == b1.fullmove_clock
    &&& b2.zobrist_hash == b1.zobrist_hash
    &&& b2.promotion == b1.promotion
    &&& b2.history@ == b1.history@
    &&& b2.move_gen == b1.move_gen
    &&& b2.wf()
}

/// `v` kept in `i32`, away from its lowest value.
pub open spec fn clamp(v: int) -> int {
    if v <= i32::MIN {
        i32::MIN + 1
    } else if v > i32::MAX {
        i32::MAX as int
    } else {
        v
    }
}

/// A score as the table keeps it: mate scores are made relative to the
/// position by moving them `ply` plies further from zero.
pub open spec fn score_to_tt(score: int, ply: int) -> int {
    if score >= MATE_THRESHOLD {
        clamp(score + ply)
    } else if score <= -MATE_THRESHOLD {
        clamp(score - ply)
    } else {
        score
    }
}

/// A score read from the table at `ply` plies from the root: mate scores
/// are moved `ply` plies back towards zero.
pub open spec fn score_from_tt(score: int, ply: int) -> int {
    if score >= MATE_THRESHOLD {
        clamp(score - ply)
    } else if score <= -MATE_THRESHOLD {
        clamp(score + ply)
    } else {
        score
    }
}

/// How a score found with the window `alpha` .. `beta` bounds the true one.
pub open spec fn bound_of(score: int, alpha: int, beta: int) -> Bound {
    if score <= alpha {
        Bound::Upper
    } else if score >= beta {
        Bound::Lower
    } else {
        Bound::Exact
    }
}

/// A score stored at some ply and read back at the same ply is the score
/// that was stored, mate scores included.
pub proof fn lemma_tt_score_round_trip(score: int, ply: int)
    requires
        0 <= ply <= 1000,
        i32::MIN + 1000 < score < i32::MAX - 1000,
    ensures
        score_from_tt(score_to_tt(score, ply), ply) == score,
{
}

/// What the table entry `e` tells a search of `depth` plies at `ply` with
/// the window `alpha` .. `beta`: an entry from a search at least as deep
/// gives its score back (see `score_from_tt`); an exact score, or a bound
/// that closes the window, ends the search, any other bound narrows the
/// window. The entry's best move is handed on in every case.
pub open spec fn probe_outcome(e: Option<TTEntry>, depth: int, ply: int, alpha: i32, beta: i32) -> (
    Option<i32>,
    i32,
    i32,
    Option<Move>,
) {
    match e {
        None => (None, alpha, beta, None),
        Some(en) => if en.depth < depth {
            (None, alpha, beta, en.best_move)
        } else {
            let s = score_from_tt(en.score as int, ply) as i32;
            match en.bound {
                Bound::Exact => (Some(s), alpha, beta, en.best_move),
                Bound::Lower => {
                    let a = if s > alpha {
                        s
                    } else {
                        alpha
                    };
                    (if a >= beta {
                        Some(s)
                    } else {
                        None
                    }, a, beta, en.best_move)
                },
                Bound::Upper => {
                    let b = if s < beta {
                        s
                    } else {
                        beta
                    };
                    (if alpha >= b {
                        Some(s)
                    } else {
                        None
                    }, alpha, b, en.best_move)
                },
            }
        },
    }
}

/// Ordering key of `mv`: the table's move above every other, the rest by
/// `order_score`.
pub open spec fn move_key(mv: Move, tt_move: Option<Move>) -> int {
    if tt_move == Some(mv) {
        i32::MAX as int
    } else {
        order_score(mv)
    }
}

/// The moves of `s` at `lo .. hi` come by non-increasing key.
pub open spec fn keys_descending(s: Seq<Move>, tt_move: Option<Move>, lo: int, hi: int) -> bool {
    forall|x: int, y: int|
        lo <= x < y < hi ==> move_key(#[trigger] s[x], tt_move) >= move_key(#[trigger] s[y], tt_move)
}

/// Depth the `i`-th move `mv` is first searched to: one ply less, and for
/// a quiet move late in the list at depth 3 or more, less the late-move
/// reduction (keeping at least depth 0).
#[verifier::opaque]
pub open spec fn first_depth(i: int, depth: int, mv: Move) -> int {
    if i >= 3 && depth >= 3 && mv.flag() == FLAG_QUIET {
        let red = lmr_spec(depth, i as i32 as int);
        let red = if red > depth - 1 {
            depth - 1
        } else {
            red
        };
        depth - 1 - red
    } else {
        depth - 1
    }
}

/// Null-move pruning is tried: not in check, depth 3 or more, a piece
/// other than pawns for the side to move, pruning allowed, and `beta`
/// away from mate scores.
pub open spec fn null_allowed(b: Board, depth: int, beta: int, allow_null_move: bool, in_check: bool) -> bool {
    let c = b.player_turn as int;
    &&& !in_check
    &&& depth >= 3
    &&& (pb(b.pieces, c, 1) | pb(b.pieces, c, 2) | pb(b.pieces, c, 3) | pb(b.pieces, c, 4)) != 0
    &&& allow_null_move
    &&& beta < MATE_THRESHOLD
    &&& beta > -MATE_THRESHOLD
}

/// `b1` is `b0` with the turn passed.
pub open spec fn passed_turn(b0: Board, b1: Board) -> bool {
    &&& b1.pieces == b0.pieces
    &&& b1.player_turn == 1 - b0.player_turn
    &&& b1.en_passant_square == 64
    &&& b1.castling_rights == b0.castling_rights
    &&& b1.halfmove_clock == b0.halfmove_clock
    &&& b1.fullmove_clock == b0.fullmove_clock
    &&& b1.wf()
}

/// Score of being mated `ply` plies from the root.
pub open spec fn mated_score(ply: int) -> int {
    -(MATE_SCORE - ply)
}

/// Late-move reduction for the `move_count`-th move at `depth`:
/// `ln(depth) * ln(move_count) / 1.75` rounded down, from the fixed-point
/// logarithm table, with both arguments capped at 255; none below 3.
pub open spec fn lmr_spec(depth: int, move_count: int) -> int {
    let d = if depth < 255 {
        depth
    } else {
        255
    };
    let m = if move_count < 255 {
        move_count
    } else {
        255
    };
    if d < 3 || m < 3 {
        0
    } else {
        (4 * ((LN_FIXED[d] as int) * (LN_FIXED[m] as int))) / 129127208515966861312int
    }
}

/// Ordering score of a move: captures by victim and attacker value,
/// promotions by piece, en passant as a capture of a pawn by a queen.
pub open spec fn order_score(mv: Move) -> int {
    if mv.victim() <= 5 {
        10000 + centipawns(mv.victim()) as int * 10 - centipawns(kind_index(mv.kind())) as int
    } else if mv.flag() == FLAG_PROMO_QUEEN {
        20000
    } else if mv.flag() == FLAG_PROMO_ROOK {
        19000
    } else if mv.flag() == FLAG_PROMO_BISHOP {
        18000
    } else if mv.flag() == FLAG_PROMO_KNIGHT {
        17000
    } else if mv.flag() == FLAG_EP_CAPTURE {
        10900
    } else {
        0
    }
}

/// The kind index used for a piece nibble: a pawn past the six kinds.
pub open spec fn kind_index(k: int) -> int {
    if 0 <= k < 6 {
        k
    } else {
        0
    }
}

#[verifier::external_type_specification]
#[verifier::external_body]
pub struct ExInstant(Instant);

/// `std::time::Instant::now`: the current instant. Nothing is stated of
/// it: it depends on the clock.
#[verifier::external_body]
fn clock_now() -> (r: Instant) {
    Instant::now()
}

/// `std::time::Instant::elapsed`: the time passed since `start`. Nothing
/// is stated of it: it depends on the clock.
#[verifier::external_body]
fn time_since(start: &Instant) -> (r: Duration) {
    start.elapsed()
}

/// `std::time::Duration::as_millis`: the whole milliseconds of `d`.
/// `Duration` is opaque to the proofs, so nothing is stated of the number.
#[verifier::external_body]
fn whole_millis(d: Duration) -> (r: u128) {
    d.as_millis()
}

/// Whether `elapsed_ms` milliseconds reach the limit of `limit_ms`.
pub fn past_limit(elapsed_ms: u128, limit_ms: u64) -> (r: bool)
    ensures
        r == (elapsed_ms >= limit_ms),
{
    elapsed_ms >= limit_ms as u128
}

pub struct Search<'a> {
    board: &'a mut Board,
    pub nodes_visited: u64,
    tt: TranspositionTable,
    /// When the search started and how many milliseconds it may take.
    deadline: Option<(Instant, u64)>,
    /// A search ran out of time; its unfinished scores are not used.
    aborted: bool,
    pub depth: u8,
}

/// Clamps a score computed in a wider type.
fn clamp_score(v: i64) -> (r: i32)
    ensures
        r as int == clamp(v as int),
{
    if v <= i32::MIN as i64 {
        i32::MIN + 1
    } else if v > i32::MAX as i64 {
        i32::MAX
    } else {
        v as i32
    }
}

impl<'a> Search<'a> {
    pub closed spec fn board_of(&self) -> Board {
        *self.board
    }

    pub closed spec fn nodes_of(&self) -> u64 {
        self.nodes_visited
    }

    pub closed spec fn depth_of(&self) -> u8 {
        self.depth
    }

    /// A search ran out of time.
    pub closed spec fn aborted_of(&self) -> bool {
        self.aborted
    }

    /// The search has a time limit.
    pub closed spec fn timed(&self) -> bool {
        self.deadline is Some
    }

    /// The time limit in milliseconds, if there is one.
    pub closed spec fn limit_of(&self) -> Option<u64> {
        match self.deadline {
            Some(d) => Some(d.1),
            None => None,
        }
    }

    /// The transposition table's slots.
    pub closed spec fn tt_of(&self) -> Seq<Option<TTEntry>> {
        self.tt@
    }

    /// The table has a slot.
    pub open spec fn tt_ok(&self) -> bool {
        self.tt_of().len() > 0
    }

    /// A search of the position on `board`, with an empty 64 MB table.
    pub fn new(board: &'a mut Board) -> (r: Search<'a>)
        ensures
            r.board_of() == *old(board),
            r.tt_ok(),
            forall|i: int| 0 <= i < r.tt_of().len() ==> #[trigger] r.tt_of()[i] is None,
            r.nodes_of() == 0,
            r.depth_of() == 1,
            !r.timed(),
            !r.aborted_of(),
    {
        Search {
            board,
            nodes_visited: 0,
            tt: TranspositionTable::new(64),
            deadline: None,
            aborted: false,
            depth: 1,
        }
    }

    /// The time limit has passed; never without one, always with a limit
    /// of 0 ms.
    fn out_of_time(&self) -> (r: bool)
        ensures
            !self.timed() ==> !r,
            self.limit_of() == Some(0u64) ==> r,
    {
        match &self.deadline {
            None => false,
            Some(d) => past_limit(whole_millis(time_since(&d.0)), d.1),
        }
    }

    /// Score of the position for the side to move, searched `depth` plies
    /// deep from `ply` plies below the root within the window `alpha` ..
    /// `beta`.
    pub fn negamax(&mut self, depth: u8, ply: i32, alpha: i32, beta: i32) -> (r: i32)
        requires
            old(self).board_of().wf(),
            old(self).tt_ok(),
            0 <= ply,
            ply + depth <= 1000,
            alpha > i32::MIN,
            beta > i32::MIN,
            depth > 0 ==> old(self).board_of().halfmove_clock + depth < 0xFF,
            depth > 0 ==> old(self).board_of().fullmove_clock + depth < 0xFFFF,
        ensures
            final(self).nodes_of() >= (if old(self).nodes_of() < u64::MAX {
                old(self).nodes_of() + 1
            } else {
                u64::MAX as int
            }),
            r > i32::MIN,
            same_position(old(self).board_of(), final(self).board_of()),
            final(self).tt_ok(),
            depth == 0 ==> final(self).tt_of() == old(self).tt_of(),
            final(self).limit_of() == old(self).limit_of(),
            !old(self).timed() ==> final(self).aborted_of() == old(self).aborted_of(),
            old(self).aborted_of() ==> final(self).aborted_of(),
            !final(self).aborted_of() ==> searched(
                old(self).board_of(),
                old(self).tt_of(),
                depth as int,
                ply as int,
                alpha as int,
                beta as int,
                true,
                r as int,
                final(self).tt_of(),
            ),
    {
        self.search(depth, ply, alpha, beta, true)
    }

    /// The search, with null-move pruning allowed or not.
    #[verifier::rlimit(50)]
    #[verifier::spinoff_prover]
    fn search(&mut self, depth: u8, ply: i32, alpha: i32, beta: i32, allow_null_move: bool) -> (r: i32)
        requires
            old(self).board_of().wf(),
            old(self).tt_ok(),
            0 <= ply,
            ply + depth <= 1000,
            alpha > i32::MIN,
            beta > i32::MIN,
            depth > 0 ==> old(self).board_of().halfmove_clock + depth < 0xFF,
            depth > 0 ==> old(self).board_of().fullmove_clock + depth < 0xFFFF,
        ensures
            final(self).nodes_of() >= (if old(self).nodes_of() < u64::MAX {
                old(self).nodes_of() + 1
            } else {
                u64::MAX as int
            }),
            r > i32::MIN,
            same_position(old(self).board_of(), final(self).board_of()),
            final(self).tt_ok(),
            depth == 0 ==> final(self).tt_of() == old(self).tt_of(),
            final(self).limit_of() == old(self).limit_of(),
            !old(self).timed() ==> final(self).aborted_of() == old(self).aborted_of(),
            old(self).aborted_of() ==> final(self).aborted_of(),
            !final(self).aborted_of() ==> searched(
                old(self).board_of(),
                old(self).tt_of(),
                depth as int,
                ply as int,
                alpha as int,
                beta as int,
                allow_null_move,
                r as int,
                final(self).tt_of(),
            ),
        decreases depth, 2nat,
    {
        let ghost b0 = *self.board;
        let ghost tt0 = self.tt@;
        self.nodes_visited = if self.nodes_visited < u64::MAX {
            self.nodes_visited + 1
        } else {
            u64::MAX
        };
        if self.nodes_visited % 3000 == 0 && self.out_of_time() {
            self.aborted = true;
            return 0;
        }
        let entry_alpha = alpha;
        let ghost entry_beta = beta;
        let hash = self.board.zobrist_hash;
        let (cut, alpha, beta, tt_move) = self.probe_table(hash, depth, ply, alpha, beta);
        if let Some(score) = cut {
            proof {
                lemma_searched_settled(b0, tt0, depth as int, ply as int, entry_alpha as int, entry_beta as int,
                    allow_null_move, score as int);
            }
            return score;
        }
        let check_info = self.board.check_for_check();
        let mut legal_moves = self.board.generate_legal_moves();
        let ghost chk = king_in_check(b0.pieces, b0.player_turn as int);
        proof {
            assert(check_info.is_check == chk);
        }
        let null_cut = self.null_move_cutoff(depth, ply, beta, allow_null_move, check_info.is_check);
        let ghost tt_n = self.tt@;
        if self.aborted {
            return 0;
        }
        if null_cut {
            proof {
                let (bn, c) = choose|bn: Board, c: int|
                    passed_turn(b0, bn) && #[trigger] searched(bn, tt0, depth - 3, ply + 1, -beta, -beta + 1, false,
                        c, tt_n) && null_cut == (-c >= beta);
                lemma_searched_null_cut(b0, tt0, depth as int, ply as int, entry_alpha as int, entry_beta as int,
                    allow_null_move, bn, c, tt_n);
            }
            return beta;
        }
        proof {
            if null_allowed(b0, depth as int, beta as int, allow_null_move, chk) {
                let (bn, c) = choose|bn: Board, c: int|
                    passed_turn(b0, bn) && #[trigger] searched(bn, tt0, depth - 3, ply + 1, -beta, -beta + 1, false,
                        c, tt_n) && null_cut == (-c >= beta);
                assert(passed_turn(b0, bn) && searched(bn, tt0, depth - 3, ply + 1, -beta, -beta + 1, false, c,
                    tt_n) && -c < beta);
            }
        }
        if legal_moves.len() == 0 {
            proof {
                assert forall|m: Move| !#[trigger] is_legal(b0, m) by {
                    if is_legal(b0, m) {
                        assert(legal_moves@.contains(m));
                    }
                }
            }
            let result = if check_info.is_check {
                -self.mate_score(ply)
            } else {
                0
            };
            proof {
                lemma_moves_searched_none(b0, tt_n, depth as int, ply as int, entry_alpha as int, alpha as int,
                    beta as int, tt_move, chk);
                lemma_node_searched(b0, tt0, depth as int, ply as int, entry_alpha as int, entry_beta as int,
                    allow_null_move, tt_n, result as int, self.tt@);
            }
            return result;
        }
        proof {
            assert(has_legal_move(b0)) by {
                assert(is_legal(b0, legal_moves@[0]));
            }
        }
        let ghost unordered = legal_moves@;
        self.order_moves(&mut legal_moves, tt_move);
        proof {
            lemma_all_legal_perm(b0, unordered, legal_moves@);
            unordered.lemma_multiset_has_no_duplicates();
            legal_moves@.lemma_multiset_has_no_duplicates_conv();
            assert(lists_legal(b0, legal_moves@));
            assert forall|i: int| 0 <= i < legal_moves@.len() implies move_ok(
                #[trigger] legal_moves@[i],
                self.board_of().player_turn as int,
            ) by {
                crate::board::validation::lemma_legal_move_ok(b0, legal_moves@[i]);
            }
        }
        if depth == 0 {
            let score = self.quiescence(alpha, beta);
            proof {
                lemma_moves_searched_eval(b0, tt_n, ply as int, entry_alpha as int, alpha as int, beta as int,
                    tt_move, chk);
                lemma_node_searched(b0, tt0, depth as int, ply as int, entry_alpha as int, entry_beta as int,
                    allow_null_move, tt_n, score as int, self.tt@);
            }
            return score;
        }
        let (best_score, best_move) = self.search_moves(&legal_moves, depth, ply, alpha, beta, Ghost(b0));
        if self.aborted {
            return 0;
        }
        let ghost te = self.tt@;
        self.store_result(hash, depth, ply, entry_alpha, beta, best_score, best_move);
        proof {
            assert(moves_loop(b0, legal_moves@, tt_n, depth as int, ply as int, alpha as int, beta as int, 0,
                i32::MIN + 1, None, best_score as int, best_move, te));
            lemma_moves_searched_list(b0, tt_n, depth as int, ply as int, entry_alpha as int, alpha as int,
                beta as int, tt_move, chk, legal_moves@, best_score as int, best_move, te, self.tt@);
            lemma_node_searched(b0, tt0, depth as int, ply as int, entry_alpha as int, entry_beta as int,
                allow_null_move, tt_n, best_score as int, self.tt@);
        }
        best_score
    }

    /// What the table says of the position: a score that ends the search,
    /// or the window narrowed by a stored bound; and the stored best move.
    fn probe_table(&self, hash: u64, depth: u8, ply: i32, alpha: i32, beta: i32) -> (r: (
        Option<i32>,
        i32,
        i32,
        Option<Move>,
    ))
        requires
            self.tt_ok(),
            0 <= ply <= 1000,
            alpha > i32::MIN,
            beta > i32::MIN,
        ensures
            r.0 is Some ==> r.0->0 > i32::MIN,
            r.1 > i32::MIN,
            r.2 > i32::MIN,
            r == probe_outcome(probe_spec(self.tt_of(), hash), depth as int, ply as int, alpha, beta),
    {
        let mut alpha = alpha;
        let mut beta = beta;
        let probe = self.tt.probe(hash);
        let tt_move = match probe {
            Some(entry) => entry.best_move,
            None => None,
        };
        if let Some(entry) = probe {
            if entry.depth >= depth {
                let tt_score = if entry.score >= MATE_THRESHOLD {
                    clamp_score(entry.score as i64 - ply as i64)
                } else if entry.score <= -MATE_THRESHOLD {
                    clamp_score(entry.score as i64 + ply as i64)
                } else {
                    entry.score
                };
                match entry.bound {
                    Bound::Exact => {
                        return (Some(tt_score), alpha, beta, tt_move);
                    },
                    Bound::Lower => {
                        if tt_score > alpha {
                            alpha = tt_score;
                        }
                    },
                    Bound::Upper => {
                        if tt_score < beta {
                            beta = tt_score;
                        }
                    },
                }
                if alpha >= beta {
                    return (Some(tt_score), alpha, beta, tt_move);
                }
            }
        }
        (None, alpha, beta, tt_move)
    }

    /// Null-move pruning: when not in check, deep enough, with a piece
    /// other than pawns and a window away from mate scores, pass the turn
    /// and search shallower; true when even that fails high.
    fn null_move_cutoff(&mut self, depth: u8, ply: i32, beta: i32, allow_null_move: bool, in_check: bool) -> (r:
        bool)
        requires
            old(self).board_of().wf(),
            old(self).tt_ok(),
            0 <= ply,
            ply + depth <= 1000,
            beta > i32::MIN,
            depth > 0 ==> old(self).board_of().halfmove_clock + depth < 0xFF,
            depth > 0 ==> old(self).board_of().fullmove_clock + depth < 0xFFFF,
        ensures
            final(self).nodes_of() >= old(self).nodes_of(),
            same_position(old(self).board_of(), final(self).board_of()),
            final(self).tt_ok(),
            final(self).limit_of() == old(self).limit_of(),
            !old(self).timed() ==> final(self).aborted_of() == old(self).aborted_of(),
            old(self).aborted_of() ==> final(self).aborted_of(),
            in_check ==> !r,
            depth < 3 ==> !r,
            in_check || depth < 3 ==> final(self).board_of() == old(self).board_of(),
            r ==> null_allowed(old(self).board_of(), depth as int, beta as int, allow_null_move, in_check),
            !null_allowed(old(self).board_of(), depth as int, beta as int, allow_null_move, in_check) ==> {
                &&& final(self).board_of() == old(self).board_of()
                &&& final(self).tt_of() == old(self).tt_of()
                &&& final(self).aborted_of() == old(self).aborted_of()
            },
            null_allowed(old(self).board_of(), depth as int, beta as int, allow_null_move, in_check)
                && !final(self).aborted_of() ==> exists|bn: Board, c: int|
                passed_turn(old(self).board_of(), bn) && #[trigger] searched(
                    bn,
                    old(self).tt_of(),
                    depth - 3,
                    ply + 1,
                    -beta,
                    -beta + 1,
                    false,
                    c,
                    final(self).tt_of(),
                ) && r == (-c >= beta),
        decreases depth, 1nat,
    {
        let ghost b0 = *self.board;
        if !in_check && depth >= 3 && self.board.has_non_pawn_mat() && allow_null_move && beta
            < MATE_THRESHOLD && beta > -MATE_THRESHOLD {
            let ghost tt0 = self.tt@;
            let old_en_passant = self.board.make_null_move();
            let ghost b1 = *self.board;
            let nb: i32 = -beta;
            let nb1: i32 = -beta + 1;
            let child = self.search(depth - 3, ply + 1, nb, nb1, false);
            let score = -child;
            self.board.undo_null_move(old_en_passant);
            proof {
                if !self.aborted {
                    assert(passed_turn(b0, b1) && searched(b1, tt0, depth - 3, ply + 1, -beta, -beta + 1, false,
                        child as int, self.tt@));
                }
            }
            return score >= beta;
        }
        false
    }

    /// Searches each move in turn with the window narrowing as scores come
    /// in: the first with the full window, the others with a null window
    /// and a late-move reduction for quiet ones, searched again fully when
    /// they beat the window; stops at a cutoff. Gives the best score and
    /// move.
    #[verifier::spinoff_prover]
    #[verifier::rlimit(30)]
    fn search_moves(
        &mut self,
        legal_moves: &Vec<Move>,
        depth: u8,
        ply: i32,
        alpha: i32,
        beta: i32,
        Ghost(bg): Ghost<Board>,
    ) -> (r: (i32, Option<Move>))
        requires
            old(self).board_of().wf(),
            old(self).tt_ok(),
            same_position(bg, old(self).board_of()),
            forall|i: int|
                0 <= i < legal_moves@.len() ==> move_ok(
                    #[trigger] legal_moves@[i],
                    old(self).board_of().player_turn as int,
                ),
            legal_moves.len() > 0,
            0 < depth,
            0 <= ply,
            ply + depth <= 1000,
            alpha > i32::MIN,
            beta > i32::MIN,
            old(self).board_of().halfmove_clock + depth < 0xFF,
            old(self).board_of().fullmove_clock + depth < 0xFFFF,
        ensures
            final(self).nodes_of() >= old(self).nodes_of(),
            r.0 > i32::MIN,
            same_position(old(self).board_of(), final(self).board_of()),
            final(self).tt_ok(),
            final(self).limit_of() == old(self).limit_of(),
            !old(self).timed() ==> final(self).aborted_of() == old(self).aborted_of(),
            old(self).aborted_of() ==> final(self).aborted_of(),
            !final(self).aborted_of() ==> moves_loop(
                bg,
                legal_moves@,
                old(self).tt_of(),
                depth as int,
                ply as int,
                alpha as int,
                beta as int,
                0,
                i32::MIN + 1,
                None,
                r.0 as int,
                r.1,
                final(self).tt_of(),
            ),
        decreases depth, 1nat,
    {
        let ghost b0 = *self.board;
        let ghost timed0 = self.timed();
        let ghost lim0 = self.limit_of();
        let ghost aborted0 = self.aborted;
        let ghost tt0 = self.tt@;
        let ghost alpha0 = alpha;
        let ghost n0 = self.nodes_visited;
        let mut alpha = alpha;
        let mut best_score: i32 = i32::MIN + 1;
        let mut best_move: Option<Move> = None;
        let mut i: usize = 0;
        while i < legal_moves.len()
            invariant_except_break
                i > 0 ==> alpha < beta,
                !self.aborted && i == legal_moves.len() ==> moves_loop(bg, legal_moves@, tt0, depth as int,
                    ply as int, alpha0 as int, beta as int, 0, i32::MIN + 1, None, best_score as int, best_move,
                    self.tt@),
                !self.aborted ==> forall|r: int, rm: Option<Move>, te: Seq<Option<TTEntry>>|
                    #[trigger] moves_loop(bg, legal_moves@, self.tt@, depth as int, ply as int, alpha as int,
                        beta as int, i as int, best_score as int, best_move, r, rm, te) ==> moves_loop(
                        bg,
                        legal_moves@,
                        tt0,
                        depth as int,
                        ply as int,
                        alpha0 as int,
                        beta as int,
                        0,
                        i32::MIN + 1,
                        None,
                        r,
                        rm,
                        te,
                    ),
            invariant
                self.limit_of() == lim0,
                timed0 == (lim0 is Some),
                !timed0 ==> self.aborted == aborted0,
                aborted0 ==> self.aborted,
                self.nodes_visited >= n0,
                0 < depth,
                0 <= ply,
                ply + depth <= 1000,
                i <= legal_moves.len(),
                alpha > i32::MIN,
                beta > i32::MIN,
                best_score > i32::MIN,
                forall|j: int|
                    0 <= j < legal_moves@.len() ==> move_ok(#[trigger] legal_moves@[j], b0.player_turn as int),
                same_position(b0, *self.board),
                same_position(bg, b0),
                self.tt.wf(),
                b0.halfmove_clock + depth < 0xFF,
                b0.fullmove_clock + depth < 0xFFFF,
            ensures
                !self.aborted ==> moves_loop(bg, legal_moves@, tt0, depth as int, ply as int, alpha0 as int,
                    beta as int, 0, i32::MIN + 1, None, best_score as int, best_move, self.tt@),
                best_score > i32::MIN,
                same_position(b0, *self.board),
                self.tt.wf(),
                self.limit_of() == lim0,
                timed0 == (lim0 is Some),
                !timed0 ==> self.aborted == aborted0,
                aborted0 ==> self.aborted,
                self.nodes_visited >= n0,
            decreases legal_moves.len() - i,
        {
            let mv = legal_moves[i];
            let ghost prev_best = best_score;
            let ghost prev_move = best_move;
            let ghost b_now = *self.board;
            let ghost tt_now = self.tt@;
            let ghost alpha_now = alpha;
            let score = self.search_one(mv, i, depth, ply, alpha, beta);
            if self.aborted {
                best_score = 0;
                best_move = None;
                break;
            }
            if score > best_score {
                best_score = score;
                best_move = Some(mv);
            }
            if best_score > alpha {
                alpha = best_score;
            }
            proof {
                lemma_one_searched_same(bg, b_now, mv, i as int, tt_now, depth as int, ply as int,
                    alpha_now as int, beta as int, score as int, self.tt@);
                assert(legal_moves@[i as int] == mv);
                assert forall|r: int, rm: Option<Move>, te: Seq<Option<TTEntry>>|
                    #[trigger] moves_loop(bg, legal_moves@, self.tt@, depth as int, ply as int, alpha as int,
                        beta as int, i + 1, best_score as int, best_move, r, rm, te) implies moves_loop(
                        bg,
                        legal_moves@,
                        tt0,
                        depth as int,
                        ply as int,
                        alpha0 as int,
                        beta as int,
                        0,
                        i32::MIN + 1,
                        None,
                        r,
                        rm,
                        te,
                    ) by {
                    lemma_moves_loop_step(bg, legal_moves@, tt_now, depth as int, ply as int, alpha_now as int,
                        beta as int, i as int, prev_best as int, prev_move, score as int, self.tt@, r, rm, te);
                }
                if alpha >= beta {
                    lemma_moves_loop_end(bg, legal_moves@, self.tt@, depth as int, ply as int, alpha as int,
                        beta as int, i + 1, best_score as int, best_move);
                }
                assert(moves_loop(bg, legal_moves@, self.tt@, depth as int, ply as int, alpha as int, beta as int,
                    i + 1, best_score as int, best_move, best_score as int, best_move, self.tt@) ==> moves_loop(
                    bg,
                    legal_moves@,
                    tt0,
                    depth as int,
                    ply as int,
                    alpha0 as int,
                    beta as int,
                    0,
                    i32::MIN + 1,
                    None,
                    best_score as int,
                    best_move,
                    self.tt@,
                ));
            }
            if alpha >= beta {
                break;
            }
            i = i + 1;
            proof {
                if i == legal_moves.len() {
                    lemma_moves_loop_end(bg, legal_moves@, self.tt@, depth as int, ply as int, alpha as int,
                        beta as int, i as int, best_score as int, best_move);
                }
            }
        }
        (best_score, best_move)
    }

    /// Late-move reduction of the `i`-th move `mv` at `depth`: for a quiet
    /// move from the fourth on at depth 3 or more, `get_lmr_reduction`
    /// capped at `depth - 1`; none otherwise.
    fn reduction_for(&self, i: usize, depth: u8, mv: Move) -> (r: u8)
        requires
            depth >= 1,
        ensures
            r <= depth - 1,
            depth - 1 - r == first_depth(i as int, depth as int, mv),
            !(i >= 3 && depth >= 3 && mv.flag() == FLAG_QUIET) ==> r == 0,
    {
        proof {
            reveal(first_depth);
        }
        let mut reduction: i32 = 0;
        if i >= 3 && depth >= 3 && mv.flags() == FLAG_QUIET {
            reduction = self.get_lmr_reduction(depth as i32, i as i32);
            if reduction > (depth - 1) as i32 {
                reduction = (depth - 1) as i32;
            }
        }
        reduction as u8
    }

    /// Score of the `i`-th move `mv`: played, searched, taken back.
    #[verifier::rlimit(40)]
    #[verifier::spinoff_prover]
    fn search_one(&mut self, mv: Move, i: usize, depth: u8, ply: i32, alpha: i32, beta: i32) -> (r: i32)
        requires
            old(self).board_of().wf(),
            old(self).tt_ok(),
            move_ok(mv, old(self).board_of().player_turn as int),
            0 < depth,
            0 <= ply,
            ply + depth <= 1000,
            alpha > i32::MIN,
            beta > i32::MIN,
            i > 0 ==> alpha < beta,
            old(self).board_of().halfmove_clock + depth < 0xFF,
            old(self).board_of().fullmove_clock + depth < 0xFFFF,
        ensures
            final(self).nodes_of() >= old(self).nodes_of(),
            r > i32::MIN,
            same_position(old(self).board_of(), final(self).board_of()),
            final(self).tt_ok(),
            final(self).limit_of() == old(self).limit_of(),
            !old(self).timed() ==> final(self).aborted_of() == old(self).aborted_of(),
            old(self).aborted_of() ==> final(self).aborted_of(),
            !final(self).aborted_of() ==> one_searched(
                old(self).board_of(),
                mv,
                i as int,
                old(self).tt_of(),
                depth as int,
                ply as int,
                alpha as int,
                beta as int,
                r as int,
                final(self).tt_of(),
            ),
        decreases depth, 0nat,
    {
        let ghost b0 = *self.board;
        let ghost tt0 = self.tt@;
        self.board.make_move(mv);
        let ghost b1 = *self.board;
        let reduction = self.reduction_for(i, depth, mv);
        let child_depth = depth - 1 - reduction;
        let mut score: i32;
        if i == 0 {
            let nb: i32 = -beta;
            let na: i32 = -alpha;
            let child = self.search(child_depth, ply + 1, nb, na, true);
            proof {
                if !self.aborted {
                    assert(child_depth == depth - 1);
                    lemma_one_searched_first(b0, mv, tt0, depth as int, ply as int, alpha as int, beta as int, b1,
                        child as int, self.tt@);
                }
            }
            score = -child;
        } else {
            let nz: i32 = -alpha - 1;
            let na: i32 = -alpha;
            let child = self.search(child_depth, ply + 1, nz, na, true);
            let ghost ta = self.tt@;
            let ghost c1 = child as int;
            let ghost fd = first_depth(i as int, depth as int, mv);
            score = -child;
            let nb: i32 = -beta;
            if reduction > 0 && score > alpha {
                let ghost b_r = *self.board;
                let c2 = self.search(depth - 1, ply + 1, nb, na, true);
                proof {
                    if !self.aborted {
                        lemma_second_search_again(b1, ta, fd, depth as int, ply as int, alpha as int, beta as int,
                            -c1, b_r, c2 as int, self.tt@);
                    }
                }
                score = -c2;
            } else {
                proof {
                    lemma_second_search_none(b1, ta, fd, depth as int, ply as int, alpha as int, beta as int, -c1);
                }
            }
            let ghost tb = self.tt@;
            let ghost s2 = score as int;
            if score > alpha && score < beta {
                let ghost b_r = *self.board;
                let c3 = self.search(depth - 1, ply + 1, nb, na, true);
                proof {
                    if !self.aborted {
                        lemma_researched_again(b1, ta, fd, depth as int, ply as int, alpha as int, beta as int, -c1,
                            s2, tb, b_r, c3 as int, self.tt@);
                    }
                }
                score = -c3;
            } else {
                proof {
                    if !self.aborted {
                        lemma_researched_none(b1, ta, fd, depth as int, ply as int, alpha as int, beta as int, -c1,
                            s2, tb);
                    }
                }
            }
            proof {
                if !self.aborted {
                    lemma_one_searched_later(b0, mv, i as int, tt0, depth as int, ply as int, alpha as int,
                        beta as int, b1, c1, ta, score as int, self.tt@);
                }
            }
        }
        self.board.undo_move();
        proof {
            assert(undo_post(b1, *self.board));
            lemma_make_undo(b0, mv, b1, *self.board);
        }
        score
    }

    /// Stores the search's result with its bound, mate scores made
    /// relative to this node.
    fn store_result(
        &mut self,
        hash: u64,
        depth: u8,
        ply: i32,
        entry_alpha: i32,
        beta: i32,
        best_score: i32,
        best_move: Option<Move>,
    )
        requires
            old(self).tt_ok(),
            0 <= ply <= 1000,
        ensures
            final(self).tt_ok(),
            final(self).limit_of() == old(self).limit_of(),
            !old(self).timed() ==> final(self).aborted_of() == old(self).aborted_of(),
            final(self).board_of() == old(self).board_of(),
            final(self).nodes_of() == old(self).nodes_of(),
            final(self).depth_of() == old(self).depth_of(),
            final(self).tt_of() == store_spec(
                old(self).tt_of(),
                (TTEntry {
                    key: hash,
                    depth,
                    score: score_to_tt(best_score as int, ply as int) as i32,
                    bound: bound_of(best_score as int, entry_alpha as int, beta as int),
                    best_move,
                }),
            ),
    {
        let bound = if best_score <= entry_alpha {
            Bound::Upper
        } else if best_score >= beta {
            Bound::Lower
        } else {
            Bound::Exact
        };
        let tt_score = if best_score >= MATE_THRESHOLD {
            clamp_score(best_score as i64 + ply as i64)
        } else if best_score <= -MATE_THRESHOLD {
            clamp_score(best_score as i64 - ply as i64)
        } else {
            best_score
        };
        self.tt.store(TTEntry { key: hash, depth, score: tt_score, bound, best_move });
    }

    /// Iterative deepening to `max_depth` plies: each round searches every
    /// root move (the table's move and the previous round's best first) and
    /// keeps the best-scoring one (the last of equal scores). Gives the best
    /// move of the last round and its score; the first legal move and 0 when
    /// no round is searched. Records the depth it stopped at.
    pub fn find_best_move(&mut self, max_depth: u8) -> (r: (Move, i32))
        requires
            old(self).board_of().wf(),
            old(self).tt_ok(),
            has_legal_move(old(self).board_of()),
            max_depth < 0xFF,
            old(self).board_of().halfmove_clock + max_depth < 0xFF,
            old(self).board_of().fullmove_clock + max_depth < 0xFFFF,
        ensures
            final(self).nodes_of() >= old(self).nodes_of(),
            is_legal(old(self).board_of(), r.0),
            same_position(old(self).board_of(), final(self).board_of()),
            final(self).tt_ok(),
            !final(self).timed(),
            !final(self).aborted_of(),
            final(self).depth_of() == max_depth + 1,
            max_depth >= 1 ==> rounds_completed(old(self).board_of(), old(self).tt_of(), max_depth as int, r.0,
                r.1 as int),
            max_depth == 0 ==> r.1 == 0,
    {
        self.deadline = None;
        self.deepen(max_depth)
    }

    /// Iterative deepening for about `alloted_time` milliseconds: a round
    /// is only started within the time, and a round the time runs out in
    /// is dropped, so the move and score are those of the last full round
    /// (the first legal move and 0 when there is none). Rounds stop, too,
    /// where the clocks of the position would overflow.
    pub fn find_best_move_timed(&mut self, alloted_time: u64) -> (r: (Move, i32))
        requires
            old(self).board_of().wf(),
            old(self).tt_ok(),
            has_legal_move(old(self).board_of()),
        ensures
            final(self).nodes_of() >= old(self).nodes_of(),
            is_legal(old(self).board_of(), r.0),
            same_position(old(self).board_of(), final(self).board_of()),
            final(self).tt_ok(),
            final(self).timed(),
            final(self).limit_of() == Some(alloted_time),
            final(self).depth_of() >= 1,
            alloted_time == 0 ==> final(self).depth_of() == 1 && r.1 == 0,
            final(self).depth_of() >= 2 ==> rounds_completed(
                old(self).board_of(),
                old(self).tt_of(),
                final(self).depth_of() - 1,
                r.0,
                r.1 as int,
            ),
            final(self).depth_of() == 1 ==> r.1 == 0,
    {
        let hm = self.board.halfmove_clock as u32;
        let fm = self.board.fullmove_clock as u32;
        let by_half: u32 = if hm >= 0xFE {
            0
        } else {
            0xFE - hm
        };
        let by_full: u32 = if fm >= 0xFFFE {
            0
        } else {
            0xFFFE - fm
        };
        let mut cap: u32 = 0xFE;
        if by_half < cap {
            cap = by_half;
        }
        if by_full < cap {
            cap = by_full;
        }
        self.deadline = Some((clock_now(), alloted_time));
        self.deepen(cap as u8)
    }

    /// The rounds of iterative deepening, up to `max_depth`, stopping when
    /// the time limit (if any) has passed.
    #[verifier::rlimit(60)]
    #[verifier::spinoff_prover]
    fn deepen(&mut self, max_depth: u8) -> (r: (Move, i32))
        requires
            old(self).board_of().wf(),
            old(self).tt_ok(),
            has_legal_move(old(self).board_of()),
            max_depth < 0xFF,
            max_depth > 0 ==> old(self).board_of().halfmove_clock + max_depth < 0xFF,
            max_depth > 0 ==> old(self).board_of().fullmove_clock + max_depth < 0xFFFF,
        ensures
            final(self).nodes_of() >= old(self).nodes_of(),
            is_legal(old(self).board_of(), r.0),
            same_position(old(self).board_of(), final(self).board_of()),
            final(self).tt_ok(),
            final(self).limit_of() == old(self).limit_of(),
            !old(self).timed() ==> !final(self).aborted_of() && final(self).depth_of() == max_depth + 1,
            1 <= final(self).depth_of() <= max_depth + 1,
            final(self).depth_of() >= 2 ==> rounds_completed(
                old(self).board_of(),
                old(self).tt_of(),
                final(self).depth_of() - 1,
                r.0,
                r.1 as int,
            ),
            final(self).depth_of() == 1 ==> r.1 == 0,
            old(self).limit_of() == Some(0u64) ==> final(self).depth_of() == 1,
    {
        let ghost b0 = *self.board;
        self.aborted = false;
        let mut possible_moves = self.board.generate_legal_moves();
        proof {
            let m = choose|m: Move| is_legal(b0, m);
            assert(possible_moves@.contains(m));
        }
        let ghost timed0 = self.timed();
        let ghost lim0 = self.limit_of();
        let ghost tt_entry = self.tt@;
        let ghost mut t_done = self.tt@;
        let ghost n0 = self.nodes_visited;
        let mut best_move = possible_moves[0];
        let mut best_score: i32 = 0;
        let mut depth: u8 = 1;
        while depth <= max_depth
            invariant_except_break
                self.tt@ == t_done,
            invariant
                self.limit_of() == lim0,
                self.nodes_visited >= n0,
                timed0 == (lim0 is Some),
                !timed0 ==> !self.aborted,
                1 <= depth <= max_depth + 1,
                max_depth < 0xFF,
                possible_moves.len() > 0,
                all_legal(b0, possible_moves@),
                forall|m: Move| #[trigger] is_legal(b0, m) ==> possible_moves@.contains(m),
                possible_moves@.no_duplicates(),
                is_legal(b0, best_move),
                same_position(b0, *self.board),
                self.tt.wf(),
                max_depth > 0 ==> b0.halfmove_clock + max_depth < 0xFF,
                max_depth > 0 ==> b0.fullmove_clock + max_depth < 0xFFFF,
                depth == 1 ==> t_done == tt_entry,
                depth >= 2 ==> rounds_upto(b0, tt_entry, depth - 1, best_move, best_score as int, t_done),
                depth == 1 ==> best_score == 0,
                lim0 == Some(0u64) ==> depth == 1,
            ensures
                depth >= 2 ==> rounds_upto(b0, tt_entry, depth - 1, best_move, best_score as int, t_done),
                depth == 1 ==> best_score == 0,
                lim0 == Some(0u64) ==> depth == 1,
                self.limit_of() == lim0,
                self.nodes_visited >= n0,
                timed0 == (lim0 is Some),
                !timed0 ==> !self.aborted && depth == max_depth + 1,
                1 <= depth <= max_depth + 1,
                is_legal(b0, best_move),
                same_position(b0, *self.board),
                self.tt.wf(),
            decreases max_depth + 1 - depth,
        {
            if self.out_of_time() {
                break;
            }
            let tt_move = match self.tt.probe(self.board.zobrist_hash) {
                Some(entry) => entry.best_move,
                None => None,
            };
            let ghost unordered = possible_moves@;
            self.order_moves(&mut possible_moves, tt_move);
            proof {
                lemma_all_legal_perm(b0, unordered, possible_moves@);
                unordered.lemma_multiset_has_no_duplicates();
                possible_moves@.lemma_multiset_has_no_duplicates_conv();
                assert(tt_move == table_move(t_done, b0));
            }
            let ghost t_start = self.tt@;
            let ghost listed = possible_moves@;
            let mut alpha: i32 = -INF;
            let beta: i32 = INF;
            let mut scored_moves: Vec<(Move, i32)> = Vec::new();
            let ghost mut sc: Seq<int> = Seq::empty();
            proof {
                lemma_root_prefix_start(b0, listed, t_start, depth as int);
            }
            let mut k: usize = 0;
            while k < possible_moves.len()
                invariant
                    self.limit_of() == lim0,
                    self.nodes_visited >= n0,
                self.nodes_visited >= n0,
                    timed0 == (lim0 is Some),
                    !timed0 ==> !self.aborted,
                    1 <= depth <= max_depth,
                    k <= possible_moves.len(),
                    possible_moves@ == listed,
                    scored_moves.len() == k,
                    sc.len() == k,
                    forall|j: int| 0 <= j < k ==> #[trigger] scored_moves@[j].0 == possible_moves@[j],
                    forall|j: int| 0 <= j < k ==> #[trigger] sc[j] == scored_moves@[j].1 as int,
                    alpha as int == root_alpha(sc),
                    alpha >= -INF,
                    all_legal(b0, possible_moves@),
                    forall|m: Move| #[trigger] is_legal(b0, m) ==> possible_moves@.contains(m),
                    possible_moves@.no_duplicates(),
                    beta == INF,
                    same_position(b0, *self.board),
                    self.tt.wf(),
                    b0.halfmove_clock + max_depth < 0xFF,
                    b0.fullmove_clock + max_depth < 0xFFFF,
                    !self.aborted ==> root_prefix(b0, listed, t_start, depth as int, k as int, sc, self.tt@),
                ensures
                    self.limit_of() == lim0,
                    self.nodes_visited >= n0,
                self.nodes_visited >= n0,
                    timed0 == (lim0 is Some),
                    !timed0 ==> !self.aborted,
                    !self.aborted ==> k == possible_moves.len(),
                    possible_moves@ == listed,
                    scored_moves.len() == k,
                    sc.len() == k,
                    forall|j: int| 0 <= j < k ==> #[trigger] scored_moves@[j].0 == possible_moves@[j],
                    forall|j: int| 0 <= j < k ==> #[trigger] sc[j] == scored_moves@[j].1 as int,
                    all_legal(b0, possible_moves@),
                    forall|m: Move| #[trigger] is_legal(b0, m) ==> possible_moves@.contains(m),
                    possible_moves@.no_duplicates(),
                    same_position(b0, *self.board),
                    self.tt.wf(),
                    !self.aborted ==> root_prefix(b0, listed, t_start, depth as int, k as int, sc, self.tt@),
                decreases possible_moves.len() - k,
            {
                let mv = possible_moves[k];
                proof {
                    assert(is_legal(b0, mv));
                    crate::board::validation::lemma_legal_move_ok(b0, mv);
                }
                let ghost board_now = *self.board;
                let ghost tt_now = self.tt@;
                let score = self.root_score(mv, depth, alpha, beta);
                proof {
                    if !self.aborted {
                        let (b1, c) = choose|b1: Board, c: int|
                            make_post(board_now, mv, b1) && #[trigger] searched(b1, tt_now, depth - 1, 1, -INF as int,
                                -alpha, true, c, self.tt@) && score == -c;
                        assert(make_post(b0, mv, b1));
                        lemma_root_prefix_step(b0, listed, t_start, depth as int, k as int, sc, tt_now, b1, c,
                            self.tt@);
                    }
                }
                let ghost prev_scored = scored_moves@;
                let ghost prev_sc = sc;
                scored_moves.push((mv, score));
                proof {
                    sc = sc.push(score as int);
                    assert(sc.drop_last() =~= prev_sc);
                    assert forall|j: int| 0 <= j < k + 1 implies #[trigger] scored_moves@[j].0 == possible_moves@[j] by {
                        if j < k {
                            assert(scored_moves@[j] == prev_scored[j]);
                        }
                    }
                    assert forall|j: int| 0 <= j < k + 1 implies #[trigger] sc[j] == scored_moves@[j].1 as int by {
                        if j < k {
                            assert(scored_moves@[j] == prev_scored[j]);
                            assert(sc[j] == prev_sc[j]);
                        }
                    }
                }
                if score > alpha {
                    alpha = score;
                }
                k = k + 1;
                if self.aborted || self.out_of_time() {
                    self.aborted = true;
                    break;
                }
            }
            if self.aborted {
                break;
            }
            let mut best_idx: usize = 0;
            let mut j: usize = 1;
            while j < scored_moves.len()
                invariant
                    scored_moves.len() == possible_moves.len(),
                    best_idx < j <= scored_moves.len(),
                    forall|x: int| 0 <= x < j ==> #[trigger] scored_moves@[x].1 <= scored_moves@[best_idx as int].1,
                    forall|x: int| best_idx < x < j ==> #[trigger] scored_moves@[x].1 < scored_moves@[best_idx as int].1,
                decreases scored_moves.len() - j,
            {
                if scored_moves[j].1 >= scored_moves[best_idx].1 {
                    best_idx = j;
                }
                j = j + 1;
            }
            let ghost old_move = best_move;
            let ghost old_score = best_score;
            best_move = scored_moves[best_idx].0;
            best_score = scored_moves[best_idx].1;
            proof {
                assert(is_legal(b0, possible_moves@[best_idx as int]));
                assert(lists_legal(b0, listed));
                assert(round_done(b0, t_start, depth as int, listed, sc, self.tt@));
                assert(sc[best_idx as int] == best_score as int);
                assert forall|x: int| 0 <= x < sc.len() implies #[trigger] sc[x] <= best_score as int by {
                    assert(scored_moves@[x].1 <= scored_moves@[best_idx as int].1);
                }
                assert forall|x: int| best_idx < x < sc.len() implies #[trigger] sc[x] < best_score as int by {
                    assert(scored_moves@[x].1 < scored_moves@[best_idx as int].1);
                }
                assert(best_in(listed, sc, best_move, best_score as int));
                lemma_rounds_step(b0, tt_entry, depth as int, old_move, old_score as int, t_start, listed, sc,
                    self.tt@, best_move, best_score as int);
                t_done = self.tt@;
            }
            let ghost before = possible_moves@;
            let first = possible_moves[0];
            let chosen = possible_moves[best_idx];
            possible_moves.set(0, chosen);
            possible_moves.set(best_idx, first);
            proof {
                lemma_swap_multiset(before, 0, best_idx as int);
                assert(possible_moves@ =~= before.update(0, before[best_idx as int]).update(best_idx as int, before[0]));
                lemma_all_legal_perm(b0, before, possible_moves@);
                before.lemma_multiset_has_no_duplicates();
                possible_moves@.lemma_multiset_has_no_duplicates_conv();
            }
            depth = depth + 1;
        }
        self.depth = depth;
        proof {
            if depth >= 2 {
                assert(rounds_upto(b0, tt_entry, depth - 1, best_move, best_score as int, t_done));
                assert(old(self).board_of() == b0);
                assert(old(self).tt_of() == tt_entry);
                assert(self.depth_of() - 1 == depth - 1);
                assert(rounds_completed(b0, tt_entry, depth - 1, best_move, best_score as int));
            }
        }
        (best_move, best_score)
    }

    /// Score of the root move `mv` at `depth`: played, searched one ply
    /// less deep, taken back.
    fn root_score(&mut self, mv: Move, depth: u8, alpha: i32, beta: i32) -> (r: i32)
        requires
            old(self).board_of().wf(),
            old(self).tt_ok(),
            move_ok(mv, old(self).board_of().player_turn as int),
            1 <= depth < 0xFF,
            alpha > i32::MIN,
            beta > i32::MIN,
            old(self).board_of().halfmove_clock + depth < 0xFF,
            old(self).board_of().fullmove_clock + depth < 0xFFFF,
        ensures
            final(self).nodes_of() >= old(self).nodes_of(),
            same_position(old(self).board_of(), final(self).board_of()),
            final(self).tt_ok(),
            final(self).limit_of() == old(self).limit_of(),
            !old(self).timed() ==> final(self).aborted_of() == old(self).aborted_of(),
            old(self).aborted_of() ==> final(self).aborted_of(),
            !final(self).aborted_of() ==> exists|b1: Board, c: int|
                make_post(old(self).board_of(), mv, b1) && #[trigger] searched(
                    b1,
                    old(self).tt_of(),
                    depth - 1,
                    1,
                    -beta,
                    -alpha,
                    true,
                    c,
                    final(self).tt_of(),
                ) && r == -c,
    {
        let ghost b0 = *self.board;
        self.board.make_move(mv);
        let ghost b1 = *self.board;
        let ghost tt0 = self.tt@;
        let nb: i32 = -beta;
        let na: i32 = -alpha;
        let child = self.search(depth - 1, 1, nb, na, true);
        let score = -child;
        self.board.undo_move();
        proof {
            assert(undo_post(b1, *self.board));
            lemma_make_undo(b0, mv, b1, *self.board);
            if !self.aborted {
                assert(make_post(b0, mv, b1) && searched(b1, tt0, depth - 1, 1, -beta, -alpha, true, child as int,
                    self.tt@));
            }
        }
        score
    }

    /// Puts the table's move first, then the others by decreasing ordering
    /// score (an insertion sort).
    fn order_moves(&self, moves: &mut Vec<Move>, tt_move: Option<Move>)
        ensures
            final(moves)@.to_multiset() == old(moves)@.to_multiset(),
            final(moves)@.len() == old(moves)@.len(),
            keys_descending(final(moves)@, tt_move, 0, final(moves)@.len() as int),
    {
        let ghost orig = moves@;
        let n = moves.len();
        let mut i: usize = 1;
        proof {
            assert(moves@ =~= orig);
        }
        while i < n
            invariant
                n == moves.len(),
                1 <= i <= n || n == 0,
                moves@.to_multiset() == orig.to_multiset(),
                moves@.len() == orig.len(),
                keys_descending(moves@, tt_move, 0, i as int),
            decreases n - i,
        {
            let mut j = i;
            while j > 0
                invariant
                    n == moves.len(),
                    j <= i < n,
                    moves@.to_multiset() == orig.to_multiset(),
                    moves@.len() == orig.len(),
                    keys_descending(moves@, tt_move, 0, j as int),
                    keys_descending(moves@, tt_move, j as int, i + 1),
                    forall|x: int, y: int|
                        0 <= x < j < y <= i ==> move_key(#[trigger] moves@[x], tt_move) >= move_key(
                            #[trigger] moves@[y],
                            tt_move,
                        ),
                ensures
                    moves@.to_multiset() == orig.to_multiset(),
                    moves@.len() == orig.len(),
                    keys_descending(moves@, tt_move, 0, i + 1),
                decreases j,
            {
                let a = moves[j - 1];
                let b = moves[j];
                if self.sort_key(b, tt_move) <= self.sort_key(a, tt_move) {
                    proof {
                        assert forall|x: int, y: int| 0 <= x < y < i + 1 implies move_key(
                            #[trigger] moves@[x],
                            tt_move,
                        ) >= move_key(#[trigger] moves@[y], tt_move) by {
                            if x < j && y == j {
                                if x < j - 1 {
                                    assert(move_key(moves@[x], tt_move) >= move_key(moves@[j - 1], tt_move));
                                }
                            }
                        }
                    }
                    break;
                }
                let ghost before = moves@;
                moves.set(j - 1, b);
                moves.set(j, a);
                proof {
                    lemma_swap_multiset(before, (j - 1) as int, j as int);
                    assert(moves@ =~= before.update(j - 1, before[j as int]).update(j as int, before[j - 1]));
                    assert forall|x: int, y: int| (j - 1) as int <= x < y < i + 1 implies move_key(
                        #[trigger] moves@[x],
                        tt_move,
                    ) >= move_key(#[trigger] moves@[y], tt_move) by {
                        if x == j - 1 && y > j {
                            assert(move_key(before[j as int], tt_move) >= move_key(before[y], tt_move));
                        } else if x == j && y > j {
                            assert(move_key(before[j - 1], tt_move) >= move_key(before[y], tt_move));
                        }
                    }
                    assert forall|x: int, y: int| 0 <= x < j - 1 < y <= i implies move_key(
                        #[trigger] moves@[x],
                        tt_move,
                    ) >= move_key(#[trigger] moves@[y], tt_move) by {
                        if y == j {
                            assert(move_key(before[x], tt_move) >= move_key(before[j - 1], tt_move));
                        } else if y > j {
                            assert(move_key(before[x], tt_move) >= move_key(before[y], tt_move));
                        } else {
                            assert(move_key(before[x], tt_move) >= move_key(before[j as int], tt_move));
                        }
                    }
                }
                j = j - 1;
            }
            i = i + 1;
        }
    }

    /// Ordering key: the table's move above every other.
    fn sort_key(&self, mv: Move, tt_move: Option<Move>) -> (r: i32)
        ensures
            r == move_key(mv, tt_move),
    {
        let is_tt = match tt_move {
            Some(t) => t == mv,
            None => false,
        };
        if is_tt {
            i32::MAX
        } else {
            self.move_order_score(mv)
        }
    }

    /// Reduction of the `move_count`-th move at `depth` (see `lmr_spec`).
    pub fn get_lmr_reduction(&self, depth: i32, move_count: i32) -> (r: i32)
        ensures
            r as int == lmr_spec(depth as int, move_count as int),
            0 <= r <= 20,
    {
        let d: usize = if depth < 0 {
            0
        } else if depth < 255 {
            depth as usize
        } else {
            255
        };
        let m: usize = if move_count < 0 {
            0
        } else if move_count < 255 {
            move_count as usize
        } else {
            255
        };
        if d < 3 || m < 3 {
            return 0;
        }
        let a = LN_FIXED[d] as u128;
        let b = LN_FIXED[m] as u128;
        proof {
            assert(a <= 23799545705);
            assert(b <= 23799545705);
            assert(a * b <= 23799545705u128 * 23799545705u128) by (nonlinear_arith)
                requires
                    a <= 23799545705,
                    b <= 23799545705,
            ;
        }
        let prod = 4 * (a * b);
        let r = prod / 129127208515966861312u128;
        proof {
            assert(r <= 20) by (nonlinear_arith)
                requires
                    r == prod / 129127208515966861312u128,
                    prod <= 4 * 23799545705u128 * 23799545705u128,
            ;
            assert(LN_FIXED[d as int] <= 23799545705);
            assert(LN_FIXED[m as int] <= 23799545705);
            assert(prod <= 4 * 23799545705 * 23799545705) by (nonlinear_arith)
                requires
                    prod == 4 * (a * b),
                    a <= 23799545705,
                    b <= 23799545705,
            ;
        }
        r as i32
    }

    /// The evaluation of the position (no capture search).
    pub fn quiescence(&mut self, alpha: i32, beta: i32) -> (r: i32)
        requires
            old(self).board_of().wf(),
        ensures
            r as int == eval_of(old(self).board_of()),
            -1100000 <= r <= 1100000,
            final(self).board_of() == old(self).board_of(),
            final(self).tt_of() == old(self).tt_of(),
            final(self).tt_ok() == old(self).tt_ok(),
            final(self).nodes_of() == old(self).nodes_of(),
            final(self).limit_of() == old(self).limit_of(),
            final(self).aborted_of() == old(self).aborted_of(),
    {
        let e = Evaluator::new(&*self.board);
        e.static_eval()
    }

    fn mate_score(&self, ply: i32) -> (r: i32)
        requires
            0 <= ply <= 1000,
        ensures
            r == MATE_SCORE - ply,
    {
        MATE_SCORE - ply
    }

    /// Ordering score of a move (see `order_score`).
    fn move_order_score(&self, mv: Move) -> (r: i32)
        ensures
            r == order_score(mv),
    {
        let captured = mv.captured_piece();
        if captured <= 5 {
            let victim = PieceKind::from_idx(captured as usize).value();
            let attacker = PieceKind::from_idx(mv.piece() as usize).value();
            return 10000 + victim * 10 - attacker;
        }
        let f = mv.flags();
        if f == FLAG_PROMO_QUEEN {
            20000
        } else if f == FLAG_PROMO_ROOK {
            19000
        } else if f == FLAG_PROMO_BISHOP {
            18000
        } else if f == FLAG_PROMO_KNIGHT {
            17000
        } else if f == FLAG_EP_CAPTURE {
            10900
        } else {
            0
        }
    }
}

/// Reordering keeps every move legal.
proof fn lemma_all_legal_perm(b: Board, s: Seq<Move>, t: Seq<Move>)
    requires
        all_legal(b, s),
        t.to_multiset() == s.to_multiset(),
    ensures
        all_legal(b, t),
        forall|m: Move| s.contains(m) ==> #[trigger] t.contains(m),
{
    s.to_multiset_ensures();
    t.to_multiset_ensures();
    assert forall|m: Move| s.contains(m) implies #[trigger] t.contains(m) by {
        assert(s.to_multiset().count(m) > 0);
    }
    assert forall|i: int| 0 <= i < t.len() implies #[trigger] is_legal(b, t[i]) by {
        assert(t.contains(t[i]));
        assert(t.to_multiset().count(t[i]) > 0);
        assert(s.to_multiset().count(t[i]) > 0);
        assert(s.contains(t[i]));
        let j = choose|j: int| 0 <= j < s.len() && s[j] == t[i];
        assert(is_legal(b, s[j]));
    }
}

proof fn lemma_swap_multiset(s: Seq<Move>, i: int, j: int)
    requires
        0 <= i < s.len(),
        0 <= j < s.len(),
    ensures
        s.update(i, s[j]).update(j, s[i]).to_multiset() == s.to_multiset(),
{
    let s1 = s.update(i, s[j]);
    vstd::seq_lib::to_multiset_update(s, i, s[j]);
    vstd::seq_lib::to_multiset_update(s1, j, s[i]);
    if i == j {
        assert(s.update(i, s[j]).update(j, s[i]) =~= s);
    } else {
        broadcast use vstd::multiset::group_multiset_axioms;

        assert(s1[j] == s[j]);
        let m = s.to_multiset();
        s.to_multiset_ensures();
        assert(s.contains(s[i]));
        assert(m.count(s[i]) > 0);
        assert(m.insert(s[j]).remove(s[i]).insert(s[i]).remove(s[j]) =~= m);
    }
}

} // verus!
