//! What a search computes: the score of a node, and the transposition
//! table it leaves, as relations over the table it starts from. The order
//! the moves are generated in is left open (move generation is specified
//! as a set); everything else follows the search step by step.
use vstd::prelude::*;
use crate::movegen::Move;
use crate::board::{Board, king_in_check};
use crate::board::moves::make_post;
use crate::board::validation::is_legal;
use crate::board::legal_moves::all_legal;
use crate::board::state::has_legal_move;
use crate::computer::evaluator::eval_of;
use crate::computer::tt::{TTEntry, probe_spec, store_spec};
use crate::computer::tables::INF;
use crate::computer::negamax::{same_position, probe_outcome, null_allowed, passed_turn, first_depth, keys_descending,
    mated_score, score_to_tt, bound_of};

verus! {

/// Marks the values an existential statement below is about; it holds of
/// every value.
#[verifier::opaque]
pub open spec fn witnessed<A>(a: A) -> bool {
    true
}

/// `l` lists the legal moves of `b`, each once.
pub open spec fn lists_legal(b: Board, l: Seq<Move>) -> bool {
    &&& all_legal(b, l)
    &&& forall|m: Move| #[trigger] is_legal(b, m) ==> l.contains(m)
    &&& l.no_duplicates()
}

/// The move a probe of the table `t` hands on for `b`.
pub open spec fn table_move(t: Seq<Option<TTEntry>>, b: Board) -> Option<Move> {
    match probe_spec(t, b.zobrist_hash) {
        Some(e) => e.best_move,
        None => None,
    }
}

/// Searching `b` at `depth` plies, `ply` plies below the root, within the
/// window `alpha` .. `beta`, with null-move pruning allowed or not, and
/// starting from the table `t0`, gives the score `r` and leaves the table
/// `t1`: a table entry that settles the node gives its score; otherwise a
/// null move is tried where `null_allowed` says so (see `moves_searched`
/// for the rest).
#[verifier::opaque]
pub open spec fn searched(
    b: Board,
    t0: Seq<Option<TTEntry>>,
    depth: int,
    ply: int,
    alpha: int,
    beta: int,
    allow: bool,
    r: int,
    t1: Seq<Option<TTEntry>>,
) -> bool
    decreases depth, 4int, 0int,
{
    if depth < 0 {
        false
    } else {
        let po = probe_outcome(probe_spec(t0, b.zobrist_hash), depth, ply, alpha as i32, beta as i32);
        let a2 = po.1 as int;
        let b2 = po.2 as int;
        let chk = king_in_check(b.pieces, b.player_turn as int);
        match po.0 {
            Some(s) => r == s && t1 == t0,
            None => if null_allowed(b, depth, b2, allow, chk) {
                exists|bn: Board, c: int, tn: Seq<Option<TTEntry>>|
                    #![trigger witnessed((bn, c, tn))]
                    witnessed((bn, c, tn)) && passed_turn(b, bn) && searched(bn, t0, depth - 3, ply + 1, -b2, -b2 + 1, false, c, tn) && if -c
                        >= b2 {
                        r == b2 && t1 == tn
                    } else {
                        moves_searched(b, tn, depth, ply, alpha, a2, b2, po.3, chk, r, t1)
                    }
            } else {
                moves_searched(b, t0, depth, ply, alpha, a2, b2, po.3, chk, r, t1)
            },
        }
    }
}

/// The node after the table and the null move: with no legal move, the
/// mate or draw score; at depth 0, the evaluation; else the legal moves,
/// put in order (the table's move first, then by ordering score), are
/// searched in turn (see `moves_loop`), and the result is stored.
#[verifier::opaque]
pub open spec fn moves_searched(
    b: Board,
    t: Seq<Option<TTEntry>>,
    depth: int,
    ply: int,
    alpha_entry: int,
    alpha: int,
    beta: int,
    tm: Option<Move>,
    chk: bool,
    r: int,
    t1: Seq<Option<TTEntry>>,
) -> bool
    decreases depth, 3int, 0int,
{
    if depth < 0 {
        false
    } else if !has_legal_move(b) {
        t1 == t && r == (if chk {
            mated_score(ply)
        } else {
            0
        })
    } else if depth == 0 {
        t1 == t && r == eval_of(b)
    } else {
        exists|l: Seq<Move>, rm: Option<Move>, te: Seq<Option<TTEntry>>|
            #![trigger witnessed((l, rm, te))]
            witnessed((l, rm, te)) && lists_legal(b, l) && keys_descending(l, tm, 0, l.len() as int) && moves_loop(
                b,
                l,
                t,
                depth,
                ply,
                alpha,
                beta,
                0,
                i32::MIN + 1,
                None,
                r,
                rm,
                te,
            ) && t1 == store_spec(
                te,
                TTEntry {
                    key: b.zobrist_hash,
                    depth: depth as u8,
                    score: score_to_tt(r, ply) as i32,
                    bound: bound_of(r, alpha_entry, beta),
                    best_move: rm,
                },
            )
    }
}

/// The moves of `l` from the `i`-th on, searched in turn from the table
/// `t`, the best score so far `best` (with its move `bm`) and the lower
/// bound `alpha`, give the best score `r`, its move `rm` and the table
/// `te`; the loop stops at the end of the list or once `alpha` reaches
/// `beta`.
#[verifier::opaque]
pub open spec fn moves_loop(
    b: Board,
    l: Seq<Move>,
    t: Seq<Option<TTEntry>>,
    depth: int,
    ply: int,
    alpha: int,
    beta: int,
    i: int,
    best: int,
    bm: Option<Move>,
    r: int,
    rm: Option<Move>,
    te: Seq<Option<TTEntry>>,
) -> bool
    decreases depth, 2int, l.len() - i,
{
    if i < 0 || i >= l.len() || (i > 0 && alpha >= beta) {
        r == best && rm == bm && te == t
    } else {
        exists|s: int, t2: Seq<Option<TTEntry>>|
            #![trigger witnessed((s, t2))]
            witnessed((s, t2)) && one_searched(b, l[i], i, t, depth, ply, alpha, beta, s, t2) && {
                let nb = if s > best {
                    s
                } else {
                    best
                };
                let nm = if s > best {
                    Some(l[i])
                } else {
                    bm
                };
                let na = if nb > alpha {
                    nb
                } else {
                    alpha
                };
                moves_loop(b, l, t2, depth, ply, na, beta, i + 1, nb, nm, r, rm, te)
            }
    }
}

/// The `i`-th move `mv` of a node at `depth`, searched from the table `t`
/// within `alpha` .. `beta`, scores `s` and leaves the table `t3`: it is
/// played (see `make_post`) and the position it leads to searched as
/// `move_child` says.
#[verifier::opaque]
pub open spec fn one_searched(
    b: Board,
    mv: Move,
    i: int,
    t: Seq<Option<TTEntry>>,
    depth: int,
    ply: int,
    alpha: int,
    beta: int,
    s: int,
    t3: Seq<Option<TTEntry>>,
) -> bool
    decreases depth, 1int, 1int,
{
    exists|b1: Board|
        #![trigger witnessed(b1)]
        witnessed(b1) && make_post(b, mv, b1) && move_child(b1, mv, i, t, depth, ply, alpha, beta, s, t3)
}

/// The search of `b1`, the position after the `i`-th move `mv`: for the
/// first move a full search one ply less deep, giving `-s`; for a later
/// one a null-window search at `first_depth`, then the searches again
/// that `researched` says.
#[verifier::opaque]
pub open spec fn move_child(
    b1: Board,
    mv: Move,
    i: int,
    t: Seq<Option<TTEntry>>,
    depth: int,
    ply: int,
    alpha: int,
    beta: int,
    s: int,
    t3: Seq<Option<TTEntry>>,
) -> bool
    decreases depth, 1int, 0int,
{
    if depth <= 0 {
        false
    } else if i == 0 {
        exists|c: int|
            #![trigger witnessed(c)]
            witnessed(c) && searched(b1, t, depth - 1, ply + 1, -beta, -alpha, true, c, t3) && s == -c
    } else {
        exists|c1: int, ta: Seq<Option<TTEntry>>|
            #![trigger witnessed((c1, ta))]
            witnessed((c1, ta)) && 0 <= first_depth(i, depth, mv) < depth && searched(
                b1,
                t,
                first_depth(i, depth, mv),
                ply + 1,
                -alpha - 1,
                -alpha,
                true,
                c1,
                ta,
            ) && researched(b1, ta, first_depth(i, depth, mv), depth, ply, alpha, beta, -c1, s, t3)
    }
}

/// After the null-window search of a later move scored `s1` at depth `fd`
/// (table `ta`): where the move was reduced and beat `alpha`, a full-depth
/// search with the whole window; then, where the score lies strictly inside
/// the window, one more; the last score is `s`, the table `t3`. Each search
/// is of the position `b1` holds (see `same_position`).
#[verifier::opaque]
pub open spec fn researched(
    b1: Board,
    ta: Seq<Option<TTEntry>>,
    fd: int,
    depth: int,
    ply: int,
    alpha: int,
    beta: int,
    s1: int,
    s: int,
    t3: Seq<Option<TTEntry>>,
) -> bool
    decreases depth, 0int, 1int,
{
    if depth <= 0 {
        false
    } else {
        exists|s2: int, tb: Seq<Option<TTEntry>>|
            #![trigger witnessed((s2, tb))]
            witnessed((s2, tb)) && second_search(b1, ta, fd, depth, ply, alpha, beta, s1, s2, tb) && if s2 > alpha && s2 < beta {
                exists|bx: Board, c3: int|
                    #![trigger witnessed((bx, c3))]
                    witnessed((bx, c3)) && same_position(b1, bx) && searched(bx, tb, depth - 1, ply + 1, -beta, -alpha, true, c3, t3) && s
                        == -c3
            } else {
                s == s2 && t3 == tb
            }
    }
}

/// The search of a reduced move that beat `alpha` again at full depth
/// with the whole window (score `s2`, table `tb`); otherwise nothing.
#[verifier::opaque]
pub open spec fn second_search(
    b1: Board,
    ta: Seq<Option<TTEntry>>,
    fd: int,
    depth: int,
    ply: int,
    alpha: int,
    beta: int,
    s1: int,
    s2: int,
    tb: Seq<Option<TTEntry>>,
) -> bool
    decreases depth, 0int, 0int,
{
    if depth <= 0 {
        false
    } else if fd < depth - 1 && s1 > alpha {
        exists|bx: Board, c2: int|
            #![trigger witnessed((bx, c2))]
            witnessed((bx, c2)) && same_position(b1, bx) && searched(bx, ta, depth - 1, ply + 1, -beta, -alpha, true, c2, tb) && s2 == -c2
    } else {
        s2 == s1 && tb == ta
    }
}

/// A move searched from one board is searched the same from a board in
/// the same position.
pub(crate) proof fn lemma_one_searched_same(
    bg: Board,
    b: Board,
    mv: Move,
    i: int,
    t: Seq<Option<TTEntry>>,
    depth: int,
    ply: int,
    alpha: int,
    beta: int,
    s: int,
    t3: Seq<Option<TTEntry>>,
)
    requires
        same_position(bg, b),
        one_searched(b, mv, i, t, depth, ply, alpha, beta, s, t3),
    ensures
        one_searched(bg, mv, i, t, depth, ply, alpha, beta, s, t3),
{
    reveal_with_fuel(searched, 1);
    reveal_with_fuel(moves_searched, 1);
    reveal_with_fuel(moves_loop, 1);
    reveal_with_fuel(one_searched, 1);
    reveal_with_fuel(move_child, 1);
    reveal_with_fuel(researched, 1);
    reveal_with_fuel(second_search, 1);
    let b1 = choose|b1: Board|
        witnessed(b1) && make_post(b, mv, b1) && move_child(b1, mv, i, t, depth, ply, alpha, beta, s, t3);
    assert(witnessed(b1) && make_post(bg, mv, b1));
}

/// A table entry that settles the node gives the search its score.
pub(crate) proof fn lemma_searched_settled(
    b: Board,
    t0: Seq<Option<TTEntry>>,
    depth: int,
    ply: int,
    alpha: int,
    beta: int,
    allow: bool,
    r: int,
)
    requires
        depth >= 0,
        probe_outcome(probe_spec(t0, b.zobrist_hash), depth, ply, alpha as i32, beta as i32).0 matches Some(x)
            && x == r,
    ensures
        searched(b, t0, depth, ply, alpha, beta, allow, r, t0),
{
    reveal_with_fuel(searched, 1);
    reveal_with_fuel(moves_searched, 1);
    reveal_with_fuel(moves_loop, 1);
    reveal_with_fuel(one_searched, 1);
    reveal_with_fuel(move_child, 1);
    reveal_with_fuel(researched, 1);
    reveal_with_fuel(second_search, 1);
}

/// A null move whose search reaches `beta` ends the search with `beta`.
pub(crate) proof fn lemma_searched_null_cut(
    b: Board,
    t0: Seq<Option<TTEntry>>,
    depth: int,
    ply: int,
    alpha: int,
    beta: int,
    allow: bool,
    bn: Board,
    c: int,
    tn: Seq<Option<TTEntry>>,
)
    requires
        depth >= 0,
        ({
            let po = probe_outcome(probe_spec(t0, b.zobrist_hash), depth, ply, alpha as i32, beta as i32);
            &&& po.0 is None
            &&& null_allowed(b, depth, po.2 as int, allow, king_in_check(b.pieces, b.player_turn as int))
            &&& passed_turn(b, bn)
            &&& searched(bn, t0, depth - 3, ply + 1, -(po.2 as int), -(po.2 as int) + 1, false, c, tn)
            &&& -c >= po.2
        }),
    ensures
        searched(
            b,
            t0,
            depth,
            ply,
            alpha,
            beta,
            allow,
            probe_outcome(probe_spec(t0, b.zobrist_hash), depth, ply, alpha as i32, beta as i32).2 as int,
            tn,
        ),
{
    reveal_with_fuel(searched, 1);
    reveal_with_fuel(moves_searched, 1);
    reveal_with_fuel(moves_loop, 1);
    reveal_with_fuel(one_searched, 1);
    reveal_with_fuel(move_child, 1);
    reveal_with_fuel(researched, 1);
    reveal_with_fuel(second_search, 1);
    reveal(witnessed);
    let po = probe_outcome(probe_spec(t0, b.zobrist_hash), depth, ply, alpha as i32, beta as i32);
    assert(witnessed((bn, c, tn)) && passed_turn(b, bn) && searched(bn, t0, depth - 3, ply + 1, -(po.2 as int), -(po.2 as int) + 1, false, c,
        tn));
}

/// A node the table does not settle: the null move, where it is tried and
/// does not cut, then the moves, make up the search.
pub(crate) proof fn lemma_node_searched(
    b0: Board,
    tt0: Seq<Option<TTEntry>>,
    depth: int,
    ply: int,
    alpha: int,
    beta: int,
    allow: bool,
    tt_n: Seq<Option<TTEntry>>,
    r: int,
    t1: Seq<Option<TTEntry>>,
)
    requires
        depth >= 0,
        probe_outcome(probe_spec(tt0, b0.zobrist_hash), depth, ply, alpha as i32, beta as i32).0 is None,
        ({
            let po = probe_outcome(probe_spec(tt0, b0.zobrist_hash), depth, ply, alpha as i32, beta as i32);
            let chk = king_in_check(b0.pieces, b0.player_turn as int);
            &&& null_allowed(b0, depth, po.2 as int, allow, chk) ==> exists|bn: Board, c: int|
                passed_turn(b0, bn) && #[trigger] searched(
                    bn,
                    tt0,
                    depth - 3,
                    ply + 1,
                    -(po.2 as int),
                    -(po.2 as int) + 1,
                    false,
                    c,
                    tt_n,
                ) && -c < po.2
            &&& !null_allowed(b0, depth, po.2 as int, allow, chk) ==> tt_n == tt0
            &&& moves_searched(b0, tt_n, depth, ply, alpha, po.1 as int, po.2 as int, po.3, chk, r, t1)
        }),
    ensures
        searched(b0, tt0, depth, ply, alpha, beta, allow, r, t1),
{
    reveal_with_fuel(searched, 1);
    reveal_with_fuel(moves_searched, 1);
    reveal_with_fuel(moves_loop, 1);
    reveal_with_fuel(one_searched, 1);
    reveal_with_fuel(move_child, 1);
    reveal_with_fuel(researched, 1);
    reveal_with_fuel(second_search, 1);
    reveal(witnessed);
    let po = probe_outcome(probe_spec(tt0, b0.zobrist_hash), depth, ply, alpha as i32, beta as i32);
    let chk = king_in_check(b0.pieces, b0.player_turn as int);
    if null_allowed(b0, depth, po.2 as int, allow, chk) {
        let (bn, c) = choose|bn: Board, c: int|
            passed_turn(b0, bn) && #[trigger] searched(
                bn,
                tt0,
                depth - 3,
                ply + 1,
                -(po.2 as int),
                -(po.2 as int) + 1,
                false,
                c,
                tt_n,
            ) && -c < po.2;
        assert(witnessed((bn, c, tt_n)) && passed_turn(b0, bn) && searched(bn, tt0, depth - 3, ply + 1,
            -(po.2 as int), -(po.2 as int) + 1, false, c, tt_n));
    }
}

/// With no legal move the node scores mate or a draw.
pub(crate) proof fn lemma_moves_searched_none(
    b: Board,
    t: Seq<Option<TTEntry>>,
    depth: int,
    ply: int,
    alpha_entry: int,
    alpha: int,
    beta: int,
    tm: Option<Move>,
    chk: bool,
)
    requires
        depth >= 0,
        !has_legal_move(b),
    ensures
        moves_searched(b, t, depth, ply, alpha_entry, alpha, beta, tm, chk, if chk {
            mated_score(ply)
        } else {
            0
        }, t),
{
    reveal_with_fuel(searched, 1);
    reveal_with_fuel(moves_searched, 1);
    reveal_with_fuel(moves_loop, 1);
    reveal_with_fuel(one_searched, 1);
    reveal_with_fuel(move_child, 1);
    reveal_with_fuel(researched, 1);
    reveal_with_fuel(second_search, 1);
}

/// At depth 0 a node with a legal move scores its evaluation.
pub(crate) proof fn lemma_moves_searched_eval(
    b: Board,
    t: Seq<Option<TTEntry>>,
    ply: int,
    alpha_entry: int,
    alpha: int,
    beta: int,
    tm: Option<Move>,
    chk: bool,
)
    requires
        has_legal_move(b),
    ensures
        moves_searched(b, t, 0, ply, alpha_entry, alpha, beta, tm, chk, eval_of(b), t),
{
    reveal_with_fuel(searched, 1);
    reveal_with_fuel(moves_searched, 1);
    reveal_with_fuel(moves_loop, 1);
    reveal_with_fuel(one_searched, 1);
    reveal_with_fuel(move_child, 1);
    reveal_with_fuel(researched, 1);
    reveal_with_fuel(second_search, 1);
}

/// The moves searched in the order `l`, and the result stored.
pub(crate) proof fn lemma_moves_searched_list(
    b: Board,
    t: Seq<Option<TTEntry>>,
    depth: int,
    ply: int,
    alpha_entry: int,
    alpha: int,
    beta: int,
    tm: Option<Move>,
    chk: bool,
    l: Seq<Move>,
    r: int,
    rm: Option<Move>,
    te: Seq<Option<TTEntry>>,
    t1: Seq<Option<TTEntry>>,
)
    requires
        depth > 0,
        has_legal_move(b),
        lists_legal(b, l),
        keys_descending(l, tm, 0, l.len() as int),
        moves_loop(b, l, t, depth, ply, alpha, beta, 0, i32::MIN + 1, None, r, rm, te),
        t1 == store_spec(
            te,
            TTEntry {
                key: b.zobrist_hash,
                depth: depth as u8,
                score: score_to_tt(r, ply) as i32,
                bound: bound_of(r, alpha_entry, beta),
                best_move: rm,
            },
        ),
    ensures
        moves_searched(b, t, depth, ply, alpha_entry, alpha, beta, tm, chk, r, t1),
{
    reveal_with_fuel(searched, 1);
    reveal_with_fuel(moves_searched, 1);
    reveal_with_fuel(moves_loop, 1);
    reveal_with_fuel(one_searched, 1);
    reveal_with_fuel(move_child, 1);
    reveal_with_fuel(researched, 1);
    reveal_with_fuel(second_search, 1);
    reveal(witnessed);
    assert(witnessed((l, rm, te)) && moves_loop(b, l, t, depth, ply, alpha, beta, 0, i32::MIN + 1, None, r, rm,
        te));
}

/// The loop over the moves ends at the end of the list or at a cutoff.
pub(crate) proof fn lemma_moves_loop_end(
    b: Board,
    l: Seq<Move>,
    t: Seq<Option<TTEntry>>,
    depth: int,
    ply: int,
    alpha: int,
    beta: int,
    i: int,
    best: int,
    bm: Option<Move>,
)
    requires
        i >= l.len() || (i > 0 && alpha >= beta),
    ensures
        moves_loop(b, l, t, depth, ply, alpha, beta, i, best, bm, best, bm, t),
{
    reveal_with_fuel(searched, 1);
    reveal_with_fuel(moves_searched, 1);
    reveal_with_fuel(moves_loop, 1);
    reveal_with_fuel(one_searched, 1);
    reveal_with_fuel(move_child, 1);
    reveal_with_fuel(researched, 1);
    reveal_with_fuel(second_search, 1);
}

/// One step of the loop over the moves: the `i`-th move is searched, the
/// best score and the lower bound move up.
pub(crate) proof fn lemma_moves_loop_step(
    b: Board,
    l: Seq<Move>,
    t: Seq<Option<TTEntry>>,
    depth: int,
    ply: int,
    alpha: int,
    beta: int,
    i: int,
    best: int,
    bm: Option<Move>,
    s: int,
    t2: Seq<Option<TTEntry>>,
    r: int,
    rm: Option<Move>,
    te: Seq<Option<TTEntry>>,
)
    requires
        0 <= i < l.len(),
        !(i > 0 && alpha >= beta),
        one_searched(b, l[i], i, t, depth, ply, alpha, beta, s, t2),
        moves_loop(
            b,
            l,
            t2,
            depth,
            ply,
            if (if s > best {
                s
            } else {
                best
            }) > alpha {
                if s > best {
                    s
                } else {
                    best
                }
            } else {
                alpha
            },
            beta,
            i + 1,
            if s > best {
                s
            } else {
                best
            },
            if s > best {
                Some(l[i])
            } else {
                bm
            },
            r,
            rm,
            te,
        ),
    ensures
        moves_loop(b, l, t, depth, ply, alpha, beta, i, best, bm, r, rm, te),
{
    reveal_with_fuel(searched, 1);
    reveal_with_fuel(moves_searched, 1);
    reveal_with_fuel(moves_loop, 1);
    reveal_with_fuel(one_searched, 1);
    reveal_with_fuel(move_child, 1);
    reveal_with_fuel(researched, 1);
    reveal_with_fuel(second_search, 1);
    reveal(witnessed);
    assert(witnessed((s, t2)) && one_searched(b, l[i], i, t, depth, ply, alpha, beta, s, t2));
}

/// The first move: a full search of the position after it.
pub(crate) proof fn lemma_one_searched_first(
    b: Board,
    mv: Move,
    t: Seq<Option<TTEntry>>,
    depth: int,
    ply: int,
    alpha: int,
    beta: int,
    b1: Board,
    c: int,
    t3: Seq<Option<TTEntry>>,
)
    requires
        depth > 0,
        make_post(b, mv, b1),
        searched(b1, t, depth - 1, ply + 1, -beta, -alpha, true, c, t3),
    ensures
        one_searched(b, mv, 0, t, depth, ply, alpha, beta, -c, t3),
{
    reveal_with_fuel(searched, 1);
    reveal_with_fuel(moves_searched, 1);
    reveal_with_fuel(moves_loop, 1);
    reveal_with_fuel(one_searched, 1);
    reveal_with_fuel(move_child, 1);
    reveal_with_fuel(researched, 1);
    reveal_with_fuel(second_search, 1);
    reveal(witnessed);
    assert(witnessed(c) && searched(b1, t, depth - 1, ply + 1, -beta, -alpha, true, c, t3) && -c == -c);
    assert(move_child(b1, mv, 0, t, depth, ply, alpha, beta, -c, t3));
    assert(witnessed(b1) && make_post(b, mv, b1));
}

/// A later move: a null-window search at `first_depth`, then the searches
/// again.
pub(crate) proof fn lemma_one_searched_later(
    b: Board,
    mv: Move,
    i: int,
    t: Seq<Option<TTEntry>>,
    depth: int,
    ply: int,
    alpha: int,
    beta: int,
    b1: Board,
    c1: int,
    ta: Seq<Option<TTEntry>>,
    s: int,
    t3: Seq<Option<TTEntry>>,
)
    requires
        depth > 0,
        i != 0,
        make_post(b, mv, b1),
        0 <= first_depth(i, depth, mv) < depth,
        searched(b1, t, first_depth(i, depth, mv), ply + 1, -alpha - 1, -alpha, true, c1, ta),
        researched(b1, ta, first_depth(i, depth, mv), depth, ply, alpha, beta, -c1, s, t3),
    ensures
        one_searched(b, mv, i, t, depth, ply, alpha, beta, s, t3),
{
    reveal_with_fuel(searched, 1);
    reveal_with_fuel(moves_searched, 1);
    reveal_with_fuel(moves_loop, 1);
    reveal_with_fuel(one_searched, 1);
    reveal_with_fuel(move_child, 1);
    reveal_with_fuel(researched, 1);
    reveal_with_fuel(second_search, 1);
    reveal(witnessed);
    assert(witnessed((c1, ta)) && searched(b1, t, first_depth(i, depth, mv), ply + 1, -alpha - 1, -alpha, true,
        c1, ta));
    assert(move_child(b1, mv, i, t, depth, ply, alpha, beta, s, t3));
    assert(witnessed(b1) && make_post(b, mv, b1));
}

/// No second search: the score and table stay.
pub(crate) proof fn lemma_second_search_none(
    b1: Board,
    ta: Seq<Option<TTEntry>>,
    fd: int,
    depth: int,
    ply: int,
    alpha: int,
    beta: int,
    s1: int,
)
    requires
        depth > 0,
        !(fd < depth - 1 && s1 > alpha),
    ensures
        second_search(b1, ta, fd, depth, ply, alpha, beta, s1, s1, ta),
{
    reveal_with_fuel(searched, 1);
    reveal_with_fuel(moves_searched, 1);
    reveal_with_fuel(moves_loop, 1);
    reveal_with_fuel(one_searched, 1);
    reveal_with_fuel(move_child, 1);
    reveal_with_fuel(researched, 1);
    reveal_with_fuel(second_search, 1);
}

/// The second search of a reduced move that beat `alpha`.
pub(crate) proof fn lemma_second_search_again(
    b1: Board,
    ta: Seq<Option<TTEntry>>,
    fd: int,
    depth: int,
    ply: int,
    alpha: int,
    beta: int,
    s1: int,
    bx: Board,
    c2: int,
    tb: Seq<Option<TTEntry>>,
)
    requires
        depth > 0,
        fd < depth - 1 && s1 > alpha,
        same_position(b1, bx),
        searched(bx, ta, depth - 1, ply + 1, -beta, -alpha, true, c2, tb),
    ensures
        second_search(b1, ta, fd, depth, ply, alpha, beta, s1, -c2, tb),
{
    reveal_with_fuel(searched, 1);
    reveal_with_fuel(moves_searched, 1);
    reveal_with_fuel(moves_loop, 1);
    reveal_with_fuel(one_searched, 1);
    reveal_with_fuel(move_child, 1);
    reveal_with_fuel(researched, 1);
    reveal_with_fuel(second_search, 1);
    reveal(witnessed);
    assert(witnessed((bx, c2)) && same_position(b1, bx) && searched(bx, ta, depth - 1, ply + 1, -beta, -alpha,
        true, c2, tb));
}

/// No last search: the score of the second search stands.
pub(crate) proof fn lemma_researched_none(
    b1: Board,
    ta: Seq<Option<TTEntry>>,
    fd: int,
    depth: int,
    ply: int,
    alpha: int,
    beta: int,
    s1: int,
    s2: int,
    tb: Seq<Option<TTEntry>>,
)
    requires
        depth > 0,
        second_search(b1, ta, fd, depth, ply, alpha, beta, s1, s2, tb),
        !(s2 > alpha && s2 < beta),
    ensures
        researched(b1, ta, fd, depth, ply, alpha, beta, s1, s2, tb),
{
    reveal_with_fuel(searched, 1);
    reveal_with_fuel(moves_searched, 1);
    reveal_with_fuel(moves_loop, 1);
    reveal_with_fuel(one_searched, 1);
    reveal_with_fuel(move_child, 1);
    reveal_with_fuel(researched, 1);
    reveal_with_fuel(second_search, 1);
    reveal(witnessed);
    assert(witnessed((s2, tb)) && second_search(b1, ta, fd, depth, ply, alpha, beta, s1, s2, tb));
}

/// The last search, of a score inside the window.
pub(crate) proof fn lemma_researched_again(
    b1: Board,
    ta: Seq<Option<TTEntry>>,
    fd: int,
    depth: int,
    ply: int,
    alpha: int,
    beta: int,
    s1: int,
    s2: int,
    tb: Seq<Option<TTEntry>>,
    bx: Board,
    c3: int,
    t3: Seq<Option<TTEntry>>,
)
    requires
        depth > 0,
        second_search(b1, ta, fd, depth, ply, alpha, beta, s1, s2, tb),
        s2 > alpha && s2 < beta,
        same_position(b1, bx),
        searched(bx, tb, depth - 1, ply + 1, -beta, -alpha, true, c3, t3),
    ensures
        researched(b1, ta, fd, depth, ply, alpha, beta, s1, -c3, t3),
{
    reveal_with_fuel(searched, 1);
    reveal_with_fuel(moves_searched, 1);
    reveal_with_fuel(moves_loop, 1);
    reveal_with_fuel(one_searched, 1);
    reveal_with_fuel(move_child, 1);
    reveal_with_fuel(researched, 1);
    reveal_with_fuel(second_search, 1);
    reveal(witnessed);
    assert(witnessed((s2, tb)) && second_search(b1, ta, fd, depth, ply, alpha, beta, s1, s2, tb));
    assert(witnessed((bx, c3)) && same_position(b1, bx) && searched(bx, tb, depth - 1, ply + 1, -beta, -alpha,
        true, c3, t3));
}

/// The lower bound the root search has after the scores `sc`: the
/// highest of them, and at least `-INF`.
pub open spec fn root_alpha(sc: Seq<int>) -> int
    decreases sc.len(),
{
    if sc.len() == 0 {
        -INF as int
    } else {
        let a = root_alpha(sc.drop_last());
        if sc.last() > a {
            sc.last()
        } else {
            a
        }
    }
}

/// In the round at `depth` from the table `t0`, the first `k` root moves
/// of `l` were scored `sc`, leaving the table `tk`: each was played and
/// the position it leads to searched one ply less deep, with the window
/// `-INF` .. minus the best score before it, and scored minus that.
#[verifier::opaque]
pub open spec fn root_prefix(
    b: Board,
    l: Seq<Move>,
    t0: Seq<Option<TTEntry>>,
    depth: int,
    k: int,
    sc: Seq<int>,
    tk: Seq<Option<TTEntry>>,
) -> bool
    decreases k,
{
    if k <= 0 {
        k == 0 && sc.len() == 0 && tk == t0
    } else {
        exists|tp: Seq<Option<TTEntry>>, b1: Board, c: int|
            #![trigger witnessed((tp, b1, c))]
            witnessed((tp, b1, c)) && sc.len() == k && k <= l.len() && root_prefix(
                b,
                l,
                t0,
                depth,
                k - 1,
                sc.drop_last(),
                tp,
            ) && make_post(b, l[k - 1], b1) && searched(
                b1,
                tp,
                depth - 1,
                1,
                -INF as int,
                -root_alpha(sc.drop_last()),
                true,
                c,
                tk,
            ) && sc.last() == -c
    }
}

/// A whole round at `depth` from the table `t0`: the legal moves, in the
/// order `l` (the table's move first, then by ordering score), scored
/// `sc`, leaving the table `t1`.
pub open spec fn round_done(
    b: Board,
    t0: Seq<Option<TTEntry>>,
    depth: int,
    l: Seq<Move>,
    sc: Seq<int>,
    t1: Seq<Option<TTEntry>>,
) -> bool {
    &&& lists_legal(b, l)
    &&& keys_descending(l, table_move(t0, b), 0, l.len() as int)
    &&& sc.len() == l.len()
    &&& root_prefix(b, l, t0, depth, l.len() as int, sc, t1)
}

/// `mv` is the last move of `l` with the highest score in `sc`, `s`.
pub open spec fn best_in(l: Seq<Move>, sc: Seq<int>, mv: Move, s: int) -> bool {
    exists|bi: int|
        0 <= bi < l.len() && l[bi] == mv && #[trigger] sc[bi] == s && (forall|j: int|
            0 <= j < sc.len() ==> #[trigger] sc[j] <= s) && (forall|j: int| bi < j < sc.len() ==> #[trigger] sc[j] < s)
}

/// Iterative deepening from the table `t0` completed the rounds at depths
/// 1 to `n`, each from the table the one before left, the last leaving
/// `t1`; `mv`, scored `s`, is the best move of the last.
#[verifier::opaque]
pub open spec fn rounds_upto(
    b: Board,
    t0: Seq<Option<TTEntry>>,
    n: int,
    mv: Move,
    s: int,
    t1: Seq<Option<TTEntry>>,
) -> bool
    decreases n,
{
    if n <= 0 {
        false
    } else {
        exists|tp: Seq<Option<TTEntry>>, l: Seq<Move>, sc: Seq<int>, pm: Move, ps: int|
            #![trigger witnessed((tp, l, sc, pm, ps))]
            witnessed((tp, l, sc, pm, ps)) && (if n == 1 {
                tp == t0
            } else {
                rounds_upto(b, t0, n - 1, pm, ps, tp)
            }) && round_done(b, tp, n, l, sc, t1) && best_in(l, sc, mv, s)
    }
}

/// The rounds at depths 1 to `n` were completed from the table `t0`, and
/// `mv`, scored `s`, is the best move of the last (see `rounds_upto`).
pub open spec fn rounds_completed(b: Board, t0: Seq<Option<TTEntry>>, n: int, mv: Move, s: int) -> bool {
    exists|te: Seq<Option<TTEntry>>| #[trigger] rounds_upto(b, t0, n, mv, s, te)
}

/// No root move scored yet.
pub(crate) proof fn lemma_root_prefix_start(b: Board, l: Seq<Move>, t0: Seq<Option<TTEntry>>, depth: int)
    ensures
        root_prefix(b, l, t0, depth, 0, Seq::empty(), t0),
{
    reveal_with_fuel(root_prefix, 1);
}

/// One more root move scored.
pub(crate) proof fn lemma_root_prefix_step(
    b: Board,
    l: Seq<Move>,
    t0: Seq<Option<TTEntry>>,
    depth: int,
    k: int,
    sc: Seq<int>,
    tk: Seq<Option<TTEntry>>,
    b1: Board,
    c: int,
    t2: Seq<Option<TTEntry>>,
)
    requires
        0 <= k < l.len(),
        sc.len() == k,
        root_prefix(b, l, t0, depth, k, sc, tk),
        make_post(b, l[k], b1),
        searched(b1, tk, depth - 1, 1, -INF as int, -root_alpha(sc), true, c, t2),
    ensures
        root_prefix(b, l, t0, depth, k + 1, sc.push(-c), t2),
{
    reveal_with_fuel(root_prefix, 1);
    reveal(witnessed);
    assert(sc.push(-c).drop_last() =~= sc);
    assert(witnessed((tk, b1, c)) && root_prefix(b, l, t0, depth, k, sc.push(-c).drop_last(), tk));
}

/// One more round completed.
pub(crate) proof fn lemma_rounds_step(
    b: Board,
    t0: Seq<Option<TTEntry>>,
    n: int,
    pm: Move,
    ps: int,
    tp: Seq<Option<TTEntry>>,
    l: Seq<Move>,
    sc: Seq<int>,
    t1: Seq<Option<TTEntry>>,
    mv: Move,
    s: int,
)
    requires
        n >= 1,
        n == 1 ==> tp == t0,
        n > 1 ==> rounds_upto(b, t0, n - 1, pm, ps, tp),
        round_done(b, tp, n, l, sc, t1),
        best_in(l, sc, mv, s),
    ensures
        rounds_upto(b, t0, n, mv, s, t1),
{
    reveal_with_fuel(rounds_upto, 1);
    reveal(witnessed);
    assert(witnessed((tp, l, sc, pm, ps)));
}

/// A search the table settles gives the table's score and leaves the
/// table as it was.
pub proof fn lemma_searched_by_table(
    b: Board,
    t0: Seq<Option<TTEntry>>,
    depth: int,
    ply: int,
    alpha: int,
    beta: int,
    allow: bool,
    r: int,
    t1: Seq<Option<TTEntry>>,
)
    requires
        searched(b, t0, depth, ply, alpha, beta, allow, r, t1),
        probe_outcome(probe_spec(t0, b.zobrist_hash), depth, ply, alpha as i32, beta as i32).0 is Some,
    ensures
        probe_outcome(probe_spec(t0, b.zobrist_hash), depth, ply, alpha as i32, beta as i32).0 == Some(r as i32),
        r == probe_outcome(probe_spec(t0, b.zobrist_hash), depth, ply, alpha as i32, beta as i32).0->0,
        t1 == t0,
{
    reveal_with_fuel(searched, 1);
    reveal_with_fuel(moves_searched, 1);
    reveal_with_fuel(moves_loop, 1);
    reveal_with_fuel(one_searched, 1);
    reveal_with_fuel(move_child, 1);
    reveal_with_fuel(researched, 1);
    reveal_with_fuel(second_search, 1);
}

/// A search at depth 0 with no table entry for the position gives the
/// evaluation, or the mate or draw score when there is no legal move, and
/// leaves the table as it was.
pub proof fn lemma_searched_depth_zero(
    b: Board,
    t0: Seq<Option<TTEntry>>,
    ply: int,
    alpha: int,
    beta: int,
    allow: bool,
    r: int,
    t1: Seq<Option<TTEntry>>,
)
    requires
        searched(b, t0, 0, ply, alpha, beta, allow, r, t1),
        probe_spec(t0, b.zobrist_hash) is None,
    ensures
        t1 == t0,
        r == (if has_legal_move(b) {
            eval_of(b)
        } else if king_in_check(b.pieces, b.player_turn as int) {
            mated_score(ply)
        } else {
            0
        }),
{
    reveal_with_fuel(searched, 2);
    reveal_with_fuel(moves_searched, 2);
    reveal_with_fuel(moves_loop, 1);
    reveal_with_fuel(one_searched, 1);
    reveal_with_fuel(move_child, 1);
    reveal_with_fuel(researched, 1);
    reveal_with_fuel(second_search, 1);
}

/// A search with no table entry for the position, where no null move is
/// tried, of a side with no legal move gives the mate score when it is in
/// check and 0 (stalemate) when it is not, and leaves the table as it was.
pub proof fn lemma_searched_no_move(
    b: Board,
    t0: Seq<Option<TTEntry>>,
    depth: int,
    ply: int,
    alpha: int,
    beta: int,
    allow: bool,
    r: int,
    t1: Seq<Option<TTEntry>>,
)
    requires
        searched(b, t0, depth, ply, alpha, beta, allow, r, t1),
        i32::MIN <= alpha <= i32::MAX,
        i32::MIN <= beta <= i32::MAX,
        probe_spec(t0, b.zobrist_hash) is None,
        !has_legal_move(b),
        !null_allowed(b, depth, beta, allow, king_in_check(b.pieces, b.player_turn as int)),
    ensures
        t1 == t0,
        r == (if king_in_check(b.pieces, b.player_turn as int) {
            mated_score(ply)
        } else {
            0
        }),
{
    reveal_with_fuel(searched, 2);
    reveal_with_fuel(moves_searched, 2);
    reveal_with_fuel(moves_loop, 1);
    reveal_with_fuel(one_searched, 1);
    reveal_with_fuel(move_child, 1);
    reveal_with_fuel(researched, 1);
    reveal_with_fuel(second_search, 1);
}

} // verus!
