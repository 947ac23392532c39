//! Board geometry: squares 0..64 (a1 = 0, h8 = 63), files, ranks, lines
//! between squares, and the attack relation of every kind of piece.
use vstd::prelude::*;
use crate::bits::bit;

verus! {

pub open spec fn on_board(s: int) -> bool {
    0 <= s < 64
}

pub open spec fn file(s: int) -> int {
    s % 8
}

pub open spec fn rank(s: int) -> int {
    s / 8
}

pub open spec fn absd(x: int) -> int {
    if x < 0 {
        -x
    } else {
        x
    }
}

/// A knight on `s` attacks `t`.
pub open spec fn knight_rel(s: int, t: int) -> bool {
    &&& on_board(s)
    &&& on_board(t)
    &&& {
        let df = absd(file(t) - file(s));
        let dr = absd(rank(t) - rank(s));
        (df == 1 && dr == 2) || (df == 2 && dr == 1)
    }
}

/// A king on `s` attacks `t`.
pub open spec fn king_rel(s: int, t: int) -> bool {
    &&& on_board(s)
    &&& on_board(t)
    &&& s != t
    &&& absd(file(t) - file(s)) <= 1
    &&& absd(rank(t) - rank(s)) <= 1
}

/// Direction in which a pawn of color `c` (0 = white, 1 = black) moves.
pub open spec fn forward(c: int) -> int {
    if c == 0 {
        1
    } else {
        -1
    }
}

/// A pawn of color `c` on `s` attacks `t`.
pub open spec fn pawn_attack_rel(c: int, s: int, t: int) -> bool {
    &&& on_board(s)
    &&& on_board(t)
    &&& absd(file(t) - file(s)) == 1
    &&& rank(t) - rank(s) == forward(c)
}

pub open spec fn same_rank(s: int, t: int) -> bool {
    rank(s) == rank(t)
}

pub open spec fn same_file(s: int, t: int) -> bool {
    file(s) == file(t)
}

pub open spec fn same_diag(s: int, t: int) -> bool {
    rank(t) - rank(s) == file(t) - file(s)
}

pub open spec fn same_anti(s: int, t: int) -> bool {
    rank(t) - rank(s) == file(s) - file(t)
}

pub open spec fn min(a: int, b: int) -> int {
    if a < b {
        a
    } else {
        b
    }
}

pub open spec fn max(a: int, b: int) -> int {
    if a < b {
        b
    } else {
        a
    }
}

/// `x` lies strictly between `s` and `t` on the rank, file or diagonal
/// that joins them.
pub open spec fn between(s: int, t: int, x: int) -> bool {
    &&& on_board(x)
    &&& x != s
    &&& x != t
    &&& {
        ||| same_rank(s, t) && same_rank(s, x)
        ||| same_file(s, t) && same_file(s, x)
        ||| same_diag(s, t) && same_diag(s, x)
        ||| same_anti(s, t) && same_anti(s, x)
    }
    &&& min(rank(s), rank(t)) <= rank(x) <= max(rank(s), rank(t))
    &&& min(file(s), file(t)) <= file(x) <= max(file(s), file(t))
}

/// No square of `occ` lies between `s` and `t`.
pub open spec fn clear(s: int, t: int, occ: u64) -> bool {
    forall|x: int| #[trigger] between(s, t, x) ==> !bit(occ, x)
}

pub open spec fn rook_line(s: int, t: int) -> bool {
    &&& on_board(s)
    &&& on_board(t)
    &&& s != t
    &&& (same_rank(s, t) || same_file(s, t))
}

pub open spec fn bishop_line(s: int, t: int) -> bool {
    &&& on_board(s)
    &&& on_board(t)
    &&& s != t
    &&& (same_diag(s, t) || same_anti(s, t))
}

/// A rook on `s` attacks `t` when the squares of `occ` are occupied.
pub open spec fn rook_attack(s: int, t: int, occ: u64) -> bool {
    rook_line(s, t) && clear(s, t, occ)
}

/// A bishop on `s` attacks `t` when the squares of `occ` are occupied.
pub open spec fn bishop_attack(s: int, t: int, occ: u64) -> bool {
    bishop_line(s, t) && clear(s, t, occ)
}

pub open spec fn queen_attack(s: int, t: int, occ: u64) -> bool {
    rook_attack(s, t, occ) || bishop_attack(s, t, occ)
}

pub proof fn lemma_between_symmetric(s: int, t: int)
    ensures
        forall|x: int| #[trigger] between(s, t, x) == between(t, s, x),
{
}

/// Every attack relation is symmetric, with the pawn's turned around.
pub proof fn lemma_attacks_symmetric(s: int, t: int, occ: u64)
    ensures
        knight_rel(s, t) == knight_rel(t, s),
        king_rel(s, t) == king_rel(t, s),
        pawn_attack_rel(0, s, t) == pawn_attack_rel(1, t, s),
        pawn_attack_rel(1, s, t) == pawn_attack_rel(0, t, s),
        rook_attack(s, t, occ) == rook_attack(t, s, occ),
        bishop_attack(s, t, occ) == bishop_attack(t, s, occ),
{
    lemma_between_symmetric(s, t);
    if clear(s, t, occ) {
        assert forall|x: int| #[trigger] between(t, s, x) implies !bit(occ, x) by {
            assert(between(s, t, x));
        }
    }
    if clear(t, s, occ) {
        assert forall|x: int| #[trigger] between(s, t, x) implies !bit(occ, x) by {
            assert(between(t, s, x));
        }
    }
}

} // verus!
