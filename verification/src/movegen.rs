//! Precomputed attack tables for leaping pieces, sliding-piece attacks,
//! and the packed `Move` encoding.
use vstd::prelude::*;
use crate::bits::{bit, single, lemma_bit_and, lemma_bit_or, lemma_bit_not, lemma_bit_single,
    lemma_bit_zero, lemma_bit_shl, lemma_bit_shr, lemma_mask_test};
use crate::geometry::{on_board, rank, file, absd, max, forward, knight_rel, king_rel,
    pawn_attack_rel, between, clear, rook_line, bishop_line, rook_attack, bishop_attack,
    queen_attack};
use crate::bitboard::{BitBoard, FILE_A, FILE_B, FILE_G, FILE_H, FILE_AB, FILE_GH};
use crate::types::PieceKind;

verus! {

broadcast use vstd::array::group_array_axioms;

pub proof fn lemma_file_masks()
    ensures
        forall|t: int| 0 <= t < 64 ==> #[trigger] bit(FILE_A, t) == (t % 8 == 0),
        forall|t: int| 0 <= t < 64 ==> #[trigger] bit(FILE_B, t) == (t % 8 == 1),
        forall|t: int| 0 <= t < 64 ==> #[trigger] bit(FILE_G, t) == (t % 8 == 6),
        forall|t: int| 0 <= t < 64 ==> #[trigger] bit(FILE_H, t) == (t % 8 == 7),
        forall|t: int| 0 <= t < 64 ==> #[trigger] bit(FILE_AB, t) == (t % 8 <= 1),
        forall|t: int| 0 <= t < 64 ==> #[trigger] bit(FILE_GH, t) == (t % 8 >= 6),
{
    assert forall|t: int| 0 <= t < 64 implies #[trigger] bit(FILE_A, t) == (t % 8 == 0) by {
        let j = t as u64;
        assert(((FILE_A >> j) & 1u64 == 1u64) == (j % 8 == 0)) by (bit_vector)
            requires j < 64;
    }
    assert forall|t: int| 0 <= t < 64 implies #[trigger] bit(FILE_B, t) == (t % 8 == 1) by {
        let j = t as u64;
        assert(((FILE_B >> j) & 1u64 == 1u64) == (j % 8 == 1)) by (bit_vector)
            requires j < 64;
    }
    assert forall|t: int| 0 <= t < 64 implies #[trigger] bit(FILE_G, t) == (t % 8 == 6) by {
        let j = t as u64;
        assert(((FILE_G >> j) & 1u64 == 1u64) == (j % 8 == 6)) by (bit_vector)
            requires j < 64;
    }
    assert forall|t: int| 0 <= t < 64 implies #[trigger] bit(FILE_H, t) == (t % 8 == 7) by {
        let j = t as u64;
        assert(((FILE_H >> j) & 1u64 == 1u64) == (j % 8 == 7)) by (bit_vector)
            requires j < 64;
    }
    assert forall|t: int| 0 <= t < 64 implies #[trigger] bit(FILE_AB, t) == (t % 8 <= 1) by {
        let j = t as u64;
        assert(((FILE_AB >> j) & 1u64 == 1u64) == (j % 8 <= 1)) by (bit_vector)
            requires j < 64;
    }
    assert forall|t: int| 0 <= t < 64 implies #[trigger] bit(FILE_GH, t) == (t % 8 >= 6) by {
        let j = t as u64;
        assert(((FILE_GH >> j) & 1u64 == 1u64) == (j % 8 >= 6)) by (bit_vector)
            requires j < 64;
    }
}

/// Bit `t` of `(single(s) << k) & !m`, for a file mask `m`.
proof fn lemma_shifted_masked(s: int, k: u64, up: bool, m: u64)
    requires
        0 <= s < 64,
        k < 64,
    ensures
        up ==> forall|t: int| #[trigger] bit((single(s) << k) & !m, t) == (on_board(t) && t
            == s + k && !bit(m, t)),
        !up ==> forall|t: int| #[trigger] bit((single(s) >> k) & !m, t) == (on_board(t) && t
            == s - k && !bit(m, t)),
{
    lemma_bit_single(s);
    lemma_bit_shl(single(s), k);
    lemma_bit_shr(single(s), k);
    lemma_bit_and(single(s) << k, !m);
    lemma_bit_and(single(s) >> k, !m);
    lemma_bit_not(m);
}

/// Squares a knight on `sq` attacks.
pub open spec fn knight_mask(sq: int) -> u64 {
    let n = single(sq);
    ((n << 17u64) & !FILE_A) | ((n << 15u64) & !FILE_H) | ((n >> 15u64) & !FILE_A) | ((n
        >> 17u64) & !FILE_H) | ((n << 10u64) & !FILE_AB) | ((n << 6u64) & !FILE_GH) | ((n
        >> 6u64) & !FILE_AB) | ((n >> 10u64) & !FILE_GH)
}

/// Squares a king on `sq` attacks.
pub open spec fn king_mask(sq: int) -> u64 {
    let k = single(sq);
    (k << 8u64) | (k >> 8u64) | ((k >> 1u64) & !FILE_H) | ((k << 1u64) & !FILE_A) | ((k
        << 7u64) & !FILE_H) | ((k << 9u64) & !FILE_A) | ((k >> 9u64) & !FILE_H) | ((k >> 7u64)
        & !FILE_A)
}

/// Squares a pawn of color `c` on `sq` attacks.
pub open spec fn pawn_attack_mask(c: int, sq: int) -> u64 {
    let p = single(sq);
    if c == 0 {
        ((p << 7u64) & !FILE_H) | ((p << 9u64) & !FILE_A)
    } else {
        ((p >> 9u64) & !FILE_H) | ((p >> 7u64) & !FILE_A)
    }
}

/// The square one step ahead of a pawn of color `c` on `sq`.
pub open spec fn pawn_single_mask(c: int, sq: int) -> u64 {
    if c == 0 {
        single(sq) << 8u64
    } else {
        single(sq) >> 8u64
    }
}

/// The square two steps ahead, for a pawn still on its starting rank.
pub open spec fn pawn_double_mask(c: int, sq: int) -> u64 {
    if c == 0 && 8 <= sq <= 15 {
        single(sq) << 16u64
    } else if c == 1 && 48 <= sq <= 55 {
        single(sq) >> 16u64
    } else {
        0
    }
}

pub proof fn lemma_knight_mask(sq: int)
    requires
        0 <= sq < 64,
    ensures
        forall|t: int| #[trigger] bit(knight_mask(sq), t) == knight_rel(sq, t),
{
    let n = single(sq);
    lemma_file_masks();
    lemma_shifted_masked(sq, 17, true, FILE_A);
    lemma_shifted_masked(sq, 15, true, FILE_H);
    lemma_shifted_masked(sq, 15, false, FILE_A);
    lemma_shifted_masked(sq, 17, false, FILE_H);
    lemma_shifted_masked(sq, 10, true, FILE_AB);
    lemma_shifted_masked(sq, 6, true, FILE_GH);
    lemma_shifted_masked(sq, 6, false, FILE_AB);
    lemma_shifted_masked(sq, 10, false, FILE_GH);
    let a1 = (n << 17u64) & !FILE_A;
    let a2 = (n << 15u64) & !FILE_H;
    let a3 = (n >> 15u64) & !FILE_A;
    let a4 = (n >> 17u64) & !FILE_H;
    let a5 = (n << 10u64) & !FILE_AB;
    let a6 = (n << 6u64) & !FILE_GH;
    let a7 = (n >> 6u64) & !FILE_AB;
    let a8 = (n >> 10u64) & !FILE_GH;
    lemma_bit_or(a1, a2);
    lemma_bit_or(a1 | a2, a3);
    lemma_bit_or(a1 | a2 | a3, a4);
    lemma_bit_or(a1 | a2 | a3 | a4, a5);
    lemma_bit_or(a1 | a2 | a3 | a4 | a5, a6);
    lemma_bit_or(a1 | a2 | a3 | a4 | a5 | a6, a7);
    lemma_bit_or(a1 | a2 | a3 | a4 | a5 | a6 | a7, a8);
    assert forall|t: int| #[trigger] bit(knight_mask(sq), t) == knight_rel(sq, t) by {
        if on_board(t) {
            assert(bit(knight_mask(sq), t) == (bit(a1, t) || bit(a2, t) || bit(a3, t) || bit(a4, t)
                || bit(a5, t) || bit(a6, t) || bit(a7, t) || bit(a8, t)));
        }
    }
}

pub proof fn lemma_king_mask(sq: int)
    requires
        0 <= sq < 64,
    ensures
        forall|t: int| #[trigger] bit(king_mask(sq), t) == king_rel(sq, t),
{
    let k = single(sq);
    lemma_file_masks();
    lemma_bit_single(sq);
    lemma_bit_shl(k, 8);
    lemma_bit_shr(k, 8);
    lemma_shifted_masked(sq, 1, false, FILE_H);
    lemma_shifted_masked(sq, 1, true, FILE_A);
    lemma_shifted_masked(sq, 7, true, FILE_H);
    lemma_shifted_masked(sq, 9, true, FILE_A);
    lemma_shifted_masked(sq, 9, false, FILE_H);
    lemma_shifted_masked(sq, 7, false, FILE_A);
    let a1 = k << 8u64;
    let a2 = k >> 8u64;
    let a3 = (k >> 1u64) & !FILE_H;
    let a4 = (k << 1u64) & !FILE_A;
    let a5 = (k << 7u64) & !FILE_H;
    let a6 = (k << 9u64) & !FILE_A;
    let a7 = (k >> 9u64) & !FILE_H;
    let a8 = (k >> 7u64) & !FILE_A;
    lemma_bit_or(a1, a2);
    lemma_bit_or(a1 | a2, a3);
    lemma_bit_or(a1 | a2 | a3, a4);
    lemma_bit_or(a1 | a2 | a3 | a4, a5);
    lemma_bit_or(a1 | a2 | a3 | a4 | a5, a6);
    lemma_bit_or(a1 | a2 | a3 | a4 | a5 | a6, a7);
    lemma_bit_or(a1 | a2 | a3 | a4 | a5 | a6 | a7, a8);
    assert forall|t: int| #[trigger] bit(king_mask(sq), t) == king_rel(sq, t) by {
        if on_board(t) {
            assert(bit(king_mask(sq), t) == (bit(a1, t) || bit(a2, t) || bit(a3, t) || bit(a4, t)
                || bit(a5, t) || bit(a6, t) || bit(a7, t) || bit(a8, t)));
        }
    }
}

pub proof fn lemma_pawn_attack_mask(c: int, sq: int)
    requires
        0 <= sq < 64,
        c == 0 || c == 1,
    ensures
        forall|t: int| #[trigger] bit(pawn_attack_mask(c, sq), t) == pawn_attack_rel(c, sq, t),
{
    let p = single(sq);
    lemma_file_masks();
    lemma_shifted_masked(sq, 7, true, FILE_H);
    lemma_shifted_masked(sq, 9, true, FILE_A);
    lemma_shifted_masked(sq, 9, false, FILE_H);
    lemma_shifted_masked(sq, 7, false, FILE_A);
    lemma_bit_or((p << 7u64) & !FILE_H, (p << 9u64) & !FILE_A);
    lemma_bit_or((p >> 9u64) & !FILE_H, (p >> 7u64) & !FILE_A);
}

pub proof fn lemma_pawn_push_masks(c: int, sq: int)
    requires
        0 <= sq < 64,
        c == 0 || c == 1,
    ensures
        forall|t: int| #[trigger] bit(pawn_single_mask(c, sq), t) == (on_board(t) && t == sq + 8
            * forward(c)),
        forall|t: int| #[trigger] bit(pawn_double_mask(c, sq), t) == (on_board(t) && t == sq + 16
            * forward(c) && rank(sq) == (if c == 0 {
            1int
        } else {
            6int
        })),
{
    lemma_bit_single(sq);
    lemma_bit_shl(single(sq), 8);
    lemma_bit_shr(single(sq), 8);
    lemma_bit_shl(single(sq), 16);
    lemma_bit_shr(single(sq), 16);
    lemma_bit_zero();
}

/// Squares visited by a slider moving from `s` in direction `dir`:
/// 0 north, 1 south, 2 east, 3 west, 4 north-east, 5 north-west,
/// 6 south-east, 7 south-west.
pub open spec fn in_dir(dir: int, s: int, t: int) -> bool {
    &&& on_board(s)
    &&& on_board(t)
    &&& {
        let dr = rank(t) - rank(s);
        let df = file(t) - file(s);
        if dir == 0 {
            df == 0 && dr > 0
        } else if dir == 1 {
            df == 0 && dr < 0
        } else if dir == 2 {
            dr == 0 && df > 0
        } else if dir == 3 {
            dr == 0 && df < 0
        } else if dir == 4 {
            dr == df && dr > 0
        } else if dir == 5 {
            dr == -df && dr > 0
        } else if dir == 6 {
            dr == -df && dr < 0
        } else if dir == 7 {
            dr == df && dr < 0
        } else {
            false
        }
    }
}

/// Number of king steps from `s` to `t`.
pub open spec fn dist(s: int, t: int) -> int {
    max(absd(rank(t) - rank(s)), absd(file(t) - file(s)))
}

pub open spec fn delta(dir: int) -> int {
    if dir == 0 {
        8
    } else if dir == 1 {
        -8
    } else if dir == 2 {
        1
    } else if dir == 3 {
        -1
    } else if dir == 4 {
        9
    } else if dir == 5 {
        7
    } else if dir == 6 {
        -7
    } else {
        -9
    }
}

pub open spec fn can_step(dir: int, r: int) -> bool {
    if dir == 0 {
        r < 56
    } else if dir == 1 {
        r >= 8
    } else if dir == 2 {
        r % 8 != 7
    } else if dir == 3 {
        r % 8 != 0
    } else if dir == 4 {
        r < 56 && r % 8 != 7
    } else if dir == 5 {
        r < 56 && r % 8 != 0
    } else if dir == 6 {
        r >= 8 && r % 8 != 7
    } else {
        r >= 8 && r % 8 != 0
    }
}

/// One step along a ray: the next square lies in the direction, one step
/// further, and no other square of the ray lies at that distance; when no
/// step is possible the ray has ended.
#[verifier::rlimit(80)]
proof fn lemma_step(dir: int, s: int, r: int)
    requires
        0 <= dir < 8,
        on_board(s),
        r == s || in_dir(dir, s, r),
    ensures
        r == s ==> dist(s, r) == 0,
        in_dir(dir, s, r) ==> dist(s, r) >= 1,
        can_step(dir, r) ==> {
            let n = r + delta(dir);
            &&& on_board(n)
            &&& in_dir(dir, s, n)
            &&& dist(s, n) == dist(s, r) + 1
        },
        can_step(dir, r) ==> forall|t: int|
            in_dir(dir, s, t) && #[trigger] dist(s, t) == dist(s, r) + 1 ==> t == r + delta(dir),
        !can_step(dir, r) ==> forall|t: int|
            in_dir(dir, s, t) ==> #[trigger] dist(s, t) <= dist(s, r),
        forall|t: int| in_dir(dir, s, t) && #[trigger] dist(s, t) == dist(s, r) ==> t == r,
{
}

/// On a ray, the squares between `s` and `t` are the ray's squares closer
/// to `s` than `t` is.
proof fn lemma_between_on_ray(dir: int, s: int, t: int)
    requires
        0 <= dir < 8,
        in_dir(dir, s, t),
    ensures
        forall|x: int| #[trigger] between(s, t, x) == (in_dir(dir, s, x) && dist(s, x) < dist(s, t)),
{
}

/// The rook lines and bishop lines from `s` are the eight rays.
proof fn lemma_lines_are_rays(s: int, t: int)
    requires
        on_board(s),
    ensures
        rook_line(s, t) == (in_dir(0, s, t) || in_dir(1, s, t) || in_dir(2, s, t) || in_dir(3, s, t)),
        bishop_line(s, t) == (in_dir(4, s, t) || in_dir(5, s, t) || in_dir(6, s, t) || in_dir(7, s, t)),
{
}

pub open spec fn ray_attack(dir: int, s: int, t: int, occ: u64) -> bool {
    in_dir(dir, s, t) && clear(s, t, occ)
}

/// Squares a slider on `sq` reaches in direction `dir`, stopping on (and
/// including) the first occupied square.
fn ray(sq: usize, occupied: u64, dir: u8) -> (r: u64)
    requires
        sq < 64,
        dir < 8,
    ensures
        forall|t: int| #[trigger] bit(r, t) == ray_attack(dir as int, sq as int, t, occupied),
{
    let mut attacks = 0u64;
    let mut r_sq = sq;
    let mut blocked = false;
    proof {
        lemma_bit_zero();
        lemma_step(dir as int, sq as int, sq as int);
    }
    while !blocked && can_step_exec(dir, r_sq)
        invariant
            sq < 64,
            dir < 8,
            r_sq < 64,
            r_sq == sq || in_dir(dir as int, sq as int, r_sq as int),
            blocked ==> bit(occupied, r_sq as int) && in_dir(dir as int, sq as int, r_sq as int),
            !blocked && r_sq != sq ==> !bit(occupied, r_sq as int),
            forall|t: int| #[trigger]
                bit(attacks, t) == (in_dir(dir as int, sq as int, t) && dist(sq as int, t) <= dist(
                    sq as int,
                    r_sq as int,
                )),
            forall|x: int|
                in_dir(dir as int, sq as int, x) && #[trigger] dist(sq as int, x) < dist(
                    sq as int,
                    r_sq as int,
                ) ==> !bit(occupied, x),
        decreases 8 - dist(sq as int, r_sq as int),
    {
        proof {
            lemma_step(dir as int, sq as int, r_sq as int);
        }
        let ghost prev = r_sq;
        r_sq = step_exec(dir, r_sq);
        proof {
            lemma_step(dir as int, sq as int, r_sq as int);
            lemma_bit_or(attacks, single(r_sq as int));
            lemma_bit_single(r_sq as int);
            lemma_mask_test(occupied, r_sq as int);
            assert forall|x: int|
                in_dir(dir as int, sq as int, x) && #[trigger] dist(sq as int, x) < dist(
                    sq as int,
                    r_sq as int,
                ) implies !bit(occupied, x) by {
                if dist(sq as int, x) == dist(sq as int, prev as int) {
                    lemma_step(dir as int, sq as int, prev as int);
                    if prev != sq {
                        assert(x == prev);
                    }
                }
            }
        }
        attacks = attacks | (1u64 << (r_sq as u64));
        blocked = (occupied & (1u64 << (r_sq as u64))) != 0;
    }
    proof {
        lemma_step(dir as int, sq as int, r_sq as int);
        assert forall|t: int| #[trigger]
            bit(attacks, t) == ray_attack(dir as int, sq as int, t, occupied) by {
            if in_dir(dir as int, sq as int, t) {
                lemma_between_on_ray(dir as int, sq as int, t);
                if dist(sq as int, t) <= dist(sq as int, r_sq as int) {
                    assert forall|x: int| #[trigger] between(sq as int, t, x) implies !bit(
                        occupied,
                        x,
                    ) by {
                        assert(in_dir(dir as int, sq as int, x) && dist(sq as int, x) < dist(
                            sq as int,
                            r_sq as int,
                        ));
                    }
                } else {
                    assert(blocked);
                    assert(between(sq as int, t, r_sq as int));
                }
            }
        }
    }
    attacks
}

fn can_step_exec(dir: u8, r: usize) -> (b: bool)
    requires
        dir < 8,
        r < 64,
    ensures
        b == can_step(dir as int, r as int),
{
    match dir {
        0 => r < 56,
        1 => r >= 8,
        2 => r % 8 != 7,
        3 => r % 8 != 0,
        4 => r < 56 && r % 8 != 7,
        5 => r < 56 && r % 8 != 0,
        6 => r >= 8 && r % 8 != 7,
        _ => r >= 8 && r % 8 != 0,
    }
}

fn step_exec(dir: u8, r: usize) -> (n: usize)
    requires
        dir < 8,
        r < 64,
        can_step(dir as int, r as int),
    ensures
        n == r + delta(dir as int),
{
    match dir {
        0 => r + 8,
        1 => r - 8,
        2 => r + 1,
        3 => r - 1,
        4 => r + 9,
        5 => r + 7,
        6 => r - 7,
        _ => r - 9,
    }
}

/// The squares strictly between `a` and `b` when they share a rank, file
/// or diagonal; the empty set otherwise.
pub fn ray_between(a: usize, b: usize) -> (r: u64)
    requires
        a < 64,
        b < 64,
    ensures
        forall|x: int| #[trigger] bit(r, x) == between(a as int, b as int, x),
{
    let mut dir: u8 = 0;
    let mut found = false;
    while dir < 8 && !found
        invariant
            a < 64,
            b < 64,
            dir <= 8,
            found ==> dir >= 1 && in_dir(dir - 1, a as int, b as int),
            !found ==> forall|d: int| 0 <= d < dir ==> !#[trigger] in_dir(d, a as int, b as int),
        decreases 8 - dir + (if found { 0int } else { 1int }),
    {
        if in_dir_exec(dir, a, b) {
            found = true;
        }
        dir = dir + 1;
    }
    if !found {
        proof {
            lemma_bit_zero();
            assert forall|x: int| #[trigger] between(a as int, b as int, x) implies false by {
                if rook_line(a as int, b as int) || bishop_line(a as int, b as int) {
                    lemma_lines_are_rays(a as int, b as int);
                }
            }
        }
        return 0;
    }
    let d = dir - 1;
    let m: u64 = 1u64 << (b as u64);
    let reach = ray(a, m, d);
    proof {
        assert(m == single(b as int));
        lemma_between_on_ray(d as int, a as int, b as int);
        lemma_bit_single(b as int);
        lemma_bit_and(reach, !m);
        lemma_bit_not(m);
        assert forall|x: int| #[trigger] bit(reach & !m, x) == between(a as int, b as int, x) by {
            if in_dir(d as int, a as int, x) && dist(a as int, x) < dist(a as int, b as int) {
                lemma_between_on_ray(d as int, a as int, x);
                assert forall|y: int| #[trigger] between(a as int, x, y) implies !bit(m, y) by {
                    lemma_between_on_ray(d as int, a as int, x);
                    assert(y != b);
                }
                assert(ray_attack(d as int, a as int, x, m));
            }
            if bit(reach, x) && x != b {
                if dist(a as int, x) >= dist(a as int, b as int) {
                    lemma_step(d as int, a as int, b as int);
                    if dist(a as int, x) > dist(a as int, b as int) {
                        lemma_between_on_ray(d as int, a as int, x);
                        assert(between(a as int, x, b as int));
                    }
                }
            }
        }
    }
    reach & !m
}

fn in_dir_exec(dir: u8, s: usize, t: usize) -> (b: bool)
    requires
        dir < 8,
        s < 64,
        t < 64,
    ensures
        b == in_dir(dir as int, s as int, t as int),
{
    let rs = (s / 8) as i32;
    let fs = (s % 8) as i32;
    let rt = (t / 8) as i32;
    let ft = (t % 8) as i32;
    let dr = rt - rs;
    let df = ft - fs;
    match dir {
        0 => df == 0 && dr > 0,
        1 => df == 0 && dr < 0,
        2 => dr == 0 && df > 0,
        3 => dr == 0 && df < 0,
        4 => dr == df && dr > 0,
        5 => dr == -df && dr > 0,
        6 => dr == -df && dr < 0,
        _ => dr == df && dr < 0,
    }
}

/// Squares attacked by a piece of kind `k` (0 pawn .. 5 king) and color
/// `c` standing on `s`, with `occ` occupied.
pub open spec fn attacks_rel(k: int, c: int, s: int, t: int, occ: u64) -> bool {
    if k == 0 {
        pawn_attack_rel(c, s, t)
    } else if k == 1 {
        knight_rel(s, t)
    } else if k == 2 {
        bishop_attack(s, t, occ)
    } else if k == 3 {
        rook_attack(s, t, occ)
    } else if k == 4 {
        queen_attack(s, t, occ)
    } else {
        king_rel(s, t)
    }
}

/// The rank pawns of color `c` start on.
pub open spec fn start_rank(c: int) -> int {
    if c == 0 {
        1
    } else {
        6
    }
}

/// A pawn of color `c` on `s` can advance to the empty square `t`.
pub open spec fn push_rel(c: int, s: int, t: int, occ: u64) -> bool {
    &&& on_board(s)
    &&& on_board(t)
    &&& !bit(occ, t)
    &&& {
        ||| t == s + 8 * forward(c)
        ||| (rank(s) == start_rank(c) && t == s + 16 * forward(c) && !bit(occ, s + 8 * forward(c)))
    }
}

/// Destinations of a piece ignoring whether its own king is left in check:
/// pawns advance to empty squares or capture an enemy piece or the en
/// passant square; other pieces go to any attacked square not holding a
/// friendly piece.
pub open spec fn pseudo_rel(
    k: int,
    c: int,
    s: int,
    t: int,
    occ: u64,
    enemy: u64,
    friendly: u64,
    ep: int,
) -> bool {
    if k == 0 {
        push_rel(c, s, t, occ) || (pawn_attack_rel(c, s, t) && (bit(enemy, t) || t == ep))
    } else {
        attacks_rel(k, c, s, t, occ) && !bit(friendly, t)
    }
}

pub struct MoveGen {
    knight_moves: [u64; 64],
    king_moves: [u64; 64],
    pawn_attack: [[u64; 64]; 2],
    pawn_push_single: [[u64; 64]; 2],
    pawn_push_double: [[u64; 64]; 2],
}

impl MoveGen {
    pub closed spec fn knight_ok(&self) -> bool {
        forall|sq: int| 0 <= sq < 64 ==> #[trigger] self.knight_moves[sq] == knight_mask(sq)
    }

    pub closed spec fn king_ok(&self) -> bool {
        forall|sq: int| 0 <= sq < 64 ==> #[trigger] self.king_moves[sq] == king_mask(sq)
    }

    pub closed spec fn pawn_attack_ok(&self) -> bool {
        forall|sq: int|
            0 <= sq < 64 ==> #[trigger] self.pawn_attack[0][sq] == pawn_attack_mask(0, sq)
                && self.pawn_attack[1][sq] == pawn_attack_mask(1, sq)
    }

    pub closed spec fn pawn_push_ok(&self) -> bool {
        forall|sq: int|
            0 <= sq < 64 ==> {
                &&& #[trigger] self.pawn_push_single[0][sq] == pawn_single_mask(0, sq)
                &&& self.pawn_push_single[1][sq] == pawn_single_mask(1, sq)
                &&& self.pawn_push_double[0][sq] == pawn_double_mask(0, sq)
                &&& self.pawn_push_double[1][sq] == pawn_double_mask(1, sq)
            }
    }

    /// All tables hold their masks.
    pub open spec fn wf(&self) -> bool {
        self.knight_ok() && self.king_ok() && self.pawn_attack_ok() && self.pawn_push_ok()
    }

    /// Every table entry is zero.
    pub closed spec fn is_blank(&self) -> bool {
        &&& forall|sq: int| 0 <= sq < 64 ==> #[trigger] self.knight_moves[sq] == 0
        &&& forall|sq: int| 0 <= sq < 64 ==> #[trigger] self.king_moves[sq] == 0
        &&& forall|c: int, sq: int| 0 <= c < 2 && 0 <= sq < 64 ==> #[trigger] self.pawn_attack[c][sq] == 0
        &&& forall|c: int, sq: int| 0 <= c < 2 && 0 <= sq < 64 ==> #[trigger] self.pawn_push_single[c][sq] == 0
        &&& forall|c: int, sq: int| 0 <= c < 2 && 0 <= sq < 64 ==> #[trigger] self.pawn_push_double[c][sq] == 0
    }

    /// Tables filled with zeros; `generate_moves` fills them.
    pub fn new() -> (r: MoveGen)
        ensures
            r.is_blank(),
    {
        MoveGen {
            knight_moves: [0; 64],
            king_moves: [0; 64],
            pawn_attack: [[0; 64]; 2],
            pawn_push_single: [[0; 64]; 2],
            pawn_push_double: [[0; 64]; 2],
        }
    }

    /// Fills every table.
    pub fn generate_moves(&mut self)
        ensures
            final(self).wf(),
    {
        self.gen_knight_moves();
        self.gen_king_moves();
        self.gen_pawn_attacks();
        self.gen_pawn_pushes();
    }

    pub fn gen_knight_moves(&mut self)
        ensures
            final(self).knight_ok(),
            old(self).king_ok() ==> final(self).king_ok(),
            old(self).pawn_attack_ok() ==> final(self).pawn_attack_ok(),
            old(self).pawn_push_ok() ==> final(self).pawn_push_ok(),
    {
        let mut sq: usize = 0;
        while sq < 64
            invariant
                sq <= 64,
                forall|i: int| 0 <= i < sq ==> #[trigger] self.knight_moves[i] == knight_mask(i),
                self.king_moves == old(self).king_moves,
                self.pawn_attack == old(self).pawn_attack,
                self.pawn_push_single == old(self).pawn_push_single,
                self.pawn_push_double == old(self).pawn_push_double,
            decreases 64 - sq,
        {
            let n: u64 = 1u64 << (sq as u64);
            let mut attacks: u64 = 0;
            attacks = attacks | ((n << 17u64) & !FILE_A);
            attacks = attacks | ((n << 15u64) & !FILE_H);
            attacks = attacks | ((n >> 15u64) & !FILE_A);
            attacks = attacks | ((n >> 17u64) & !FILE_H);
            attacks = attacks | ((n << 10u64) & !FILE_AB);
            attacks = attacks | ((n << 6u64) & !FILE_GH);
            attacks = attacks | ((n >> 6u64) & !FILE_AB);
            attacks = attacks | ((n >> 10u64) & !FILE_GH);
            proof {
                assert(n == single(sq as int));
                assert(attacks == knight_mask(sq as int)) by (bit_vector)
                    requires
                        attacks == 0u64 | ((n << 17u64) & !FILE_A) | ((n << 15u64) & !FILE_H) | ((n
                            >> 15u64) & !FILE_A) | ((n >> 17u64) & !FILE_H) | ((n << 10u64) & !FILE_AB)
                            | ((n << 6u64) & !FILE_GH) | ((n >> 6u64) & !FILE_AB) | ((n >> 10u64)
                            & !FILE_GH),
                        knight_mask(sq as int) == ((n << 17u64) & !FILE_A) | ((n << 15u64) & !FILE_H)
                            | ((n >> 15u64) & !FILE_A) | ((n >> 17u64) & !FILE_H) | ((n << 10u64)
                            & !FILE_AB) | ((n << 6u64) & !FILE_GH) | ((n >> 6u64) & !FILE_AB) | ((n
                            >> 10u64) & !FILE_GH),
                ;
            }
            self.knight_moves[sq] = attacks;
            sq = sq + 1;
        }
    }

    pub fn gen_king_moves(&mut self)
        ensures
            final(self).king_ok(),
            old(self).knight_ok() ==> final(self).knight_ok(),
            old(self).pawn_attack_ok() ==> final(self).pawn_attack_ok(),
            old(self).pawn_push_ok() ==> final(self).pawn_push_ok(),
    {
        let mut sq: usize = 0;
        while sq < 64
            invariant
                sq <= 64,
                forall|i: int| 0 <= i < sq ==> #[trigger] self.king_moves[i] == king_mask(i),
                self.knight_moves == old(self).knight_moves,
                self.pawn_attack == old(self).pawn_attack,
                self.pawn_push_single == old(self).pawn_push_single,
                self.pawn_push_double == old(self).pawn_push_double,
            decreases 64 - sq,
        {
            let k: u64 = 1u64 << (sq as u64);
            let attacks: u64 = (k << 8u64) | (k >> 8u64) | ((k >> 1u64) & !FILE_H) | ((k << 1u64)
                & !FILE_A) | ((k << 7u64) & !FILE_H) | ((k << 9u64) & !FILE_A) | ((k >> 9u64)
                & !FILE_H) | ((k >> 7u64) & !FILE_A);
            proof {
                assert(k == single(sq as int));
            }
            self.king_moves[sq] = attacks;
            sq = sq + 1;
        }
    }

    fn gen_pawn_attacks(&mut self)
        ensures
            final(self).pawn_attack_ok(),
            old(self).knight_ok() ==> final(self).knight_ok(),
            old(self).king_ok() ==> final(self).king_ok(),
            old(self).pawn_push_ok() ==> final(self).pawn_push_ok(),
    {
        let mut sq: usize = 0;
        while sq < 64
            invariant
                sq <= 64,
                forall|i: int|
                    0 <= i < sq ==> #[trigger] self.pawn_attack[0][i] == pawn_attack_mask(0, i)
                        && self.pawn_attack[1][i] == pawn_attack_mask(1, i),
                self.knight_moves == old(self).knight_moves,
                self.king_moves == old(self).king_moves,
                self.pawn_push_single == old(self).pawn_push_single,
                self.pawn_push_double == old(self).pawn_push_double,
            decreases 64 - sq,
        {
            let p: u64 = 1u64 << (sq as u64);
            proof {
                assert(p == single(sq as int));
            }
            self.pawn_attack[0][sq] = ((p << 7u64) & !FILE_H) | ((p << 9u64) & !FILE_A);
            self.pawn_attack[1][sq] = ((p >> 9u64) & !FILE_H) | ((p >> 7u64) & !FILE_A);
            sq = sq + 1;
        }
    }

    fn gen_pawn_pushes(&mut self)
        ensures
            final(self).pawn_push_ok(),
            old(self).knight_ok() ==> final(self).knight_ok(),
            old(self).king_ok() ==> final(self).king_ok(),
            old(self).pawn_attack_ok() ==> final(self).pawn_attack_ok(),
    {
        let mut sq: usize = 0;
        while sq < 64
            invariant
                sq <= 64,
                forall|i: int| 0 <= i < sq ==> #[trigger] self.pawn_push_single[0][i] == pawn_single_mask(0, i),
                forall|i: int| 0 <= i < sq ==> #[trigger] self.pawn_push_single[1][i] == pawn_single_mask(1, i),
                forall|i: int| 0 <= i < sq ==> #[trigger] self.pawn_push_double[0][i] == pawn_double_mask(0, i),
                forall|i: int| 0 <= i < sq ==> #[trigger] self.pawn_push_double[1][i] == pawn_double_mask(1, i),
                self.knight_moves == old(self).knight_moves,
                self.king_moves == old(self).king_moves,
                self.pawn_attack == old(self).pawn_attack,
            decreases 64 - sq,
        {
            let p: u64 = 1u64 << (sq as u64);
            proof {
                assert(p == single(sq as int));
            }
            self.pawn_push_single[0][sq] = p << 8u64;
            self.pawn_push_single[1][sq] = p >> 8u64;
            if 8 <= sq && sq <= 15 {
                self.pawn_push_double[0][sq] = p << 16u64;
            } else {
                self.pawn_push_double[0][sq] = 0;
            }
            if 48 <= sq && sq <= 55 {
                self.pawn_push_double[1][sq] = p >> 16u64;
            } else {
                self.pawn_push_double[1][sq] = 0;
            }
            sq = sq + 1;
        }
    }

    pub fn knight_attacks(&self, sq: usize) -> (r: u64)
        requires
            self.wf(),
            sq < 64,
        ensures
            forall|t: int| #[trigger] bit(r, t) == knight_rel(sq as int, t),
    {
        proof {
            lemma_knight_mask(sq as int);
        }
        self.knight_moves[sq]
    }

    pub fn king_attacks(&self, sq: usize) -> (r: u64)
        requires
            self.wf(),
            sq < 64,
        ensures
            forall|t: int| #[trigger] bit(r, t) == king_rel(sq as int, t),
    {
        proof {
            lemma_king_mask(sq as int);
        }
        self.king_moves[sq]
    }

    pub fn pawn_attacks(&self, color: u8, sq: usize) -> (r: u64)
        requires
            self.wf(),
            color < 2,
            sq < 64,
        ensures
            forall|t: int| #[trigger] bit(r, t) == pawn_attack_rel(color as int, sq as int, t),
    {
        proof {
            lemma_pawn_attack_mask(color as int, sq as int);
            assert(self.pawn_attack[0][sq as int] == pawn_attack_mask(0, sq as int));
            assert(self.pawn_attack[color as int][sq as int] == pawn_attack_mask(color as int, sq as int));
        }
        self.pawn_attack[color as usize][sq]
    }

    /// Squares a pawn of `color` on `sq` can advance to, given `occupied`.
    pub fn pawn_pushes(&self, color: u8, sq: usize, occupied: u64) -> (r: u64)
        requires
            self.wf(),
            color < 2,
            sq < 64,
        ensures
            forall|t: int| #[trigger] bit(r, t) == push_rel(color as int, sq as int, t, occupied),
    {
        let one = self.pawn_push_single[color as usize][sq] & !occupied;
        proof {
            assert(self.pawn_push_single[0][sq as int] == pawn_single_mask(0, sq as int));
            assert(self.pawn_push_single[1][sq as int] == pawn_single_mask(1, sq as int));
            assert(self.pawn_push_double[0][sq as int] == pawn_double_mask(0, sq as int));
            assert(self.pawn_push_double[1][sq as int] == pawn_double_mask(1, sq as int));
            lemma_pawn_push_masks(color as int, sq as int);
            lemma_bit_and(self.pawn_push_single[color as int][sq as int], !occupied);
            lemma_bit_not(occupied);
            lemma_bit_zero();
        }
        if one == 0 {
            proof {
                let f = forward(color as int);
                assert forall|t: int| #[trigger] bit(0u64, t) == push_rel(color as int, sq as int, t, occupied) by {
                    if push_rel(color as int, sq as int, t, occupied) {
                        if t != sq + 8 * f {
                            assert(bit(self.pawn_push_single[color as int][sq as int], sq + 8 * f));
                            assert(!bit(one, sq + 8 * f));
                        } else {
                            assert(bit(one, t));
                        }
                    }
                }
            }
            return 0;
        }
        let two = self.pawn_push_double[color as usize][sq] & !occupied;
        proof {
            crate::bits::lemma_zero_iff_no_bit(one);
            lemma_bit_and(self.pawn_push_double[color as int][sq as int], !occupied);
            lemma_bit_or(one, two);
        }
        one | two
    }

    pub fn get_rook_attacks(&self, sq: usize, occupied: u64) -> (r: u64)
        requires
            sq < 64,
        ensures
            forall|t: int| #[trigger] bit(r, t) == rook_attack(sq as int, t, occupied),
    {
        let n = ray(sq, occupied, 0);
        let s = ray(sq, occupied, 1);
        let e = ray(sq, occupied, 2);
        let w = ray(sq, occupied, 3);
        proof {
            lemma_bit_or(n, s);
            lemma_bit_or(n | s, e);
            lemma_bit_or(n | s | e, w);
            assert forall|t: int| #[trigger] bit(n | s | e | w, t) == rook_attack(sq as int, t, occupied) by {
                lemma_lines_are_rays(sq as int, t);
            }
        }
        n | s | e | w
    }

    /// Squares a bishop on `sq` attacks given the `occupied` squares.
    pub fn get_bishop_attacks(&self, sq: usize, occupied: u64) -> (r: u64)
        requires
            sq < 64,
        ensures
            forall|t: int| #[trigger] bit(r, t) == bishop_attack(sq as int, t, occupied),
    {
        let ne = ray(sq, occupied, 4);
        let nw = ray(sq, occupied, 5);
        let se = ray(sq, occupied, 6);
        let sw = ray(sq, occupied, 7);
        proof {
            lemma_bit_or(ne, nw);
            lemma_bit_or(ne | nw, se);
            lemma_bit_or(ne | nw | se, sw);
            assert forall|t: int| #[trigger] bit(ne | nw | se | sw, t) == bishop_attack(sq as int, t, occupied) by {
                lemma_lines_are_rays(sq as int, t);
            }
        }
        ne | nw | se | sw
    }

    /// Attacked squares of a piece of kind `k` and color `color` on `sq`.
    pub fn attacks_of(&self, k: u8, color: u8, sq: usize, occupied: u64) -> (r: u64)
        requires
            self.wf(),
            k < 6,
            color < 2,
            sq < 64,
        ensures
            forall|t: int| #[trigger] bit(r, t) == attacks_rel(k as int, color as int, sq as int, t, occupied),
    {
        if k == 0 {
            self.pawn_attacks(color, sq)
        } else if k == 1 {
            self.knight_attacks(sq)
        } else if k == 2 {
            self.get_bishop_attacks(sq, occupied)
        } else if k == 3 {
            self.get_rook_attacks(sq, occupied)
        } else if k == 4 {
            self.get_queen_attacks(sq, occupied)
        } else {
            self.king_attacks(sq)
        }
    }

    /// Destinations of the piece on `sq`: with `attack_only`, every square
    /// it attacks; otherwise its pseudo-legal destinations (see
    /// `pseudo_rel`), `ep_square` being the en passant square (64 for none).
    pub fn get_legal_moves_by_piece(
        &self,
        piece: PieceKind,
        occupied: u64,
        sq: usize,
        color: u8,
        enemy: u64,
        friendly: u64,
        attack_only: bool,
        ep_square: u8,
    ) -> (r: Option<BitBoard>)
        requires
            self.wf(),
            sq < 64,
            color < 2,
        ensures
            r is Some,
            forall|t: int| #[trigger]
                bit((r->0).0, t) == if attack_only {
                    attacks_rel(piece.idx() as int, color as int, sq as int, t, occupied)
                } else {
                    pseudo_rel(
                        piece.idx() as int,
                        color as int,
                        sq as int,
                        t,
                        occupied,
                        enemy,
                        friendly,
                        ep_square as int,
                    )
                },
    {
        let k = piece.to_u8();
        let att = self.attacks_of(k, color, sq, occupied);
        if attack_only {
            return Some(BitBoard(att));
        }
        if k == 0 {
            let pushes = self.pawn_pushes(color, sq, occupied);
            let ep_bit: u64 = if ep_square < 64 {
                1u64 << (ep_square as u64)
            } else {
                0
            };
            proof {
                lemma_bit_zero();
                if ep_square < 64 {
                    assert(ep_bit == single(ep_square as int));
                    lemma_bit_single(ep_square as int);
                }
                lemma_bit_or(enemy, ep_bit);
                lemma_bit_and(att, enemy | ep_bit);
                lemma_bit_or(pushes, att & (enemy | ep_bit));
                assert forall|t: int| #[trigger] bit(pushes | (att & (enemy | ep_bit)), t) == pseudo_rel(
                    0, color as int, sq as int, t, occupied, enemy, friendly, ep_square as int) by {
                    if ep_square < 64 {
                        assert(bit(ep_bit, t) == (t == ep_square));
                    } else {
                        assert(!bit(ep_bit, t));
                    }
                }
            }
            return Some(BitBoard(pushes | (att & (enemy | ep_bit))));
        }
        proof {
            lemma_bit_and(att, !friendly);
            lemma_bit_not(friendly);
            assert forall|t: int| #[trigger] bit(att & !friendly, t) == pseudo_rel(
                k as int, color as int, sq as int, t, occupied, enemy, friendly, ep_square as int) by {
                if 0 <= t < 64 {
                    assert(bit(!friendly, t) == !bit(friendly, t));
                }
            }
        }
        Some(BitBoard(att & !friendly))
    }

    /// Queen attacks are rook attacks together with bishop attacks.
    pub fn get_queen_attacks(&self, sq: usize, occupied: u64) -> (r: u64)
        requires
            sq < 64,
        ensures
            forall|t: int| #[trigger] bit(r, t) == queen_attack(sq as int, t, occupied),
    {
        let r = self.get_rook_attacks(sq, occupied);
        let b = self.get_bishop_attacks(sq, occupied);
        proof {
            lemma_bit_or(r, b);
        }
        r | b
    }
}

// Flag values, bits 12..15 of the packed move.
pub const FLAG_QUIET: u16 = 0x0000;
pub const FLAG_DOUBLE_PUSH: u16 = 0x1000;
pub const FLAG_KING_CASTLE: u16 = 0x2000;
pub const FLAG_QUEEN_CASTLE: u16 = 0x3000;
pub const FLAG_CAPTURE: u16 = 0x4000;
pub const FLAG_EP_CAPTURE: u16 = 0x5000;
pub const FLAG_PROMO_QUEEN: u16 = 0x8000;
pub const FLAG_PROMO_ROOK: u16 = 0x9000;
pub const FLAG_PROMO_BISHOP: u16 = 0xA000;
pub const FLAG_PROMO_KNIGHT: u16 = 0xB000;

#[derive(Debug, Clone, Copy, PartialEq, Eq, Structural)]
pub enum MoveFlag {
    Quiet,
    DoublePush,
    KingCastle,
    QueenCastle,
    Capture,
    EpCapture,
    PromoQueen,
    PromoRook,
    PromoBishop,
    PromoKnight,
}

/// The piece kind a promotion flag promotes to, if it is one.
pub open spec fn promo_kind(f: u16) -> Option<u8> {
    if f == FLAG_PROMO_QUEEN {
        Some(4u8)
    } else if f == FLAG_PROMO_ROOK {
        Some(3u8)
    } else if f == FLAG_PROMO_BISHOP {
        Some(2u8)
    } else if f == FLAG_PROMO_KNIGHT {
        Some(1u8)
    } else {
        None
    }
}

impl MoveFlag {
    pub open spec fn spec_bits(self) -> u16 {
        match self {
            MoveFlag::Quiet => FLAG_QUIET,
            MoveFlag::DoublePush => FLAG_DOUBLE_PUSH,
            MoveFlag::KingCastle => FLAG_KING_CASTLE,
            MoveFlag::QueenCastle => FLAG_QUEEN_CASTLE,
            MoveFlag::Capture => FLAG_CAPTURE,
            MoveFlag::EpCapture => FLAG_EP_CAPTURE,
            MoveFlag::PromoQueen => FLAG_PROMO_QUEEN,
            MoveFlag::PromoRook => FLAG_PROMO_ROOK,
            MoveFlag::PromoBishop => FLAG_PROMO_BISHOP,
            MoveFlag::PromoKnight => FLAG_PROMO_KNIGHT,
        }
    }

    pub fn bits(self) -> (r: u16)
        ensures
            r == self.spec_bits(),
    {
        match self {
            MoveFlag::Quiet => FLAG_QUIET,
            MoveFlag::DoublePush => FLAG_DOUBLE_PUSH,
            MoveFlag::KingCastle => FLAG_KING_CASTLE,
            MoveFlag::QueenCastle => FLAG_QUEEN_CASTLE,
            MoveFlag::Capture => FLAG_CAPTURE,
            MoveFlag::EpCapture => FLAG_EP_CAPTURE,
            MoveFlag::PromoQueen => FLAG_PROMO_QUEEN,
            MoveFlag::PromoRook => FLAG_PROMO_ROOK,
            MoveFlag::PromoBishop => FLAG_PROMO_BISHOP,
            MoveFlag::PromoKnight => FLAG_PROMO_KNIGHT,
        }
    }

    /// The flag with these bits; unknown bits read as a quiet move.
    pub fn from_bits(bits: u16) -> (r: MoveFlag)
        ensures
            r.spec_bits() == bits || (r == MoveFlag::Quiet && (bits != FLAG_DOUBLE_PUSH && bits
                != FLAG_KING_CASTLE && bits != FLAG_QUEEN_CASTLE && bits != FLAG_CAPTURE && bits
                != FLAG_EP_CAPTURE && bits != FLAG_PROMO_QUEEN && bits != FLAG_PROMO_ROOK && bits
                != FLAG_PROMO_BISHOP && bits != FLAG_PROMO_KNIGHT)),
    {
        if bits == FLAG_DOUBLE_PUSH {
            MoveFlag::DoublePush
        } else if bits == FLAG_KING_CASTLE {
            MoveFlag::KingCastle
        } else if bits == FLAG_QUEEN_CASTLE {
            MoveFlag::QueenCastle
        } else if bits == FLAG_CAPTURE {
            MoveFlag::Capture
        } else if bits == FLAG_EP_CAPTURE {
            MoveFlag::EpCapture
        } else if bits == FLAG_PROMO_QUEEN {
            MoveFlag::PromoQueen
        } else if bits == FLAG_PROMO_ROOK {
            MoveFlag::PromoRook
        } else if bits == FLAG_PROMO_BISHOP {
            MoveFlag::PromoBishop
        } else if bits == FLAG_PROMO_KNIGHT {
            MoveFlag::PromoKnight
        } else {
            MoveFlag::Quiet
        }
    }
}

/// A packed move: `move_mask` holds the source square (bits 0..6), the
/// destination (bits 6..12) and the flag (bits 12..16); `piece` holds the
/// moving piece's kind (low nibble) and the captured piece's kind (high
/// nibble, above 5 for none).
#[derive(Debug, Clone, Copy, PartialEq, Eq, Structural)]
pub struct Move {
    move_mask: u16,
    piece: u8,
}

/// The move mask with these parts.
pub open spec fn pack_mask(from: int, to: int, flag: u16) -> u16 {
    ((from as u16) | ((to as u16) << 6u16) | flag) as u16
}

pub open spec fn is_flag(f: u16) -> bool {
    f == FLAG_QUIET || f == FLAG_DOUBLE_PUSH || f == FLAG_KING_CASTLE || f == FLAG_QUEEN_CASTLE
        || f == FLAG_CAPTURE || f == FLAG_EP_CAPTURE || f == FLAG_PROMO_QUEEN || f
        == FLAG_PROMO_ROOK || f == FLAG_PROMO_BISHOP || f == FLAG_PROMO_KNIGHT
}

pub proof fn lemma_flag_bits(f: u16)
    requires
        is_flag(f),
    ensures
        f & 0x0FFF == 0,
        f & 0xF000 == f,
{
    assert(f & 0x0FFF == 0 && f & 0xF000 == f) by (bit_vector)
        requires
            f == 0x0000u16 || f == 0x1000u16 || f == 0x2000u16 || f == 0x3000u16 || f == 0x4000u16
                || f == 0x5000u16 || f == 0x8000u16 || f == 0x9000u16 || f == 0xA000u16 || f
                == 0xB000u16,
    ;
}

/// Packing and unpacking the fields of a move.
pub proof fn lemma_pack(from: u16, to: u16, flag: u16, p: u8, c: u8)
    requires
        from < 64,
        to < 64,
        flag & 0x0FFF == 0,
        p < 16,
        c < 16,
    ensures
        (from | (to << 6u16) | flag) & 0x3F == from,
        ((from | (to << 6u16) | flag) >> 6u16) & 0x3F == to,
        (from | (to << 6u16) | flag) & 0xF000 == flag,
        ((c << 4u8) | p) & 0x0F == p,
        ((c << 4u8) | p) >> 4u8 == c,
{
    assert((from | (to << 6u16) | flag) & 0x3F == from && ((from | (to << 6u16) | flag) >> 6u16)
        & 0x3F == to && (from | (to << 6u16) | flag) & 0xF000 == flag) by (bit_vector)
        requires
            from < 64,
            to < 64,
            flag & 0x0FFF == 0,
    ;
    assert(((c << 4u8) | p) & 0x0F == p && ((c << 4u8) | p) >> 4u8 == c) by (bit_vector)
        requires
            p < 16,
            c < 16,
    ;
}

proof fn lemma_field_bounds(m: u16, p: u8)
    ensures
        m & 0x3F < 64,
        (m >> 6u16) & 0x3F < 64,
        p & 0x0F < 16,
        p >> 4u8 < 16,
{
    assert(m & 0x3F < 64 && (m >> 6u16) & 0x3F < 64 && p & 0x0F < 16 && p >> 4u8 < 16)
        by (bit_vector);
}

impl Move {
    /// Squares are below 64; kinds and victims below 16.
    pub proof fn lemma_bounds(self)
        ensures
            0 <= self.src() < 64,
            0 <= self.dst() < 64,
            0 <= self.kind() < 16,
            0 <= self.victim() < 16,
    {
        lemma_field_bounds(self.move_mask, self.piece);
    }

    /// A move is determined by its squares, flag, kind and victim.
    pub proof fn lemma_fields_determine(self, other: Move)
        requires
            self.src() == other.src(),
            self.dst() == other.dst(),
            self.flag() == other.flag(),
            self.kind() == other.kind(),
            self.victim() == other.victim(),
        ensures
            self == other,
    {
        let a = self.move_mask;
        let b = other.move_mask;
        let p = self.piece;
        let q = other.piece;
        assert(a == b) by (bit_vector)
            requires
                a & 0x3F == b & 0x3F,
                (a >> 6u16) & 0x3F == (b >> 6u16) & 0x3F,
                a & 0xF000 == b & 0xF000,
        ;
        assert(p == q) by (bit_vector)
            requires
                p & 0x0F == q & 0x0F,
                p >> 4u8 == q >> 4u8,
        ;
    }

    pub closed spec fn mask_of(self) -> u16 {
        self.move_mask
    }

    /// The move with this mask and piece byte.
    pub closed spec fn from_parts(mask: u16, piece: u8) -> Move {
        Move { move_mask: mask, piece }
    }

    pub proof fn lemma_from_parts(mask: u16, piece: u8)
        ensures
            Move::from_parts(mask, piece).mask_of() == mask,
            Move::from_parts(mask, piece).piece_byte() == piece,
    {
    }

    pub closed spec fn piece_byte(self) -> u8 {
        self.piece
    }

    pub open spec fn src(self) -> int {
        (self.mask_of() & 0x3F) as int
    }

    pub open spec fn dst(self) -> int {
        ((self.mask_of() >> 6u16) & 0x3F) as int
    }

    pub open spec fn flag(self) -> u16 {
        self.mask_of() & 0xF000
    }

    pub open spec fn kind(self) -> int {
        (self.piece_byte() & 0x0F) as int
    }

    pub open spec fn victim(self) -> int {
        (self.piece_byte() >> 4u8) as int
    }

    pub fn new(move_mask: u16, piece: u8) -> (r: Move)
        ensures
            r.mask_of() == move_mask,
            r.piece_byte() == piece,
            r == Move::from_parts(move_mask, piece),
    {
        Move { move_mask, piece }
    }

    pub fn move_mask(&self) -> (r: u16)
        ensures
            r == self.mask_of(),
    {
        self.move_mask
    }

    /// Source square.
    pub fn from(&self) -> (r: u8)
        ensures
            r as int == self.src(),
            r < 64,
    {
        proof {
            lemma_field_bounds(self.move_mask, self.piece);
        }
        (self.move_mask & 0x3F) as u8
    }

    /// Destination square.
    pub fn to(&self) -> (r: u8)
        ensures
            r as int == self.dst(),
            r < 64,
    {
        proof {
            lemma_field_bounds(self.move_mask, self.piece);
        }
        ((self.move_mask >> 6) & 0x3F) as u8
    }

    /// The flag bits (bits 12..16 of the mask, in place).
    pub fn flags(&self) -> (r: u16)
        ensures
            r == self.flag(),
    {
        self.move_mask & 0xF000
    }

    /// Kind of the moving piece.
    pub fn piece(&self) -> (r: u8)
        ensures
            r as int == self.kind(),
            r < 16,
    {
        proof {
            lemma_field_bounds(self.move_mask, self.piece);
        }
        self.piece & 0x0F
    }

    /// Kind of the captured piece; above 5 when nothing is captured.
    pub fn captured_piece(&self) -> (r: u8)
        ensures
            r as int == self.victim(),
            r < 16,
    {
        proof {
            lemma_field_bounds(self.move_mask, self.piece);
        }
        self.piece >> 4
    }
}

} // verus!
