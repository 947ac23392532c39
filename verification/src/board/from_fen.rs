//! Reading a position from Forsyth-Edwards Notation.
//!
//! A FEN is split at whitespace into fields: piece placement, side to move
//! (default `w`), castling rights (default `-`), en passant square (default
//! `-`), halfmove clock (default `0`) and fullmove number (default `1`);
//! further fields are ignored.
use vstd::prelude::*;
use vstd::string::*;
use crate::bitboard::BitBoard;
use crate::bits::{bit, single, lemma_bit_or, lemma_bit_single, lemma_bit_zero};
use crate::board::{Board, Pieces, pb, side_occ, all_occ, full_hash, side_occupancy, compute_hash};

verus! {

broadcast use vstd::array::group_array_axioms;

/// `char::is_whitespace`: the Unicode `White_Space` characters.
pub open spec fn is_ws(c: char) -> bool {
    let v = c as u32;
    ||| 0x09 <= v <= 0x0D
    ||| v == 0x20
    ||| v == 0x85
    ||| v == 0xA0
    ||| v == 0x1680
    ||| 0x2000 <= v <= 0x200A
    ||| v == 0x2028
    ||| v == 0x2029
    ||| v == 0x202F
    ||| v == 0x205F
    ||| v == 0x3000
}

/// The whitespace-separated fields of `s`, in order.
pub open spec fn fields(s: Seq<char>) -> Seq<Seq<char>>
    decreases s.len(),
{
    if s.len() == 0 {
        seq![]
    } else {
        let p = fields(s.drop_last());
        let c = s.last();
        if is_ws(c) {
            p
        } else if s.len() >= 2 && !is_ws(s[s.len() - 2]) {
            p.update(p.len() - 1, p.last().push(c))
        } else {
            p.push(seq![c])
        }
    }
}

/// The parts of `s` between slashes (one more than there are slashes).
pub open spec fn split_slash(s: Seq<char>) -> Seq<Seq<char>>
    decreases s.len(),
{
    if s.len() == 0 {
        seq![seq![]]
    } else {
        let p = split_slash(s.drop_last());
        if s.last() == '/' {
            p.push(seq![])
        } else {
            p.update(p.len() - 1, p.last().push(s.last()))
        }
    }
}

pub open spec fn is_digit(c: char) -> bool {
    0x30 <= (c as u32) <= 0x39
}

/// Piece letter code: `color * 6 + kind` (white upper case, black lower
/// case; pawn, knight, bishop, rook, queen, king); -1 for another letter.
pub open spec fn piece_code(c: char) -> i8 {
    if c == 'P' {
        0
    } else if c == 'N' {
        1
    } else if c == 'B' {
        2
    } else if c == 'R' {
        3
    } else if c == 'Q' {
        4
    } else if c == 'K' {
        5
    } else if c == 'p' {
        6
    } else if c == 'n' {
        7
    } else if c == 'b' {
        8
    } else if c == 'r' {
        9
    } else if c == 'q' {
        10
    } else if c == 'k' {
        11
    } else {
        -1i8
    }
}

/// The squares one placement character stands for: a digit that many
/// empty squares (-1), a piece letter its code.
pub open spec fn cells_of(c: char) -> Seq<i8> {
    if is_digit(c) {
        Seq::new(((c as u32) - 0x30) as nat, |_i: int| -1i8)
    } else {
        seq![piece_code(c)]
    }
}

/// The squares a rank of the placement describes, from the a-file on.
pub open spec fn expand(r: Seq<char>) -> Seq<i8>
    decreases r.len(),
{
    if r.len() == 0 {
        seq![]
    } else {
        expand(r.drop_last()) + cells_of(r.last())
    }
}

/// Every character of a rank is a digit or a piece letter.
pub open spec fn rank_chars_ok(r: Seq<char>) -> bool {
    forall|i: int| 0 <= i < r.len() ==> is_digit(#[trigger] r[i]) || piece_code(r[i]) >= 0
}

/// Eight ranks, each describing exactly eight squares.
pub open spec fn placement_ok(t: Seq<char>) -> bool {
    let ranks = split_slash(t);
    &&& ranks.len() == 8
    &&& forall|i: int|
        0 <= i < 8 ==> rank_chars_ok(#[trigger] ranks[i]) && expand(ranks[i]).len() == 8
}

/// Code of the piece the placement puts on square `sq` (-1 when empty):
/// the first rank listed is rank 8.
pub open spec fn fen_cell(t: Seq<char>, sq: int) -> i8 {
    expand(split_slash(t)[7 - sq / 8])[sq % 8]
}

/// The bitboards hold exactly the pieces of the placement.
pub open spec fn pieces_match(p: Pieces, t: Seq<char>) -> bool {
    forall|c: int, k: int, sq: int|
        0 <= c < 2 && 0 <= k < 6 ==> (#[trigger] bit(pb(p, c, k), sq) <==> (0 <= sq < 64 && fen_cell(
            t,
            sq,
        ) == c * 6 + k))
}

pub open spec fn is_dash(t: Seq<char>) -> bool {
    t == seq!['-']
}

pub open spec fn active_ok(t: Seq<char>) -> bool {
    t == seq!['w'] || t == seq!['b']
}

pub open spec fn active_value(t: Seq<char>) -> u8 {
    if t == seq!['b'] {
        1
    } else {
        0
    }
}

pub open spec fn castle_char_ok(c: char) -> bool {
    c == 'K' || c == 'Q' || c == 'k' || c == 'q'
}

/// Castling bits: K = 0x08, Q = 0x04, k = 0x02, q = 0x01.
pub open spec fn castle_char_bit(c: char) -> u8 {
    if c == 'K' {
        0x08
    } else if c == 'Q' {
        0x04
    } else if c == 'k' {
        0x02
    } else if c == 'q' {
        0x01
    } else {
        0
    }
}

pub open spec fn castle_bits(t: Seq<char>) -> u8
    decreases t.len(),
{
    if t.len() == 0 {
        0
    } else {
        castle_bits(t.drop_last()) | castle_char_bit(t.last())
    }
}

pub open spec fn castling_ok(t: Seq<char>) -> bool {
    is_dash(t) || forall|i: int| 0 <= i < t.len() ==> castle_char_ok(#[trigger] t[i])
}

pub open spec fn castling_value(t: Seq<char>) -> u8 {
    if is_dash(t) {
        0
    } else {
        castle_bits(t)
    }
}

/// `-`, or a file letter and a rank digit whose square number
/// `(rank - '1') * 8 + (file - 'a')` fits in a byte.
pub open spec fn ep_ok(t: Seq<char>) -> bool {
    ||| is_dash(t)
    ||| {
        &&& t.len() == 2
        &&& 0x61 <= (t[0] as u32) < 0x80
        &&& 0x31 <= (t[1] as u32) < 0x80
        &&& ((t[1] as u32) - 0x31) * 8 + ((t[0] as u32) - 0x61) < 256
    }
}

/// The en passant square; 64 for `-`.
pub open spec fn ep_value(t: Seq<char>) -> u8 {
    if is_dash(t) {
        64
    } else {
        (((t[1] as u32) - 0x31) * 8 + ((t[0] as u32) - 0x61)) as u8
    }
}

/// Value of a run of decimal digits.
pub open spec fn digits_value(t: Seq<char>) -> nat
    decreases t.len(),
{
    if t.len() == 0 {
        0
    } else {
        digits_value(t.drop_last()) * 10 + (((t.last() as u32) - 0x30) as nat)
    }
}

/// The digits of an unsigned number, after an optional `+`.
pub open spec fn unsigned_digits(t: Seq<char>) -> Seq<char> {
    if t.len() > 0 && t[0] == '+' {
        t.drop_first()
    } else {
        t
    }
}

/// An unsigned integer no greater than `max`, as `str::parse` reads it.
pub open spec fn uint_ok(t: Seq<char>, max: nat) -> bool {
    let d = unsigned_digits(t);
    &&& d.len() > 0
    &&& forall|i: int| 0 <= i < d.len() ==> is_digit(#[trigger] d[i])
    &&& digits_value(d) <= max
}

pub open spec fn uint_value(t: Seq<char>) -> nat {
    digits_value(unsigned_digits(t))
}

/// Field `i`, or the one-character default when there are fewer fields.
pub open spec fn field_or(f: Seq<Seq<char>>, i: int, d: char) -> Seq<char> {
    if i < f.len() {
        f[i]
    } else {
        seq![d]
    }
}

/// A FEN that the reader accepts.
pub open spec fn fen_ok(s: Seq<char>) -> bool {
    let f = fields(s);
    &&& f.len() >= 1
    &&& placement_ok(f[0])
    &&& active_ok(field_or(f, 1, 'w'))
    &&& castling_ok(field_or(f, 2, '-'))
    &&& ep_ok(field_or(f, 3, '-'))
    &&& uint_ok(field_or(f, 4, '0'), 255)
    &&& uint_ok(field_or(f, 5, '1'), 65535)
}

/// The position fields a FEN describes.
pub struct FenFields {
    pub pieces: Pieces,
    pub player_turn: u8,
    pub castling_rights: u8,
    pub en_passant_square: u8,
    pub halfmove_clock: u8,
    pub fullmove_clock: u16,
}

/// `r` holds what the FEN `s` describes.
pub open spec fn fen_describes(r: FenFields, s: Seq<char>) -> bool {
    let f = fields(s);
    &&& pieces_match(r.pieces, f[0])
    &&& r.player_turn == active_value(field_or(f, 1, 'w'))
    &&& r.castling_rights == castling_value(field_or(f, 2, '-'))
    &&& r.en_passant_square == ep_value(field_or(f, 3, '-'))
    &&& r.halfmove_clock == uint_value(field_or(f, 4, '0'))
    &&& r.fullmove_clock == uint_value(field_or(f, 5, '1'))
}

pub open spec fn views(v: Seq<Vec<char>>) -> Seq<Seq<char>> {
    v.map_values(|t: Vec<char>| t@)
}

/// Whether `c` is whitespace.
fn ws(c: char) -> (r: bool)
    ensures
        r == is_ws(c),
{
    let v = c as u32;
    (0x09 <= v && v <= 0x0D) || v == 0x20 || v == 0x85 || v == 0xA0 || v == 0x1680 || (0x2000 <= v
        && v <= 0x200A) || v == 0x2028 || v == 0x2029 || v == 0x202F || v == 0x205F || v == 0x3000
}

/// The characters of `s`.
fn chars_of(s: &str) -> (r: Vec<char>)
    ensures
        r@ == s@,
{
    let n = s.unicode_len();
    let mut v: Vec<char> = Vec::new();
    let mut i: usize = 0;
    while i < n
        invariant
            n == s@.len(),
            i <= n,
            v@ == s@.take(i as int),
        decreases n - i,
    {
        v.push(s.get_char(i));
        proof {
            assert(s@.take(i + 1) =~= s@.take(i as int).push(s@[i as int]));
        }
        i = i + 1;
    }
    proof {
        assert(s@.take(n as int) =~= s@);
    }
    v
}

/// Splits at whitespace.
fn split_fields(s: &Vec<char>) -> (r: Vec<Vec<char>>)
    ensures
        views(r@) == fields(s@),
{
    let mut parts: Vec<Vec<char>> = Vec::new();
    let mut i: usize = 0;
    while i < s.len()
        invariant
            i <= s.len(),
            views(parts@) == fields(s@.take(i as int)),
            i > 0 && !is_ws(s@[i - 1]) ==> parts.len() > 0,
        decreases s.len() - i,
    {
        let c = s[i];
        let ghost before = parts@;
        let ghost t = s@.take(i + 1);
        proof {
            assert(t.drop_last() =~= s@.take(i as int));
            assert(t.last() == c);
            if i >= 1 {
                assert(t[t.len() - 2] == s@[i - 1]);
            }
        }
        if ws(c) {
        } else if i > 0 && !ws(s[i - 1]) {
            let mut last = parts.pop().unwrap();
            let ghost old_last = last@;
            last.push(c);
            parts.push(last);
            proof {
                assert(views(parts@) =~= views(before).update(before.len() - 1, old_last.push(c)));
            }
        } else {
            let mut one: Vec<char> = Vec::new();
            one.push(c);
            parts.push(one);
            proof {
                assert(views(parts@) =~= views(before).push(seq![c]));
            }
        }
        i = i + 1;
    }
    proof {
        assert(s@.take(s.len() as int) =~= s@);
    }
    parts
}

/// Splits at slashes.
fn split_ranks(s: &Vec<char>) -> (r: Vec<Vec<char>>)
    ensures
        views(r@) == split_slash(s@),
{
    let mut parts: Vec<Vec<char>> = Vec::new();
    parts.push(Vec::new());
    proof {
        assert(views(parts@) =~= split_slash(s@.take(0)));
    }
    let mut i: usize = 0;
    while i < s.len()
        invariant
            i <= s.len(),
            views(parts@) == split_slash(s@.take(i as int)),
            parts.len() > 0,
        decreases s.len() - i,
    {
        let c = s[i];
        let ghost before = parts@;
        proof {
            let t = s@.take(i + 1);
            assert(t.drop_last() =~= s@.take(i as int));
            assert(t.last() == c);
        }
        if c == '/' {
            parts.push(Vec::new());
            proof {
                assert(views(parts@) =~= views(before).push(seq![]));
            }
        } else {
            let mut last = parts.pop().unwrap();
            let ghost old_last = last@;
            last.push(c);
            parts.push(last);
            proof {
                assert(views(parts@) =~= views(before).update(before.len() - 1, old_last.push(c)));
            }
        }
        i = i + 1;
    }
    proof {
        assert(s@.take(s.len() as int) =~= s@);
    }
    parts
}

/// The squares a rank describes, when all its characters are digits or
/// piece letters.
fn expand_rank(r: &Vec<char>) -> (res: (bool, Vec<i8>))
    ensures
        res.0 == rank_chars_ok(r@),
        res.0 ==> res.1@ == expand(r@),
{
    let mut cells: Vec<i8> = Vec::new();
    let mut j: usize = 0;
    while j < r.len()
        invariant
            j <= r.len(),
            rank_chars_ok(r@.take(j as int)),
            cells@ == expand(r@.take(j as int)),
        decreases r.len() - j,
    {
        let c = r[j];
        let ghost t = r@.take(j + 1);
        proof {
            assert(t.drop_last() =~= r@.take(j as int));
            assert(t.last() == c);
        }
        let v = c as u32;
        if 0x30 <= v && v <= 0x39 {
            let d = v - 0x30;
            let ghost base = cells@;
            let mut k: u32 = 0;
            while k < d
                invariant
                    k <= d,
                    cells@ == base + Seq::new(k as nat, |_i: int| -1i8),
                decreases d - k,
            {
                cells.push(-1i8);
                proof {
                    assert(base + Seq::new((k + 1) as nat, |_i: int| -1i8) =~= (base + Seq::new(
                        k as nat,
                        |_i: int| -1i8,
                    )).push(-1i8));
                }
                k = k + 1;
            }
        } else {
            let code = letter_code(c);
            if code < 0 {
                proof {
                    assert(!rank_chars_ok(r@)) by {
                        assert(r@[j as int] == c);
                    }
                }
                return (false, cells);
            }
            cells.push(code);
            proof {
                assert(cells@ =~= expand(t));
            }
        }
        proof {
            assert(rank_chars_ok(t)) by {
                assert forall|i: int| 0 <= i < t.len() implies is_digit(#[trigger] t[i]) || piece_code(
                    t[i],
                ) >= 0 by {
                    if i < j {
                        assert(t[i] == r@.take(j as int)[i]);
                    }
                }
            }
        }
        j = j + 1;
    }
    proof {
        assert(r@.take(r.len() as int) =~= r@);
    }
    (true, cells)
}

/// Code of a piece letter; -1 for another character.
fn letter_code(c: char) -> (r: i8)
    ensures
        r == piece_code(c),
{
    if c == 'P' {
        0
    } else if c == 'N' {
        1
    } else if c == 'B' {
        2
    } else if c == 'R' {
        3
    } else if c == 'Q' {
        4
    } else if c == 'K' {
        5
    } else if c == 'p' {
        6
    } else if c == 'n' {
        7
    } else if c == 'b' {
        8
    } else if c == 'r' {
        9
    } else if c == 'q' {
        10
    } else if c == 'k' {
        11
    } else {
        -1
    }
}

/// The square a placement position (rank counted from the top, file)
/// names.
pub open spec fn placed(rf: int, f: int, sq: int) -> bool {
    7 - sq / 8 < rf || (7 - sq / 8 == rf && sq % 8 < f)
}

/// The pieces of a placement field.
fn parse_placement(t: &Vec<char>) -> (r: Option<Pieces>)
    ensures
        r is Some <==> placement_ok(t@),
        r is Some ==> pieces_match(r->0, t@),
{
    let ranks = split_ranks(t);
    proof {
        assert(views(ranks@).len() == ranks@.len());
    }
    if ranks.len() != 8 {
        return None;
    }
    let mut pieces: Pieces = [[BitBoard(0); 6]; 2];
    proof {
        lemma_bit_zero();
    }
    let mut rf: usize = 0;
    while rf < 8
        invariant
            rf <= 8,
            ranks.len() == 8,
            views(ranks@) == split_slash(t@),
            forall|i: int|
                0 <= i < rf ==> rank_chars_ok(#[trigger] split_slash(t@)[i]) && expand(
                    split_slash(t@)[i],
                ).len() == 8,
            forall|c: int, k: int, sq: int|
                0 <= c < 2 && 0 <= k < 6 ==> (#[trigger] bit(pb(pieces, c, k), sq) <==> (0 <= sq < 64
                    && placed(rf as int, 0, sq) && fen_cell(t@, sq) == c * 6 + k)),
        decreases 8 - rf,
    {
        proof {
            assert(views(ranks@)[rf as int] == ranks@[rf as int]@);
        }
        let (ok, cells) = expand_rank(&ranks[rf]);
        if !ok || cells.len() != 8 {
            proof {
                assert(!placement_ok(t@)) by {
                    assert(split_slash(t@)[rf as int] == ranks@[rf as int]@);
                }
            }
            return None;
        }
        let mut f: usize = 0;
        while f < 8
            invariant
                rf < 8,
                f <= 8,
                split_slash(t@).len() == 8,
                rank_chars_ok(split_slash(t@)[rf as int]),
                cells@ == expand(split_slash(t@)[rf as int]),
                cells.len() == 8,
                forall|c: int, k: int, sq: int|
                    0 <= c < 2 && 0 <= k < 6 ==> (#[trigger] bit(pb(pieces, c, k), sq) <==> (0 <= sq
                        < 64 && placed(rf as int, f as int, sq) && fen_cell(t@, sq) == c * 6 + k)),
            decreases 8 - f,
        {
            let sq: usize = (7 - rf) * 8 + f;
            proof {
                assert(sq / 8 == 7 - rf && sq % 8 == f) by (nonlinear_arith)
                    requires
                        sq == (7 - rf) * 8 + f,
                        f < 8,
                        rf < 8,
                ;
                assert(fen_cell(t@, sq as int) == cells@[f as int]);
            }
            let code = cells[f];
            let ghost before = pieces;
            if code >= 0 {
                proof {
                    lemma_cell_code(split_slash(t@)[rf as int], f as int);
                }
                let cu = code as u8;
                let c = (cu / 6) as usize;
                let k = (cu % 6) as usize;
                let mut row = pieces[c];
                let cur = row[k].0;
                row[k] = BitBoard(cur | (1u64 << (sq as u64)));
                pieces[c] = row;
                proof {
                    assert(1u64 << (sq as u64) == single(sq as int));
                    lemma_bit_or(cur, single(sq as int));
                    lemma_bit_single(sq as int);
                    assert forall|c2: int, k2: int, s2: int|
                        0 <= c2 < 2 && 0 <= k2 < 6 implies (#[trigger] bit(pb(pieces, c2, k2), s2) <==> (0
                            <= s2 < 64 && placed(rf as int, f + 1, s2) && fen_cell(t@, s2) == c2 * 6
                            + k2)) by {
                        if c2 == c && k2 == k {
                            assert(pb(pieces, c2, k2) == cur | single(sq as int));
                            assert(bit(pb(before, c2, k2), s2) == bit(cur, s2));
                        } else {
                            assert(pb(pieces, c2, k2) == pb(before, c2, k2)) by {
                                if c2 == c {
                                    assert(pieces[c2][k2] == row[k2]);
                                } else {
                                    assert(pieces[c2] == before[c2]);
                                }
                            }
                        }
                        if 0 <= s2 < 64 {
                            lemma_placed_step(rf as int, f as int, s2, sq as int);
                        }
                    }
                }
            } else {
                proof {
                    assert forall|c2: int, k2: int, s2: int|
                        0 <= c2 < 2 && 0 <= k2 < 6 implies (#[trigger] bit(pb(pieces, c2, k2), s2) <==> (0
                            <= s2 < 64 && placed(rf as int, f + 1, s2) && fen_cell(t@, s2) == c2 * 6
                            + k2)) by {
                        if 0 <= s2 < 64 {
                            lemma_placed_step(rf as int, f as int, s2, sq as int);
                        }
                    }
                }
            }
            f = f + 1;
        }
        proof {
            assert forall|c: int, k: int, sq: int|
                0 <= c < 2 && 0 <= k < 6 implies (#[trigger] bit(pb(pieces, c, k), sq) <==> (0 <= sq < 64
                    && placed(rf + 1, 0, sq) && fen_cell(t@, sq) == c * 6 + k)) by {
                lemma_placed_rank(rf as int, sq);
            }
        }
        rf = rf + 1;
    }
    proof {
        assert forall|c: int, k: int, sq: int|
            0 <= c < 2 && 0 <= k < 6 implies (#[trigger] bit(pb(pieces, c, k), sq) <==> (0 <= sq < 64
                && fen_cell(t@, sq) == c * 6 + k)) by {
            if 0 <= sq < 64 {
                assert(placed(8, 0, sq)) by (nonlinear_arith)
                    requires
                        0 <= sq < 64,
                ;
            }
        }
    }
    Some(pieces)
}

/// A non-negative cell of an expanded rank is a piece code.
proof fn lemma_cell_code(r: Seq<char>, f: int)
    requires
        rank_chars_ok(r),
        0 <= f < expand(r).len(),
        expand(r)[f] >= 0,
    ensures
        expand(r)[f] < 12,
    decreases r.len(),
{
    if r.len() > 0 {
        let p = r.drop_last();
        assert(rank_chars_ok(p)) by {
            assert forall|i: int| 0 <= i < p.len() implies is_digit(#[trigger] p[i]) || piece_code(p[i])
                >= 0 by {
                assert(p[i] == r[i]);
            }
        }
        assert(is_digit(r[r.len() - 1]) || piece_code(r[r.len() - 1]) >= 0);
        if f < expand(p).len() {
            lemma_cell_code(p, f);
        }
    }
}

/// Square `sq` is placed after position (`rf`, `f`) exactly when it was
/// before or it is that position's square.
proof fn lemma_placed_step(rf: int, f: int, s: int, sq: int)
    requires
        0 <= rf < 8,
        0 <= f < 8,
        sq == (7 - rf) * 8 + f,
        0 <= s < 64,
    ensures
        placed(rf, f + 1, s) == (placed(rf, f, s) || s == sq),
{
    assert(placed(rf, f + 1, s) == (placed(rf, f, s) || s == sq)) by (nonlinear_arith)
        requires
            0 <= rf < 8,
            0 <= f < 8,
            sq == (7 - rf) * 8 + f,
            0 <= s < 64,
    ;
}

proof fn lemma_placed_rank(rf: int, s: int)
    requires
        0 <= rf < 8,
    ensures
        placed(rf, 8, s) == placed(rf + 1, 0, s),
{
    if 0 <= s < 64 {
        assert(placed(rf, 8, s) == placed(rf + 1, 0, s)) by (nonlinear_arith)
            requires
                0 <= s < 64,
        ;
    }
}


/// A prefix of a run of digits is worth no more than the whole run.
proof fn lemma_digits_prefix(t: Seq<char>, k: int)
    requires
        0 <= k <= t.len(),
        forall|i: int| 0 <= i < t.len() ==> is_digit(#[trigger] t[i]),
    ensures
        digits_value(t.take(k)) <= digits_value(t),
    decreases t.len(),
{
    if k < t.len() {
        let p = t.drop_last();
        assert(p.take(k) =~= t.take(k));
        assert forall|i: int| 0 <= i < p.len() implies is_digit(#[trigger] p[i]) by {
            assert(p[i] == t[i]);
        }
        lemma_digits_prefix(p, k);
    } else {
        assert(t.take(k) =~= t);
    }
}

/// An unsigned number of at most `max`, read as `str::parse` does.
fn parse_uint(t: &Vec<char>, max: u32) -> (r: Option<u32>)
    requires
        max <= 65535,
    ensures
        r is Some <==> uint_ok(t@, max as nat),
        r is Some ==> r->0 == uint_value(t@),
{
    let start: usize = if t.len() > 0 && t[0] == '+' {
        1
    } else {
        0
    };
    let ghost d = unsigned_digits(t@);
    proof {
        assert(d =~= t@.subrange(start as int, t.len() as int));
    }
    if start >= t.len() {
        return None;
    }
    let mut val: u32 = 0;
    let mut j: usize = start;
    proof {
        assert(t@.subrange(start as int, j as int) =~= seq![]);
    }
    while j < t.len()
        invariant
            start <= j <= t.len(),
            d == unsigned_digits(t@),
            d == t@.subrange(start as int, t.len() as int),
            val as nat == digits_value(t@.subrange(start as int, j as int)),
            val <= max,
            max <= 65535,
            forall|i: int| start <= i < j ==> is_digit(#[trigger] t@[i]),
        decreases t.len() - j,
    {
        let c = t[j];
        let v = c as u32;
        let ghost pre = t@.subrange(start as int, j + 1);
        proof {
            assert(pre.drop_last() =~= t@.subrange(start as int, j as int));
            assert(pre.last() == c);
        }
        if v < 0x30 || v > 0x39 {
            proof {
                assert(!is_digit(d[j - start]));
            }
            return None;
        }
        let nv = val * 10 + (v - 0x30);
        if nv > max {
            proof {
                assert(digits_value(pre) == nv);
                if forall|i: int| 0 <= i < d.len() ==> is_digit(#[trigger] d[i]) {
                    lemma_digits_prefix(d, j + 1 - start);
                    assert(d.take(j + 1 - start) =~= pre);
                }
            }
            return None;
        }
        val = nv;
        j = j + 1;
    }
    proof {
        assert(t@.subrange(start as int, t.len() as int) =~= d);
        assert forall|i: int| 0 <= i < d.len() implies is_digit(#[trigger] d[i]) by {
            assert(d[i] == t@[start + i]);
        }
    }
    Some(val)
}

/// The one-character text `c`.
fn one(c: char) -> (r: Vec<char>)
    ensures
        r@ == seq![c],
{
    let mut v: Vec<char> = Vec::new();
    v.push(c);
    proof {
        assert(v@ =~= seq![c]);
    }
    v
}

fn is_dash_exec(t: &Vec<char>) -> (r: bool)
    ensures
        r == is_dash(t@),
{
    let r = t.len() == 1 && t[0] == '-';
    proof {
        if r {
            assert(t@ =~= seq!['-']);
        }
    }
    r
}

/// The side to move: `w` or `b`.
fn parse_active(t: &Vec<char>) -> (r: Option<u8>)
    ensures
        r is Some <==> active_ok(t@),
        r is Some ==> r->0 == active_value(t@),
{
    if t.len() == 1 && t[0] == 'w' {
        proof {
            assert(t@ =~= seq!['w']);
        }
        Some(0)
    } else if t.len() == 1 && t[0] == 'b' {
        proof {
            assert(t@ =~= seq!['b']);
        }
        Some(1)
    } else {
        None
    }
}

/// Castling rights: `-`, or letters among `KQkq`.
fn parse_castling(t: &Vec<char>) -> (r: Option<u8>)
    ensures
        r is Some <==> castling_ok(t@),
        r is Some ==> r->0 == castling_value(t@),
{
    if is_dash_exec(t) {
        return Some(0);
    }
    let mut bits: u8 = 0;
    let mut j: usize = 0;
    while j < t.len()
        invariant
            j <= t.len(),
            !is_dash(t@),
            bits == castle_bits(t@.take(j as int)),
            forall|i: int| 0 <= i < j ==> castle_char_ok(#[trigger] t@[i]),
        decreases t.len() - j,
    {
        let c = t[j];
        let ghost pre = t@.take(j + 1);
        proof {
            assert(pre.drop_last() =~= t@.take(j as int));
            assert(pre.last() == c);
        }
        let b: u8 = if c == 'K' {
            0x08
        } else if c == 'Q' {
            0x04
        } else if c == 'k' {
            0x02
        } else if c == 'q' {
            0x01
        } else {
            return None;
        };
        bits = bits | b;
        j = j + 1;
    }
    proof {
        assert(t@.take(t.len() as int) =~= t@);
    }
    Some(bits)
}

/// The en passant square: `-` (64) or a file letter and a rank digit.
fn parse_ep(t: &Vec<char>) -> (r: Option<u8>)
    ensures
        r is Some <==> ep_ok(t@),
        r is Some ==> r->0 == ep_value(t@),
{
    if is_dash_exec(t) {
        return Some(64);
    }
    if t.len() != 2 {
        return None;
    }
    let f = t[0] as u32;
    let k = t[1] as u32;
    if f < 0x61 || f >= 0x80 || k < 0x31 || k >= 0x80 {
        return None;
    }
    let v = (k - 0x31) * 8 + (f - 0x61);
    if v >= 256 {
        return None;
    }
    Some(v as u8)
}

/// Reads a FEN: the fields of the position it describes, or `None` when
/// the text is not one.
pub fn parse_fen(fen: &str) -> (r: Option<FenFields>)
    ensures
        r is Some <==> fen_ok(fen@),
        r is Some ==> fen_describes(r->0, fen@),
{
    let s = chars_of(fen);
    let f = split_fields(&s);
    let ghost fs = fields(fen@);
    proof {
        assert(views(f@).len() == f.len());
        assert forall|i: int| 0 <= i < f.len() implies #[trigger] fs[i] == f@[i]@ by {
            assert(views(f@)[i] == f@[i]@);
        }
    }
    if f.len() == 0 {
        return None;
    }
    let pieces = match parse_placement(&f[0]) {
        Some(p) => p,
        None => {
            return None;
        },
    };
    let turn = if f.len() > 1 {
        parse_active(&f[1])
    } else {
        parse_active(&one('w'))
    };
    let turn = match turn {
        Some(v) => v,
        None => {
            return None;
        },
    };
    let castling = if f.len() > 2 {
        parse_castling(&f[2])
    } else {
        parse_castling(&one('-'))
    };
    let castling = match castling {
        Some(v) => v,
        None => {
            return None;
        },
    };
    let ep = if f.len() > 3 {
        parse_ep(&f[3])
    } else {
        parse_ep(&one('-'))
    };
    let ep = match ep {
        Some(v) => v,
        None => {
            return None;
        },
    };
    let half = if f.len() > 4 {
        parse_uint(&f[4], 255)
    } else {
        parse_uint(&one('0'), 255)
    };
    let half = match half {
        Some(v) => v,
        None => {
            return None;
        },
    };
    let full = if f.len() > 5 {
        parse_uint(&f[5], 65535)
    } else {
        parse_uint(&one('1'), 65535)
    };
    let full = match full {
        Some(v) => v,
        None => {
            return None;
        },
    };
    Some(
        FenFields {
            pieces,
            player_turn: turn,
            castling_rights: castling,
            en_passant_square: ep,
            halfmove_clock: half as u8,
            fullmove_clock: full as u16,
        },
    )
}

impl Board {
    /// Sets the position from a FEN: pieces, occupancy, side to move,
    /// castling rights, en passant square, clocks and hash. The move tables,
    /// attack caches, pins and history are left as they were.
    pub fn from_fen(&mut self, fen: &str)
        requires
            fen_ok(fen@),
        ensures
            fen_describes(
                (FenFields {
                    pieces: final(self).pieces,
                    player_turn: final(self).player_turn,
                    castling_rights: final(self).castling_rights,
                    en_passant_square: final(self).en_passant_square,
                    halfmove_clock: final(self).halfmove_clock,
                    fullmove_clock: final(self).fullmove_clock,
                }),
                fen@,
            ),
            final(self).color_occupency[0].0 == side_occ(final(self).pieces, 0),
            final(self).color_occupency[1].0 == side_occ(final(self).pieces, 1),
            final(self).total_occupency.0 == all_occ(final(self).pieces),
            final(self).zobrist_hash == full_hash(
                final(self).pieces,
                final(self).castling_rights,
                final(self).en_passant_square,
                final(self).player_turn,
            ),
            final(self).kings == old(self).kings,
            final(self).promotion == old(self).promotion,
            final(self).attack_mask == old(self).attack_mask,
            final(self).attack_by_type == old(self).attack_by_type,
            final(self).pinned_pieces == old(self).pinned_pieces,
            final(self).move_gen == old(self).move_gen,
            final(self).history == old(self).history,
    {
        let parsed = match parse_fen(fen) {
            Some(p) => p,
            None => {
                return ;
            },
        };
        let white = side_occupancy(&parsed.pieces, 0);
        let black = side_occupancy(&parsed.pieces, 1);
        self.pieces = parsed.pieces;
        self.color_occupency = [BitBoard(white), BitBoard(black)];
        self.total_occupency = BitBoard(white | black);
        self.player_turn = parsed.player_turn;
        self.castling_rights = parsed.castling_rights;
        self.en_passant_square = parsed.en_passant_square;
        self.halfmove_clock = parsed.halfmove_clock;
        self.fullmove_clock = parsed.fullmove_clock;
        self.zobrist_hash = compute_hash(
            &parsed.pieces,
            parsed.castling_rights,
            parsed.en_passant_square,
            parsed.player_turn,
        );
    }
}

} // verus!
