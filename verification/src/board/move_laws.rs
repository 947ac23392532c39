//! What a move does to the castling rights, and what the reports of a
//! played move say about the board.
use vstd::prelude::*;
use crate::movegen::{Move, promo_kind, FLAG_EP_CAPTURE, FLAG_KING_CASTLE, FLAG_QUEEN_CASTLE};
use crate::bits::{bit, lemma_bit_xor};
use crate::types::Color;
use crate::dto::{PieceInfo, PieceKindDto};
use crate::board::{Board, Pieces, pb, kind_at, all_occ, side_occ};
use crate::board::moves::{make_post, is_castle, new_castling, rights_mask, toggle_mask, ep_victim};
use crate::board::validation::{is_legal, rook_squares};
use crate::board::consistent::{consistent, flips, lemma_flips};
use crate::board::incremental::{lemma_side_occ_bits, lemma_all_occ_bits};
use crate::board::state::{notation, notation_index, lemma_notation_round_trip};
use crate::dto::{move_report, PromotionPiece, Legality, MoveType, flag_move_type};
use crate::movegen::{FLAG_CAPTURE, FLAG_DOUBLE_PUSH, FLAG_QUIET, FLAG_PROMO_QUEEN, FLAG_PROMO_ROOK, FLAG_PROMO_BISHOP,
    FLAG_PROMO_KNIGHT};
use crate::board::respond::{requested_move, requested_flags, request_flags, packed_mask, packed_piece,
    squares_mask, promo_bits, king_flag, with_promotion, request_valid, king_move_legal, promo_value,
    lemma_canonical_witness, request_outcome, request_changes, changes_view, request_type};
use crate::board::legal_moves::canonical_legal;
use crate::board::validation::{last_rank, castle_ok};
use crate::geometry::{rank, absd, king_rel};

verus! {

/// A legal move takes away exactly the castling rights it spoils, and never
/// gives one: the rook leaving h1 loses white's kingside right (`0x08`),
/// a1 white's queenside (`0x04`), h8 black's kingside (`0x02`), a8 black's
/// queenside (`0x01`); a king move, castling included, loses both rights of
/// its side; every other right is kept.
#[verifier::rlimit(30)]
pub proof fn lemma_castling_rights_after_move(b0: Board, m: Move, b1: Board)
    requires
        b0.wf(),
        is_legal(b0, m),
        make_post(b0, m, b1),
    ensures
        b1.castling_rights & b0.castling_rights == b1.castling_rights,
        b0.player_turn == 0 && m.kind() == 3 && m.src() == 7 ==> b1.castling_rights & 0x08 == 0
            && b1.castling_rights & 0x07 == b0.castling_rights & 0x07,
        b0.player_turn == 0 && m.kind() == 3 && m.src() == 0 ==> b1.castling_rights & 0x04 == 0
            && b1.castling_rights & 0x0B == b0.castling_rights & 0x0B,
        b0.player_turn == 1 && m.kind() == 3 && m.src() == 63 ==> b1.castling_rights & 0x02 == 0
            && b1.castling_rights & 0x0D == b0.castling_rights & 0x0D,
        b0.player_turn == 1 && m.kind() == 3 && m.src() == 56 ==> b1.castling_rights & 0x01 == 0
            && b1.castling_rights & 0x0E == b0.castling_rights & 0x0E,
        b0.player_turn == 0 && m.kind() == 5 ==> b1.castling_rights & 0x0C == 0
            && b1.castling_rights & 0x03 == b0.castling_rights & 0x03,
        b0.player_turn == 1 && m.kind() == 5 ==> b1.castling_rights & 0x03 == 0
            && b1.castling_rights & 0x0C == b0.castling_rights & 0x0C,
        m.kind() != 3 && m.kind() != 5 ==> b1.castling_rights & 0x0F == b0.castling_rights & 0x0F,
        m.kind() == 3 && !(b0.player_turn == 0 && (m.src() == 0 || m.src() == 7)) && !(b0.player_turn == 1 && (
        m.src() == 56 || m.src() == 63)) ==> b1.castling_rights & 0x0F == b0.castling_rights & 0x0F,
{
    lemma_legal_flag_shape(b0, m);
    let c = b0.castling_rights;
    let r = b1.castling_rights;
    lemma_rights_bits(c);
    assert(r == new_castling(b0, m));
    if m.flag() == FLAG_EP_CAPTURE {
        assert(r == c);
    } else if m.kind() == 5 {
        if b0.player_turn == 0 {
            assert(r == c & 0x03);
        } else {
            assert(r == c & 0x0C);
        }
    } else {
        assert(r == c & rights_mask(m, b0.player_turn as int));
    }
}

/// Bit facts about the castling masks.
proof fn lemma_rights_bits(c: u8)
    by (bit_vector)
    ensures
        c & c == c,
        (c & 0x03u8) & c == c & 0x03u8 && (c & 0x03u8) & 0x0C == 0 && (c & 0x03u8) & 0x03 == c & 0x03,
        (c & 0x0Cu8) & c == c & 0x0Cu8 && (c & 0x0Cu8) & 0x03 == 0 && (c & 0x0Cu8) & 0x0C == c & 0x0C,
        (c & 0x0Fu8) & c == c & 0x0Fu8 && (c & 0x0Fu8) & 0x0F == c & 0x0F,
        (c & 0x07u8) & c == c & 0x07u8 && (c & 0x07u8) & 0x08 == 0 && (c & 0x07u8) & 0x07 == c & 0x07,
        (c & 0x0Bu8) & c == c & 0x0Bu8 && (c & 0x0Bu8) & 0x04 == 0 && (c & 0x0Bu8) & 0x0B == c & 0x0B,
        (c & 0x0Du8) & c == c & 0x0Du8 && (c & 0x0Du8) & 0x02 == 0 && (c & 0x0Du8) & 0x0D == c & 0x0D,
        (c & 0x0Eu8) & c == c & 0x0Eu8 && (c & 0x0Eu8) & 0x01 == 0 && (c & 0x0Eu8) & 0x0E == c & 0x0E,
{
}

/// The flag of a legal move fits its piece: castling flags only on king
/// moves, the en passant flag only on pawn moves.
proof fn lemma_legal_flag_shape(b0: Board, m: Move)
    requires
        is_legal(b0, m),
    ensures
        0 <= m.kind() < 6,
        is_castle(m.flag()) ==> m.kind() == 5,
        m.flag() == FLAG_EP_CAPTURE ==> m.kind() == 0,
{
    reveal(is_legal);
}

/// The interface's name of piece kind `k`.
pub open spec fn dto_kind(k: int) -> PieceKindDto {
    if k == 0 {
        PieceKindDto::Pawn
    } else if k == 1 {
        PieceKindDto::Knight
    } else if k == 2 {
        PieceKindDto::Bishop
    } else if k == 3 {
        PieceKindDto::Rook
    } else if k == 4 {
        PieceKindDto::Queen
    } else {
        PieceKindDto::King
    }
}

/// The color with number `c`.
pub open spec fn side_color(c: int) -> Color {
    if c == 0 {
        Color::White
    } else {
        Color::Black
    }
}

/// What stands on square `s`: the piece found in the bitboards, or `None`
/// for an empty square.
pub open spec fn content(p: Pieces, s: int) -> Option<PieceInfo> {
    if kind_at(p, 0, s) <= 5 {
        Some(PieceInfo { kind: dto_kind(kind_at(p, 0, s)), color: Color::White })
    } else if kind_at(p, 1, s) <= 5 {
        Some(PieceInfo { kind: dto_kind(kind_at(p, 1, s)), color: Color::Black })
    } else {
        None
    }
}

/// The kind a move leaves on its destination: the promotion piece, else
/// the piece that moved.
pub open spec fn placed_kind(m: Move) -> int {
    match promo_kind(m.flag()) {
        Some(k) => k as int,
        None => m.kind(),
    }
}

/// The squares a move can change: its source and destination, the pawn
/// taken en passant, the castling rook's two squares.
pub open spec fn touched(m: Move, c: int, i: int) -> bool {
    let f = m.flag();
    ||| i == m.src()
    ||| i == m.dst()
    ||| f == FLAG_EP_CAPTURE && i == ep_victim(m, c)
    ||| is_castle(f) && (i == rook_squares(f, c).0 || i == rook_squares(f, c).1)
}

/// A square with exactly one piece, of color `c` and kind `k`.
proof fn lemma_content_one(p: Pieces, i: int, c: int, k: int)
    requires
        0 <= c < 2,
        0 <= k < 6,
        bit(pb(p, c, k), i),
        forall|c2: int, k2: int| 0 <= c2 < 2 && 0 <= k2 < 6 && (c2 != c || k2 != k) ==> !#[trigger] bit(pb(p, c2, k2), i),
    ensures
        content(p, i) == Some(PieceInfo { kind: dto_kind(k), color: side_color(c) }),
{
    assert(!bit(pb(p, 0, 0), i) || (c == 0 && k == 0));
    assert(!bit(pb(p, 0, 1), i) || (c == 0 && k == 1));
    assert(!bit(pb(p, 0, 2), i) || (c == 0 && k == 2));
    assert(!bit(pb(p, 0, 3), i) || (c == 0 && k == 3));
    assert(!bit(pb(p, 0, 4), i) || (c == 0 && k == 4));
    assert(!bit(pb(p, 0, 5), i) || (c == 0 && k == 5));
    assert(!bit(pb(p, 1, 0), i) || (c == 1 && k == 0));
    assert(!bit(pb(p, 1, 1), i) || (c == 1 && k == 1));
    assert(!bit(pb(p, 1, 2), i) || (c == 1 && k == 2));
    assert(!bit(pb(p, 1, 3), i) || (c == 1 && k == 3));
    assert(!bit(pb(p, 1, 4), i) || (c == 1 && k == 4));
    assert(!bit(pb(p, 1, 5), i) || (c == 1 && k == 5));
}

/// An empty square.
proof fn lemma_content_none(p: Pieces, i: int)
    requires
        forall|c2: int, k2: int| 0 <= c2 < 2 && 0 <= k2 < 6 ==> !#[trigger] bit(pb(p, c2, k2), i),
    ensures
        content(p, i) is None,
{
    assert(!bit(pb(p, 0, 0), i) && !bit(pb(p, 0, 1), i) && !bit(pb(p, 0, 2), i) && !bit(pb(p, 0, 3), i) && !bit(
        pb(p, 0, 4),
        i,
    ) && !bit(pb(p, 0, 5), i));
    assert(!bit(pb(p, 1, 0), i) && !bit(pb(p, 1, 1), i) && !bit(pb(p, 1, 2), i) && !bit(pb(p, 1, 3), i) && !bit(
        pb(p, 1, 4),
        i,
    ) && !bit(pb(p, 1, 5), i));
}

/// A square whose bits did not change.
proof fn lemma_content_same(p0: Pieces, p1: Pieces, i: int)
    requires
        forall|c2: int, k2: int|
            0 <= c2 < 2 && 0 <= k2 < 6 ==> #[trigger] bit(pb(p1, c2, k2), i) == bit(pb(p0, c2, k2), i),
    ensures
        content(p1, i) == content(p0, i),
{
    assert(bit(pb(p1, 0, 0), i) == bit(pb(p0, 0, 0), i));
    assert(bit(pb(p1, 0, 1), i) == bit(pb(p0, 0, 1), i));
    assert(bit(pb(p1, 0, 2), i) == bit(pb(p0, 0, 2), i));
    assert(bit(pb(p1, 0, 3), i) == bit(pb(p0, 0, 3), i));
    assert(bit(pb(p1, 0, 4), i) == bit(pb(p0, 0, 4), i));
    assert(bit(pb(p1, 0, 5), i) == bit(pb(p0, 0, 5), i));
    assert(bit(pb(p1, 1, 0), i) == bit(pb(p0, 1, 0), i));
    assert(bit(pb(p1, 1, 1), i) == bit(pb(p0, 1, 1), i));
    assert(bit(pb(p1, 1, 2), i) == bit(pb(p0, 1, 2), i));
    assert(bit(pb(p1, 1, 3), i) == bit(pb(p0, 1, 3), i));
    assert(bit(pb(p1, 1, 4), i) == bit(pb(p0, 1, 4), i));
    assert(bit(pb(p1, 1, 5), i) == bit(pb(p0, 1, 5), i));
}

/// A move fits the board: the mover's piece of its kind stands on its
/// source; an en passant capture is a pawn's, onto an empty square, with
/// the enemy pawn behind it; a castling is the king's, from its square to
/// its castled square, with the rook in its corner and the squares it and
/// the king go to empty; any other move is onto a square without a piece
/// of the mover, with the piece standing there as its victim, and only a
/// pawn promotes.
pub open spec fn move_fits(b: Board, m: Move) -> bool {
    let p = b.pieces;
    let c = b.player_turn as int;
    let e = 1 - c;
    let f = m.flag();
    &&& 0 <= m.kind() < 6
    &&& bit(pb(p, c, m.kind()), m.src())
    &&& if f == FLAG_EP_CAPTURE {
        &&& m.kind() == 0
        &&& !bit(all_occ(p), m.dst())
        &&& 0 <= ep_victim(m, c) < 64
        &&& bit(pb(p, e, 0), ep_victim(m, c))
    } else if is_castle(f) {
        &&& m.kind() == 5
        &&& m.src() == (if c == 0 { 4int } else { 60int })
        &&& m.dst() == (if f == FLAG_KING_CASTLE {
            if c == 0 { 6int } else { 62int }
        } else {
            if c == 0 { 2int } else { 58int }
        })
        &&& bit(pb(p, c, 3), rook_squares(f, c).0 as int)
        &&& !bit(all_occ(p), rook_squares(f, c).1 as int)
        &&& !bit(all_occ(p), m.dst())
    } else {
        &&& (promo_kind(f) is Some ==> m.kind() == 0)
        &&& !bit(side_occ(p, c), m.dst())
        &&& m.victim() == kind_at(p, e, m.dst())
    }
}

/// A legal move fits its board.
pub proof fn lemma_legal_fits(b: Board, m: Move)
    requires
        b.wf(),
        consistent(b),
        is_legal(b, m),
    ensures
        move_fits(b, m),
{
    reveal(is_legal);
    m.lemma_bounds();
    crate::board::validation::lemma_legal_move_ok(b, m);
    let p = b.pieces;
    lemma_side_occ_bits(p, 0);
    lemma_side_occ_bits(p, 1);
    lemma_all_occ_bits(p);
}

/// What a legal move does to the squares of the board: its source is left
/// empty, its destination holds the mover's piece (the promotion piece for
/// a promotion), the pawn taken en passant is gone, the castling rook has
/// moved from its corner to the king's other side, and no other square
/// changes.
pub proof fn lemma_legal_move_squares(b0: Board, m: Move, b1: Board)
    requires
        b0.wf(),
        consistent(b0),
        is_legal(b0, m),
        make_post(b0, m, b1),
    ensures
        content(b1.pieces, m.src()) is None,
        content(b1.pieces, m.dst()) == Some(
            PieceInfo { kind: dto_kind(placed_kind(m)), color: side_color(b0.player_turn as int) },
        ),
        m.flag() == FLAG_EP_CAPTURE ==> content(b1.pieces, ep_victim(m, b0.player_turn as int)) is None,
        is_castle(m.flag()) ==> content(b1.pieces, rook_squares(m.flag(), b0.player_turn as int).0 as int) is None,
        is_castle(m.flag()) ==> content(b1.pieces, rook_squares(m.flag(), b0.player_turn as int).1 as int) == Some(
            PieceInfo { kind: PieceKindDto::Rook, color: side_color(b0.player_turn as int) },
        ),
        forall|i: int|
            0 <= i < 64 && !touched(m, b0.player_turn as int, i) ==> #[trigger] content(b1.pieces, i) == content(
                b0.pieces,
                i,
            ),
{
    lemma_legal_fits(b0, m);
    lemma_fitting_move_squares(b0, m, b1);
}

/// What a move that fits the board (see `move_fits`) does to its squares,
/// as `lemma_legal_move_squares` says.
#[verifier::rlimit(30)]
proof fn lemma_fitting_move_squares(b0: Board, m: Move, b1: Board)
    requires
        b0.player_turn < 2,
        consistent(b0),
        move_fits(b0, m),
        make_post(b0, m, b1),
    ensures
        content(b1.pieces, m.src()) is None,
        content(b1.pieces, m.dst()) == Some(
            PieceInfo { kind: dto_kind(placed_kind(m)), color: side_color(b0.player_turn as int) },
        ),
        m.flag() == FLAG_EP_CAPTURE ==> content(b1.pieces, ep_victim(m, b0.player_turn as int)) is None,
        is_castle(m.flag()) ==> content(b1.pieces, rook_squares(m.flag(), b0.player_turn as int).0 as int) is None,
        is_castle(m.flag()) ==> content(b1.pieces, rook_squares(m.flag(), b0.player_turn as int).1 as int) == Some(
            PieceInfo { kind: PieceKindDto::Rook, color: side_color(b0.player_turn as int) },
        ),
        forall|i: int|
            0 <= i < 64 && !touched(m, b0.player_turn as int, i) ==> #[trigger] content(b1.pieces, i) == content(
                b0.pieces,
                i,
            ),
{
    let p0 = b0.pieces;
    let p1 = b1.pieces;
    let c0 = b0.player_turn as int;
    let e = 1 - c0;
    let fr = m.src();
    let to = m.dst();
    let f = m.flag();
    m.lemma_bounds();
    lemma_flips(m, c0);
    assert forall|c: int, k: int, i: int| 0 <= c < 2 && 0 <= k < 6 implies #[trigger] bit(pb(p1, c, k), i) == (
    bit(pb(p0, c, k), i) != flips(m, c0, c, k, i)) by {
        lemma_bit_xor(pb(p0, c, k), toggle_mask(m, c0, c, k));
    }
    lemma_side_occ_bits(p0, 0);
    lemma_side_occ_bits(p0, 1);
    lemma_all_occ_bits(p0);
    assert forall|i: int| 0 <= i < 64 && !touched(m, c0, i) implies #[trigger] content(p1, i) == content(p0, i) by {
        assert forall|c2: int, k2: int| 0 <= c2 < 2 && 0 <= k2 < 6 implies #[trigger] bit(pb(p1, c2, k2), i) == bit(
            pb(p0, c2, k2),
            i,
        ) by {
            assert(!flips(m, c0, c2, k2, i));
        }
        lemma_content_same(p0, p1, i);
    }
    // source
    assert forall|c2: int, k2: int| 0 <= c2 < 2 && 0 <= k2 < 6 implies !#[trigger] bit(pb(p1, c2, k2), fr) by {
        assert(bit(pb(p1, c2, k2), fr) == (bit(pb(p0, c2, k2), fr) != flips(m, c0, c2, k2, fr)));
    }
    lemma_content_none(p1, fr);
    // destination
    assert forall|c2: int, k2: int|
        0 <= c2 < 2 && 0 <= k2 < 6 && (c2 != c0 || k2 != placed_kind(m)) implies !#[trigger] bit(
        pb(p1, c2, k2),
        to,
    ) by {
        assert(bit(pb(p1, c2, k2), to) == (bit(pb(p0, c2, k2), to) != flips(m, c0, c2, k2, to)));
    }
    assert(bit(pb(p1, c0, placed_kind(m)), to) == (bit(pb(p0, c0, placed_kind(m)), to) != flips(
        m,
        c0,
        c0,
        placed_kind(m),
        to,
    )));
    lemma_content_one(p1, to, c0, placed_kind(m));
    if f == FLAG_EP_CAPTURE {
        let v = ep_victim(m, c0);
        assert forall|c2: int, k2: int| 0 <= c2 < 2 && 0 <= k2 < 6 implies !#[trigger] bit(pb(p1, c2, k2), v) by {
            assert(bit(pb(p1, c2, k2), v) == (bit(pb(p0, c2, k2), v) != flips(m, c0, c2, k2, v)));
        }
        lemma_content_none(p1, v);
    }
    if is_castle(f) {
        let rf = rook_squares(f, c0).0 as int;
        let rt = rook_squares(f, c0).1 as int;
        assert forall|c2: int, k2: int| 0 <= c2 < 2 && 0 <= k2 < 6 implies !#[trigger] bit(pb(p1, c2, k2), rf) by {
            assert(bit(pb(p1, c2, k2), rf) == (bit(pb(p0, c2, k2), rf) != flips(m, c0, c2, k2, rf)));
        }
        lemma_content_none(p1, rf);
        assert forall|c2: int, k2: int|
            0 <= c2 < 2 && 0 <= k2 < 6 && (c2 != c0 || k2 != 3) implies !#[trigger] bit(pb(p1, c2, k2), rt) by {
            assert(bit(pb(p1, c2, k2), rt) == (bit(pb(p0, c2, k2), rt) != flips(m, c0, c2, k2, rt)));
        }
        assert(bit(pb(p1, c0, 3), rt) == (bit(pb(p0, c0, 3), rt) != flips(m, c0, c0, 3, rt)));
        lemma_content_one(p1, rt, c0, 3);
    }
}

/// A reported change names a square of the board, and says what that
/// square holds in `p1`.
pub open spec fn reported_right(p1: Pieces, e: (Seq<char>, Option<PieceInfo>)) -> bool {
    let s = notation_index(e.0) as int;
    &&& 0 <= s < 64
    &&& e.0 == notation(s)
    &&& e.1 == content(p1, s)
}

/// Square `i` is named in the report `rep`.
pub open spec fn names(rep: Seq<(Seq<char>, Option<PieceInfo>)>, i: int) -> bool {
    exists|j: int| 0 <= j < rep.len() && #[trigger] rep[j].0 == notation(i)
}

/// A report of a move from `p0` to `p1` is faithful: each change it lists
/// says what its square holds after the move, and every square whose
/// content changed is listed.
pub open spec fn report_faithful(p0: Pieces, p1: Pieces, rep: Seq<(Seq<char>, Option<PieceInfo>)>) -> bool {
    &&& forall|j: int| 0 <= j < rep.len() ==> #[trigger] reported_right(p1, rep[j])
    &&& forall|i: int| 0 <= i < 64 && content(p0, i) != content(p1, i) ==> #[trigger] names(rep, i)
}

proof fn lemma_named_right(p1: Pieces, i: int, x: Option<PieceInfo>)
    requires
        0 <= i < 64,
        x == content(p1, i),
    ensures
        reported_right(p1, (notation(i), x)),
{
    lemma_notation_round_trip(i);
}

/// The report of the computer's move (see `build_response`) is faithful:
/// it says what each listed square holds after the move (the promotion
/// piece on a promotion's destination, nothing where a pawn was taken en
/// passant, the rook beside the castled king) and lists every square the
/// move changed.
#[verifier::rlimit(30)]
pub proof fn lemma_move_report_faithful(b0: Board, m: Move, b1: Board)
    requires
        b0.wf(),
        consistent(b0),
        is_legal(b0, m),
        make_post(b0, m, b1),
    ensures
        report_faithful(b0.pieces, b1.pieces, move_report(b1, m)),
{
    lemma_legal_move_squares(b0, m, b1);
    lemma_legal_flag_shape(b0, m);
    reveal(is_legal);
    m.lemma_bounds();
    crate::board::validation::lemma_legal_move_ok(b0, m);
    let c0 = b0.player_turn as int;
    let f = m.flag();
    let rep = move_report(b1, m);
    let p1 = b1.pieces;
    assert(1 - b1.player_turn == c0);
    let col = side_color(c0);
    let moved = seq![(notation(m.src()), None::<PieceInfo>), (notation(m.dst()), content(p1, m.dst()))];
    lemma_named_right(p1, m.src(), None);
    lemma_named_right(p1, m.dst(), content(p1, m.dst()));
    if f == FLAG_EP_CAPTURE {
        let v = ep_victim(m, c0);
        lemma_named_right(p1, v, None);
        assert(rep =~= seq![(notation(v), None::<PieceInfo>)] + moved);
        assert forall|j: int| 0 <= j < rep.len() implies #[trigger] reported_right(p1, rep[j]) by {
        }
        assert forall|i: int| 0 <= i < 64 && content(b0.pieces, i) != content(p1, i) implies #[trigger] names(rep, i) by {
            assert(touched(m, c0, i));
            if i == v {
                assert(rep[0].0 == notation(i));
            } else if i == m.src() {
                assert(rep[1].0 == notation(i));
            } else {
                assert(rep[2].0 == notation(i));
            }
        }
    } else if is_castle(f) {
        let rf = rook_squares(f, c0).0 as int;
        let rt = rook_squares(f, c0).1 as int;
        lemma_named_right(p1, rf, None);
        lemma_named_right(p1, rt, content(p1, rt));
        assert(rep =~= seq![(notation(rt), content(p1, rt)), (notation(rf), None::<PieceInfo>)] + moved);
        assert forall|j: int| 0 <= j < rep.len() implies #[trigger] reported_right(p1, rep[j]) by {
        }
        assert forall|i: int| 0 <= i < 64 && content(b0.pieces, i) != content(p1, i) implies #[trigger] names(rep, i) by {
            assert(touched(m, c0, i));
            if i == rt {
                assert(rep[0].0 == notation(i));
            } else if i == rf {
                assert(rep[1].0 == notation(i));
            } else if i == m.src() {
                assert(rep[2].0 == notation(i));
            } else {
                assert(rep[3].0 == notation(i));
            }
        }
    } else {
        assert(rep =~= moved);
        assert forall|j: int| 0 <= j < rep.len() implies #[trigger] reported_right(p1, rep[j]) by {
        }
        assert forall|i: int| 0 <= i < 64 && content(b0.pieces, i) != content(p1, i) implies #[trigger] names(rep, i) by {
            assert(touched(m, c0, i));
            if i == m.src() {
                assert(rep[0].0 == notation(i));
            } else {
                assert(rep[1].0 == notation(i));
            }
        }
    }
}

/// Bit facts about the flag values a request combines.
proof fn lemma_flag_bits(pb: u16, kf: u16)
    by (bit_vector)
    requires
        pb == 0 || pb == 0x8000 || pb == 0x9000 || pb == 0xA000 || pb == 0xB000,
        kf == 0 || kf == 0x2000 || kf == 0x3000,
    ensures
        (pb | kf) & 0x0FFF == 0,
        pb & 0x0FFF == 0,
        (pb | 0x1000u16) & 0x0FFF == 0,
        (pb | 0x1000u16 | 0x5000u16) & 0x0FFF == 0,
        (pb | 0x5000u16) & 0x0FFF == 0,
        0u16 | 0u16 == 0u16,
        0u16 | 0x1000u16 == 0x1000u16,
        0u16 | 0x2000u16 == 0x2000u16,
        0u16 | 0x3000u16 == 0x3000u16,
        0u16 | 0x5000u16 == 0x5000u16,
        0u16 | 0x4000u16 == 0x4000u16,
        0x5000u16 | 0x4000u16 == 0x5000u16,
        0x1000u16 | 0x4000u16 == 0x5000u16,
        0x8000u16 | 0x1000u16 == 0x9000u16,
{
}

/// The flag bits of a request sit above the squares.
proof fn lemma_requested_flags_high(b: Board, from: int, to: int, k: int, p: Option<PromotionPiece>)
    ensures
        requested_flags(b, from, to, k, p) & 0x0FFF == 0,
{
    lemma_flag_bits(promo_bits(p), king_flag(from, to));
}

/// The move a request builds has the request's squares and piece, and its
/// flag is the request's flag, with the capture bit added when a piece is
/// taken and the flag is no promotion.
proof fn lemma_requested_parts(b: Board, from: int, to: int, k: int, p: Option<PromotionPiece>)
    requires
        0 <= from < 64,
        0 <= to < 64,
        0 <= k < 6,
        b.player_turn < 2,
    ensures
        ({
            let m = requested_move(b, from, to, k, p);
            let rf = requested_flags(b, from, to, k, p);
            &&& m.src() == from
            &&& m.dst() == to
            &&& m.kind() == k
            &&& m.victim() == kind_at(b.pieces, 1 - b.player_turn, to)
            &&& m.flag() == (if kind_at(b.pieces, 1 - b.player_turn, to) <= 5 && promo_kind(rf) is None {
                rf | FLAG_CAPTURE
            } else {
                rf
            })
        }),
{
    let rf = requested_flags(b, from, to, k, p);
    lemma_requested_flags_high(b, from, to, k, p);
    let mask = squares_mask(from, to, rf);
    let fu = from as u16;
    let tu = to as u16;
    assert(mask == ((tu << 6u16) | fu) | rf);
    let cap: u16 = FLAG_CAPTURE;
    let pk = packed_piece(b, to, k);
    let v = crate::board::kind_at(b.pieces, 1 - b.player_turn, to) as u8;
    let ku = k as u8;
    assert(pk == ((v << 4u8) | ku) as u8);
    assert(mask & 0xF000 == rf && mask & 0x3F == fu && (mask >> 6u16) & 0x3F == tu && (mask | cap) & 0xF000 == rf
        | cap && (mask | cap) & 0x3F == fu && ((mask | cap) >> 6u16) & 0x3F == tu && ((v << 4u8) | ku) & 0x0F == ku
        && ((v << 4u8) | ku) >> 4u8 == v) by (bit_vector)
        requires
            fu < 64,
            tu < 64,
            rf & 0x0FFF == 0,
            cap == 0x4000u16,
            mask == ((tu << 6u16) | fu) | rf,
            ku < 16,
            v <= 6,
    ;
    let pm = packed_mask(b, mask, to);
    Move::lemma_from_parts(pm, pk);
}

/// What a request asks that the rules can play: when a promotion is asked
/// for, a pawn reaches its last rank; and the en passant square, if any,
/// is on the third or sixth rank.
pub open spec fn request_sound(b: Board, from: int, to: int, k: int, p: Option<PromotionPiece>) -> bool {
    &&& 0 <= from < 64
    &&& 0 <= to < 64
    &&& 0 <= k < 6
    &&& (p is Some ==> k == 0 && rank(to) == last_rank(b.player_turn as int))
    &&& (b.en_passant_square < 64 ==> rank(b.en_passant_square as int) == 2 || rank(b.en_passant_square as int)
        == 5)
}

/// The move a valid request plays fits the board, is a castling exactly
/// when the king goes two squares, is an en passant capture exactly when a
/// pawn goes to the en passant square (forwards), and leaves the promotion
/// piece asked for, or else the piece that moved.
pub open spec fn request_shape(b: Board, from: int, to: int, k: int, p: Option<PromotionPiece>) -> bool {
    let mid = with_promotion(b, p);
    let m = requested_move(mid, from, to, k, p);
    let f = m.flag();
    let c = b.player_turn as int;
    &&& move_fits(mid, m)
    &&& m.src() == from
    &&& m.dst() == to
    &&& m.kind() == k
    &&& (is_castle(f) <==> (k == 5 && is_castle(king_flag(from, to))))
    &&& (is_castle(f) ==> f == king_flag(from, to))
    &&& (f == FLAG_EP_CAPTURE <==> (k == 0 && to == b.en_passant_square))
    &&& (f == FLAG_EP_CAPTURE ==> (if c == 0 {
        to > from
    } else {
        to < from
    }))
    &&& placed_kind(m) == (match p {
        Some(x) => promo_value(x) as int,
        None => k,
    })
}

proof fn lemma_or_consts()
    ensures
        0u16 | 0u16 == 0u16,
        0u16 | 0x1000u16 == 0x1000u16,
        0u16 | 0x2000u16 == 0x2000u16,
        0u16 | 0x3000u16 == 0x3000u16,
        0u16 | 0x5000u16 == 0x5000u16,
        0u16 | 0x4000u16 == 0x4000u16,
        0x5000u16 | 0x4000u16 == 0x5000u16,
        0x1000u16 | 0x4000u16 == 0x5000u16,
        0x8000u16 | 0x1000u16 == 0x9000u16,
{
    lemma_flag_bits(0, 0);
}

/// A king request.
proof fn lemma_request_shape_king(b: Board, from: int, to: int, p: Option<PromotionPiece>)
    requires
        b.wf(),
        consistent(b),
        request_sound(b, from, to, 5, p),
        request_valid(with_promotion(b, p), from, to, 5),
    ensures
        request_shape(b, from, to, 5, p),
{
    let mid = with_promotion(b, p);
    assert(p is None);
    assert(mid == b);
    let c = b.player_turn as int;
    let pieces = b.pieces;
    lemma_requested_parts(mid, from, to, 5, p);
    lemma_or_consts();
    lemma_side_occ_bits(pieces, 0);
    lemma_side_occ_bits(pieces, 1);
    lemma_all_occ_bits(pieces);
    let mk = choose|mk: Move| #[trigger] is_legal(b, mk) && mk.kind() == 5 && mk.src() == from && mk.dst() == to;
    assert(is_legal(b, mk));
    reveal(is_legal);
    let m = requested_move(mid, from, to, 5, p);
    if king_rel(from, to) {
        assert(king_flag(from, to) == FLAG_QUIET);
        assert(!castle_ok(b, mk));
    } else {
        assert(castle_ok(b, mk));
        assert(king_flag(from, to) == mk.flag());
    }
}

/// A request of a piece other than the king or a pawn.
proof fn lemma_request_shape_piece(b: Board, from: int, to: int, k: int, p: Option<PromotionPiece>)
    requires
        b.wf(),
        consistent(b),
        request_sound(b, from, to, k, p),
        1 <= k <= 4,
        request_valid(with_promotion(b, p), from, to, k),
    ensures
        request_shape(b, from, to, k, p),
{
    let mid = with_promotion(b, p);
    assert(p is None);
    assert(mid == b);
    let pieces = b.pieces;
    lemma_requested_parts(mid, from, to, k, p);
    lemma_or_consts();
    lemma_side_occ_bits(pieces, 0);
    lemma_side_occ_bits(pieces, 1);
    lemma_all_occ_bits(pieces);
    let mc = lemma_canonical_witness(b, from, to, k);
    assert(is_legal(b, mc));
    reveal(is_legal);
}

/// A pawn request.
proof fn lemma_request_shape_pawn(b: Board, from: int, to: int, p: Option<PromotionPiece>)
    requires
        b.wf(),
        consistent(b),
        request_sound(b, from, to, 0, p),
        request_valid(with_promotion(b, p), from, to, 0),
    ensures
        request_shape(b, from, to, 0, p),
{
    let mid = with_promotion(b, p);
    let c = b.player_turn as int;
    let pieces = b.pieces;
    lemma_requested_parts(mid, from, to, 0, p);
    lemma_or_consts();
    lemma_side_occ_bits(pieces, 0);
    lemma_side_occ_bits(pieces, 1);
    lemma_all_occ_bits(pieces);
    let mc = lemma_canonical_witness(mid, from, to, 0);
    assert(is_legal(mid, mc));
    reveal(is_legal);
    crate::board::validation::lemma_legal_move_ok(mid, mc);
}

/// The report of a played request (see `parse_react_move`) is faithful:
/// each change it lists says what its square holds after the move (the
/// promotion piece asked for, nothing where a pawn was taken en passant,
/// the rook beside the castled king), and every square the move changed is
/// listed.
#[verifier::rlimit(30)]
pub proof fn lemma_request_report_faithful(
    b: Board,
    from: int,
    to: int,
    k: int,
    p: Option<PromotionPiece>,
    l: Legality,
    b2: Board,
)
    requires
        b.wf(),
        consistent(b),
        request_sound(b, from, to, k, p),
        request_outcome(b, from, to, k, p, l, b2),
    ensures
        l matches Legality::Legal(resp) ==> report_faithful(b.pieces, b2.pieces, changes_view(resp.changes@)),
{
    reveal(request_outcome);
    let mid = with_promotion(b, p);
    let m = requested_move(mid, from, to, k, p);
    if l is Legal {
        let resp = l->Legal_0;
        assert(request_valid(mid, from, to, k));
        assert(make_post(mid, m, b2));
        if k == 5 {
            lemma_request_shape_king(b, from, to, p);
        } else if k == 0 {
            lemma_request_shape_pawn(b, from, to, p);
        } else {
            lemma_request_shape_piece(b, from, to, k, p);
        }
        assert(consistent(mid));
        lemma_fitting_move_squares(mid, m, b2);
        reveal(request_changes);
        let rep = request_changes(mid, from, to, k, p);
        assert(changes_view(resp.changes@) == rep);
        let c = b.player_turn as int;
        let f = m.flag();
        let p1 = b2.pieces;
        let moved = seq![(notation(from), None::<PieceInfo>), (notation(to), content(p1, to))];
        lemma_named_right(p1, from, None);
        lemma_named_right(p1, to, content(p1, to));
        if is_castle(f) {
            let rf = rook_squares(f, c).0 as int;
            let rt = rook_squares(f, c).1 as int;
            lemma_named_right(p1, rf, None);
            lemma_named_right(p1, rt, content(p1, rt));
            assert(rep =~= seq![(notation(rt), content(p1, rt)), (notation(rf), None::<PieceInfo>)] + moved);
            assert forall|j: int| 0 <= j < rep.len() implies #[trigger] reported_right(p1, rep[j]) by {
            }
            assert forall|i: int| 0 <= i < 64 && content(b.pieces, i) != content(p1, i) implies #[trigger] names(
                rep,
                i,
            ) by {
                assert(touched(m, c, i));
                if i == rt {
                    assert(rep[0].0 == notation(i));
                } else if i == rf {
                    assert(rep[1].0 == notation(i));
                } else if i == from {
                    assert(rep[2].0 == notation(i));
                } else {
                    assert(rep[3].0 == notation(i));
                }
            }
        } else if f == FLAG_EP_CAPTURE {
            let v = ep_victim(m, c);
            lemma_named_right(p1, v, None);
            assert(rep =~= moved + seq![(notation(v), None::<PieceInfo>)]);
            assert forall|j: int| 0 <= j < rep.len() implies #[trigger] reported_right(p1, rep[j]) by {
            }
            assert forall|i: int| 0 <= i < 64 && content(b.pieces, i) != content(p1, i) implies #[trigger] names(
                rep,
                i,
            ) by {
                assert(touched(m, c, i));
                if i == from {
                    assert(rep[0].0 == notation(i));
                } else if i == to {
                    assert(rep[1].0 == notation(i));
                } else {
                    assert(rep[2].0 == notation(i));
                }
            }
        } else {
            assert(rep =~= moved);
            assert forall|j: int| 0 <= j < rep.len() implies #[trigger] reported_right(p1, rep[j]) by {
            }
            assert forall|i: int| 0 <= i < 64 && content(b.pieces, i) != content(p1, i) implies #[trigger] names(
                rep,
                i,
            ) by {
                assert(touched(m, c, i));
                if i == from {
                    assert(rep[0].0 == notation(i));
                } else {
                    assert(rep[1].0 == notation(i));
                }
            }
        }
    }
}

/// A move of color `c` to `dst` took an enemy piece off a square other
/// than its destination.
pub open spec fn takes_aside(p0: Pieces, p1: Pieces, dst: int, c: int) -> bool {
    exists|i: int|
        0 <= i < 64 && i != dst && (#[trigger] content(p0, i) matches Some(x) && x.color == side_color(1 - c))
            && content(p1, i) is None
}

/// A move of color `c` from `src` to `dst` brought a rook of its color to
/// an empty square other than these two.
pub open spec fn moves_rook_too(p0: Pieces, p1: Pieces, src: int, dst: int, c: int) -> bool {
    exists|i: int|
        0 <= i < 64 && i != src && i != dst && #[trigger] content(p0, i) is None && content(p1, i) == Some(
            PieceInfo { kind: PieceKindDto::Rook, color: side_color(c) },
        )
}

/// The kind of move reported for a move that fits its board matches what
/// it did: en passant exactly when it took a piece off another square than
/// its destination, castling exactly when it also brought a rook to an
/// empty square.
#[verifier::rlimit(30)]
proof fn lemma_fitting_move_type(b0: Board, m: Move, b1: Board)
    requires
        b0.player_turn < 2,
        consistent(b0),
        move_fits(b0, m),
        make_post(b0, m, b1),
    ensures
        (flag_move_type(m.flag()) == MoveType::EnPassant) == takes_aside(
            b0.pieces,
            b1.pieces,
            m.dst(),
            b0.player_turn as int,
        ),
        (flag_move_type(m.flag()) == MoveType::Castling) == moves_rook_too(
            b0.pieces,
            b1.pieces,
            m.src(),
            m.dst(),
            b0.player_turn as int,
        ),
{
    lemma_fitting_move_squares(b0, m, b1);
    let p0 = b0.pieces;
    let p1 = b1.pieces;
    let c = b0.player_turn as int;
    let e = 1 - c;
    let f = m.flag();
    m.lemma_bounds();
    lemma_side_occ_bits(p0, 0);
    lemma_side_occ_bits(p0, 1);
    lemma_all_occ_bits(p0);
    // the source held the mover's piece
    assert forall|c2: int, k2: int|
        0 <= c2 < 2 && 0 <= k2 < 6 && (c2 != c || k2 != m.kind()) implies !#[trigger] bit(pb(p0, c2, k2), m.src()) by {
    }
    lemma_content_one(p0, m.src(), c, m.kind());
    if is_castle(f) {
        let rf = rook_squares(f, c).0 as int;
        let rt = rook_squares(f, c).1 as int;
        assert forall|c2: int, k2: int|
            0 <= c2 < 2 && 0 <= k2 < 6 && (c2 != c || k2 != 3) implies !#[trigger] bit(pb(p0, c2, k2), rf) by {
        }
        lemma_content_one(p0, rf, c, 3);
        assert forall|c2: int, k2: int| 0 <= c2 < 2 && 0 <= k2 < 6 implies !#[trigger] bit(pb(p0, c2, k2), rt) by {
        }
        lemma_content_none(p0, rt);
        assert(content(p0, rt) is None);
        assert(moves_rook_too(p0, p1, m.src(), m.dst(), c));
    }
    if f == FLAG_EP_CAPTURE {
        let v = ep_victim(m, c);
        assert forall|c2: int, k2: int|
            0 <= c2 < 2 && 0 <= k2 < 6 && (c2 != e || k2 != 0) implies !#[trigger] bit(pb(p0, c2, k2), v) by {
        }
        lemma_content_one(p0, v, e, 0);
        assert(takes_aside(p0, p1, m.dst(), c));
    }
    if f != FLAG_EP_CAPTURE {
        assert forall|i: int|
            0 <= i < 64 && i != m.dst() && (#[trigger] content(p0, i) matches Some(x) && x.color == side_color(
                1 - c,
            )) implies !(content(p1, i) is None) by {
            if !touched(m, c, i) {
                assert(content(p1, i) == content(p0, i));
            }
        }
    }
    if !is_castle(f) {
        assert forall|i: int|
            0 <= i < 64 && i != m.src() && i != m.dst() && #[trigger] content(p0, i) is None implies content(p1, i)
            != Some(PieceInfo { kind: PieceKindDto::Rook, color: side_color(c) }) by {
            if !touched(m, c, i) {
                assert(content(p1, i) == content(p0, i));
            }
        }
    }
}

/// The kind of the computer's move (see `build_response`) matches what it
/// did: en passant exactly when it took a piece off another square than
/// its destination, castling exactly when it also brought a rook to an
/// empty square.
pub proof fn lemma_move_report_type(b0: Board, m: Move, b1: Board)
    requires
        b0.wf(),
        consistent(b0),
        is_legal(b0, m),
        make_post(b0, m, b1),
    ensures
        (flag_move_type(m.flag()) == MoveType::EnPassant) == takes_aside(
            b0.pieces,
            b1.pieces,
            m.dst(),
            b0.player_turn as int,
        ),
        (flag_move_type(m.flag()) == MoveType::Castling) == moves_rook_too(
            b0.pieces,
            b1.pieces,
            m.src(),
            m.dst(),
            b0.player_turn as int,
        ),
{
    lemma_legal_fits(b0, m);
    lemma_fitting_move_type(b0, m, b1);
}

/// The kind of a played request (see `parse_react_move`) matches what it
/// did: en passant exactly when it took a piece off another square than
/// its destination, castling exactly when it also brought a rook to an
/// empty square.
pub proof fn lemma_request_type_faithful(
    b: Board,
    from: int,
    to: int,
    k: int,
    p: Option<PromotionPiece>,
    l: Legality,
    b2: Board,
)
    requires
        b.wf(),
        consistent(b),
        request_sound(b, from, to, k, p),
        request_outcome(b, from, to, k, p, l, b2),
    ensures
        l matches Legality::Legal(resp) ==> {
            &&& (resp.move_type == MoveType::EnPassant) == takes_aside(b.pieces, b2.pieces, to, b.player_turn as int)
            &&& (resp.move_type == MoveType::Castling) == moves_rook_too(
                b.pieces,
                b2.pieces,
                from,
                to,
                b.player_turn as int,
            )
        },
{
    reveal(request_outcome);
    let mid = with_promotion(b, p);
    let m = requested_move(mid, from, to, k, p);
    if l is Legal {
        if k == 5 {
            lemma_request_shape_king(b, from, to, p);
        } else if k == 0 {
            lemma_request_shape_pawn(b, from, to, p);
        } else {
            lemma_request_shape_piece(b, from, to, k, p);
        }
        assert(consistent(mid));
        lemma_fitting_move_type(mid, m, b2);
        assert(request_type(mid, from, to, k) == flag_move_type(m.flag()));
    }
}

} // verus!
