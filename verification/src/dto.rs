//! Values exchanged with the user interface: requested moves, the square
//! changes a move makes, and the answer to a move.
use vstd::prelude::*;
use crate::types::{Color, PieceKind, kind_of};
use crate::movegen::{Move, FLAG_EP_CAPTURE, FLAG_KING_CASTLE, FLAG_QUEEN_CASTLE, FLAG_PROMO_QUEEN,
    FLAG_PROMO_ROOK, FLAG_PROMO_BISHOP, FLAG_PROMO_KNIGHT};
use crate::board::Board;
use crate::board::moves::{move_ok, ep_victim};
use crate::board::state::notation;
use crate::board::respond::{changes_view, color_of, response_ok};

verus! {

/// A move as the interface sends it: squares in algebraic notation and the
/// piece a pawn promotes to.
#[derive(Debug)]
pub struct MoveInfo {
    pub from: String,
    pub to: String,
    pub promotion: Option<PromotionPiece>,
}

#[derive(Debug, Clone, Copy, PartialEq, Eq, Structural)]
pub enum PromotionPiece {
    Knight,
    Bishop,
    Rook,
    Queen,
}

#[derive(Debug)]
pub struct GetLegalMovesParams {
    pub piece_type: String,
    pub square: String,
    pub color: String,
}

/// Whether a requested move was played, with the answer when it was.
#[derive(Debug)]
pub enum Legality {
    Legal(Response),
    Illegal,
}

#[derive(Debug, Clone, Copy, PartialEq, Eq, Structural)]
pub enum MoveType {
    Normal,
    Castling,
    Promotion,
    EnPassant,
}

#[derive(Debug, Clone, Copy, PartialEq, Eq, Structural)]
pub enum PieceKindDto {
    Pawn,
    Knight,
    Bishop,
    Rook,
    Queen,
    King,
}

pub open spec fn kind_to_dto(k: PieceKind) -> PieceKindDto {
    match k {
        PieceKind::Pawn => PieceKindDto::Pawn,
        PieceKind::Knight => PieceKindDto::Knight,
        PieceKind::Bishop => PieceKindDto::Bishop,
        PieceKind::Rook => PieceKindDto::Rook,
        PieceKind::Queen => PieceKindDto::Queen,
        PieceKind::King => PieceKindDto::King,
    }
}

pub open spec fn dto_to_kind(k: PieceKindDto) -> PieceKind {
    match k {
        PieceKindDto::Pawn => PieceKind::Pawn,
        PieceKindDto::Knight => PieceKind::Knight,
        PieceKindDto::Bishop => PieceKind::Bishop,
        PieceKindDto::Rook => PieceKind::Rook,
        PieceKindDto::Queen => PieceKind::Queen,
        PieceKindDto::King => PieceKind::King,
    }
}

impl From<PieceKindDto> for PieceKind {
    fn from(value: PieceKindDto) -> (r: PieceKind) {
        match value {
            PieceKindDto::Pawn => PieceKind::Pawn,
            PieceKindDto::Knight => PieceKind::Knight,
            PieceKindDto::Bishop => PieceKind::Bishop,
            PieceKindDto::Rook => PieceKind::Rook,
            PieceKindDto::Queen => PieceKind::Queen,
            PieceKindDto::King => PieceKind::King,
        }
    }
}

impl vstd::std_specs::convert::FromSpecImpl<PieceKindDto> for PieceKind {
    open spec fn obeys_from_spec() -> bool {
        true
    }

    open spec fn from_spec(v: PieceKindDto) -> PieceKind {
        dto_to_kind(v)
    }
}

impl From<PieceKind> for PieceKindDto {
    fn from(value: PieceKind) -> (r: PieceKindDto) {
        match value {
            PieceKind::Pawn => PieceKindDto::Pawn,
            PieceKind::Knight => PieceKindDto::Knight,
            PieceKind::Bishop => PieceKindDto::Bishop,
            PieceKind::Rook => PieceKindDto::Rook,
            PieceKind::Queen => PieceKindDto::Queen,
            PieceKind::King => PieceKindDto::King,
        }
    }
}

impl vstd::std_specs::convert::FromSpecImpl<PieceKind> for PieceKindDto {
    open spec fn obeys_from_spec() -> bool {
        true
    }

    open spec fn from_spec(v: PieceKind) -> PieceKindDto {
        kind_to_dto(v)
    }
}

/// A piece as the interface draws it.
#[derive(Debug, Clone, Copy, PartialEq, Eq, Structural)]
pub struct PieceInfo {
    pub kind: PieceKindDto,
    pub color: Color,
}

impl PieceInfo {
    pub fn new(kind: PieceKindDto, color: Color) -> (r: PieceInfo)
        ensures
            r.kind == kind,
            r.color == color,
    {
        PieceInfo { kind, color }
    }
}

/// A square and what stands on it after a move (`None`: empty).
#[derive(Debug)]
pub struct SquareChange {
    pub square: String,
    pub piece: Option<PieceInfo>,
}

impl SquareChange {
    pub fn new(square: String, piece: Option<PieceInfo>) -> (r: SquareChange)
        ensures
            r.square@ == square@,
            r.piece == piece,
    {
        SquareChange { square, piece }
    }
}

/// The answer to a played move: its kind, the squares it changed, the
/// state of the game after it and the winner once it is mated.
#[derive(Debug)]
pub struct Response {
    pub move_type: MoveType,
    pub changes: Vec<SquareChange>,
    pub condition: GameState,
    pub winner: Option<Color>,
}

#[derive(Debug, Clone, Copy, PartialEq, Eq, Structural)]
pub enum GameState {
    InProgress,
    Checkmate,
    Stalemate,
    Draw,
}

/// Why a request was refused.
#[derive(Debug, Clone, Copy, PartialEq, Eq, Structural)]
pub enum CommandError {
    /// A square outside the board.
    InvalidSquareIndex { square: u16 },
    /// No piece of the side to move on the square.
    EmptySquare { square: u8 },
    /// The game has already ended.
    GameAlreadyOver,
}


/// The kind with index `i`; a pawn past the six kinds.
pub open spec fn kind_or_pawn(i: int) -> PieceKind {
    match kind_of(i) {
        Some(k) => k,
        None => PieceKind::Pawn,
    }
}

/// The square changes of `mv`, just played on `b` by the side that is not
/// to move: the pawn taken en passant or the castling rook, then the moved
/// (or promoted) piece.
pub open spec fn move_report(b: Board, mv: Move) -> Seq<(Seq<char>, Option<PieceInfo>)> {
    let mover = 1 - b.player_turn;
    let color = color_of(mover);
    let f = mv.flag();
    let rook = PieceInfo { kind: PieceKindDto::Rook, color };
    let extra = if f == FLAG_EP_CAPTURE {
        seq![(notation(ep_victim(mv, mover)), None)]
    } else if f == FLAG_KING_CASTLE {
        if mover == 0 {
            seq![(notation(5), Some(rook)), (notation(7), None)]
        } else {
            seq![(notation(61), Some(rook)), (notation(63), None)]
        }
    } else if f == FLAG_QUEEN_CASTLE {
        if mover == 0 {
            seq![(notation(3), Some(rook)), (notation(0), None)]
        } else {
            seq![(notation(59), Some(rook)), (notation(56), None)]
        }
    } else {
        seq![]
    };
    let kind = if f == FLAG_PROMO_BISHOP {
        PieceKindDto::Bishop
    } else if f == FLAG_PROMO_KNIGHT {
        PieceKindDto::Knight
    } else if f == FLAG_PROMO_QUEEN {
        PieceKindDto::Queen
    } else if f == FLAG_PROMO_ROOK {
        PieceKindDto::Rook
    } else {
        kind_to_dto(kind_or_pawn(mv.kind()))
    };
    extra + seq![(notation(mv.src()), None), (notation(mv.dst()), Some(PieceInfo { kind, color }))]
}

/// The kind of move a flag reports to the interface: en passant, castling,
/// or (promotions included, as for the player's moves) a normal move.
pub open spec fn flag_move_type(f: u16) -> MoveType {
    if f == FLAG_EP_CAPTURE {
        MoveType::EnPassant
    } else if f == FLAG_KING_CASTLE || f == FLAG_QUEEN_CASTLE {
        MoveType::Castling
    } else {
        MoveType::Normal
    }
}

/// The answer to the move `mv` just played on `board`: the squares it
/// changed, for the side that played it, the state of the game and the
/// winner on mate. The board is left as it was.
pub fn build_response(mv: Move, board: &mut Board) -> (r: Response)
    requires
        old(board).wf(),
        move_ok(mv, 1 - old(board).player_turn),
    ensures
        *final(board) == *old(board),
        response_ok(*old(board), r),
        r.move_type == flag_move_type(mv.flag()),
        changes_view(r.changes@) == move_report(*old(board), mv),
{
    let ghost b = *board;
    let from = mv.from();
    let to = mv.to();
    board.player_turn = 1 - board.player_turn;
    let mover = board.player_turn;
    let mut square_changes: Vec<SquareChange> = Vec::new();
    let mut promotion_kind: Option<PieceKindDto> = None;
    let f = mv.flags();
    if f == FLAG_EP_CAPTURE {
        let captured_idx: u8 = if mover == 0 {
            to - 8
        } else {
            to + 8
        };
        square_changes.push(SquareChange::new(board.index_to_notation(captured_idx), None));
    } else if f == FLAG_KING_CASTLE {
        let rook_from: u8 = if mover == 0 {
            7
        } else {
            63
        };
        let rook_to: u8 = if mover == 0 {
            5
        } else {
            61
        };
        square_changes.push(
            SquareChange::new(
                board.index_to_notation(rook_to),
                Some(PieceInfo::new(PieceKindDto::Rook, Color::from(mover))),
            ),
        );
        square_changes.push(SquareChange::new(board.index_to_notation(rook_from), None));
    } else if f == FLAG_QUEEN_CASTLE {
        let rook_from: u8 = if mover == 0 {
            0
        } else {
            56
        };
        let rook_to: u8 = if mover == 0 {
            3
        } else {
            59
        };
        square_changes.push(
            SquareChange::new(
                board.index_to_notation(rook_to),
                Some(PieceInfo::new(PieceKindDto::Rook, Color::from(mover))),
            ),
        );
        square_changes.push(SquareChange::new(board.index_to_notation(rook_from), None));
    } else if f == FLAG_PROMO_BISHOP {
        promotion_kind = Some(PieceKindDto::Bishop);
    } else if f == FLAG_PROMO_KNIGHT {
        promotion_kind = Some(PieceKindDto::Knight);
    } else if f == FLAG_PROMO_QUEEN {
        promotion_kind = Some(PieceKindDto::Queen);
    } else if f == FLAG_PROMO_ROOK {
        promotion_kind = Some(PieceKindDto::Rook);
    }
    let ghost extra = square_changes@;
    let mut move_changes = board.build_move_changes(
        from,
        to,
        PieceKind::from_idx(mv.piece() as usize),
        promotion_kind,
    );
    let ghost moved = move_changes@;
    square_changes.append(&mut move_changes);
    board.player_turn = 1 - board.player_turn;
    proof {
        assert(*board == b);
        assert(changes_view(square_changes@) =~= changes_view(extra) + changes_view(moved));
        assert(changes_view(square_changes@) =~= move_report(b, mv));
    }
    let game_state = board.get_game_state();
    let winner = if game_state == GameState::Checkmate {
        Some(Color::from(1 - board.player_turn))
    } else {
        None
    };
    let move_type = if f == FLAG_EP_CAPTURE {
        MoveType::EnPassant
    } else if f == FLAG_KING_CASTLE || f == FLAG_QUEEN_CASTLE {
        MoveType::Castling
    } else {
        MoveType::Normal
    };
    Response { move_type, changes: square_changes, condition: game_state, winner }
}

} // verus!
