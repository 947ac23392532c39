//! Colors, piece kinds and castling rights.
use vstd::prelude::*;

verus! {

#[derive(Debug, Clone, Copy, PartialEq, Eq, Structural)]
pub enum Color {
    White,
    Black,
}

impl Color {
    /// 0 is White; every other number is Black.
    pub fn from(num: u8) -> (r: Color)
        ensures
            r == (if num == 0 {
                Color::White
            } else {
                Color::Black
            }),
    {
        match num {
            0 => Color::White,
            _ => Color::Black,
        }
    }

    pub open spec fn ix(self) -> usize {
        match self {
            Color::White => 0,
            Color::Black => 1,
        }
    }

    /// The color's index into per-color tables.
    pub fn index(&self) -> (r: usize)
        ensures
            r == self.ix(),
    {
        match self {
            Color::White => 0,
            Color::Black => 1,
        }
    }
}

#[derive(Debug, Clone, Copy, PartialEq, Eq, Structural)]
pub enum PieceKind {
    Pawn,
    Knight,
    Bishop,
    Rook,
    Queen,
    King,
}

/// The piece kind with index `i` (0 = Pawn, ..., 5 = King).
pub open spec fn kind_of(i: int) -> Option<PieceKind> {
    if i == 0 {
        Some(PieceKind::Pawn)
    } else if i == 1 {
        Some(PieceKind::Knight)
    } else if i == 2 {
        Some(PieceKind::Bishop)
    } else if i == 3 {
        Some(PieceKind::Rook)
    } else if i == 4 {
        Some(PieceKind::Queen)
    } else if i == 5 {
        Some(PieceKind::King)
    } else {
        None
    }
}

/// Material value in centipawns, indexed by piece kind.
pub open spec fn centipawns(k: int) -> i32 {
    if k == 0 {
        100
    } else if k == 1 {
        320
    } else if k == 2 {
        330
    } else if k == 3 {
        500
    } else if k == 4 {
        900
    } else {
        0
    }
}

impl PieceKind {
    pub open spec fn idx(self) -> u8 {
        match self {
            PieceKind::Pawn => 0,
            PieceKind::Knight => 1,
            PieceKind::Bishop => 2,
            PieceKind::Rook => 3,
            PieceKind::Queen => 4,
            PieceKind::King => 5,
        }
    }

    fn from_idx_option(i: usize) -> (r: Option<PieceKind>)
        ensures
            r == kind_of(i as int),
    {
        match i {
            0 => Some(PieceKind::Pawn),
            1 => Some(PieceKind::Knight),
            2 => Some(PieceKind::Bishop),
            3 => Some(PieceKind::Rook),
            4 => Some(PieceKind::Queen),
            5 => Some(PieceKind::King),
            _ => None,
        }
    }

    /// The piece kind with index `int`; indices past 5 give a pawn.
    pub fn from_idx(i: usize) -> (r: PieceKind)
        ensures
            i < 6 ==> Some(r) == kind_of(i as int),
            i >= 6 ==> r == PieceKind::Pawn,
            i < 6 ==> r.idx() == i,
    {
        if i >= 6 {
            return PieceKind::Pawn;
        }
        match Self::from_idx_option(i) {
            Some(k) => k,
            None => PieceKind::Pawn,
        }
    }

    pub fn to_u8(&self) -> (r: u8)
        ensures
            r == self.idx(),
    {
        match self {
            PieceKind::Pawn => 0,
            PieceKind::Knight => 1,
            PieceKind::Bishop => 2,
            PieceKind::Rook => 3,
            PieceKind::Queen => 4,
            PieceKind::King => 5,
        }
    }

    /// Material value in centipawns (the king counts for nothing).
    pub fn value(&self) -> (r: i32)
        ensures
            r == centipawns(self.idx() as int),
    {
        match self {
            PieceKind::Pawn => 100,
            PieceKind::Knight => 320,
            PieceKind::Bishop => 330,
            PieceKind::Rook => 500,
            PieceKind::Queen => 900,
            PieceKind::King => 0,
        }
    }
}

#[derive(Debug, Clone, Copy, PartialEq, Eq, Structural)]
pub enum CastlingRights {
    WhiteQueenside,
    WhiteKingside,
    BlackQueenside,
    BlackKingside,
}

impl CastlingRights {
    /// Bit of each right in the packed `KQkq` byte: K = 0x08, Q = 0x04,
    /// k = 0x02, q = 0x01.
    pub open spec fn spec_bits(self) -> u8 {
        match self {
            CastlingRights::WhiteQueenside => 0x04,
            CastlingRights::WhiteKingside => 0x08,
            CastlingRights::BlackQueenside => 0x01,
            CastlingRights::BlackKingside => 0x02,
        }
    }

    pub fn bits(self) -> (r: u8)
        ensures
            r == self.spec_bits(),
    {
        match self {
            CastlingRights::WhiteQueenside => 0x04,
            CastlingRights::WhiteKingside => 0x08,
            CastlingRights::BlackQueenside => 0x01,
            CastlingRights::BlackKingside => 0x02,
        }
    }
}

} // verus!
