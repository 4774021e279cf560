//! The piece catalog: colors, piece kinds, and the movement templates
//! each kind is built from.

use vstd::prelude::*;

verus! {

/// The two sides. Alternation is total and cyclic.
#[derive(PartialEq, Eq, Structural, Clone, Copy, Debug)]
pub enum Color {
    White,
    Black,
}

impl Color {
    /// The side that moves after this one.
    pub open spec fn other_spec(self) -> Color {
        match self {
            Color::White => Color::Black,
            Color::Black => Color::White,
        }
    }
}

/// The six piece kinds of standard chess.
#[derive(PartialEq, Eq, Structural, Clone, Copy, Debug)]
pub enum PieceType {
    Pawn,
    Rook,
    Knight,
    Bishop,
    King,
    Queen,
}

/// A piece: its side, its kind, one or two `(dx, dy)` direction templates
/// the move generator mirrors over both axes, whether movement repeats
/// along a ray, and whether the piece has moved yet.
#[derive(Clone, Copy, Debug)]
pub struct Piece {
    pub color: Color,
    pub piece_type: PieceType,
    pub movement: ((i8, i8), Option<(i8, i8)>),
    pub has_moved: bool,
    pub moves_continous: bool,
}

impl Piece {
    /// Every movement template is a nonzero offset no larger than the
    /// board; the ray walk of the move generator relies on this to
    /// terminate and to stay within machine arithmetic.
    pub open spec fn valid(self) -> bool {
        &&& self.movement.0 != (0i8, 0i8)
        &&& -8 <= self.movement.0.0 <= 8
        &&& -8 <= self.movement.0.1 <= 8
        &&& match self.movement.1 {
            Some(m) => m != (0i8, 0i8) && -8 <= m.0 <= 8 && -8 <= m.1 <= 8,
            None => true,
        }
    }
}

/// The result of `piece_make`: a fresh, unmoved piece of the given color
/// and kind carrying the catalog's movement data for that kind.
pub open spec fn spec_piece_make(color: Color, piece_type: PieceType) -> Piece {
    Piece {
        color,
        piece_type,
        movement: match piece_type {
            PieceType::Pawn => ((0i8, 1i8), Some((1i8, 1i8))),
            PieceType::Rook => ((0i8, 1i8), None),
            PieceType::Knight => ((1i8, 2i8), Some((2i8, 1i8))),
            PieceType::Bishop => ((1i8, 1i8), None),
            PieceType::King => ((0i8, 1i8), Some((1i8, 1i8))),
            PieceType::Queen => ((0i8, 1i8), Some((1i8, 1i8))),
        },
        has_moved: false,
        moves_continous: match piece_type {
            PieceType::Pawn => false,
            PieceType::Rook => true,
            PieceType::Knight => false,
            PieceType::Bishop => true,
            PieceType::King => false,
            PieceType::Queen => true,
        },
    }
}

/// Builds a fresh, unmoved piece of the given color and kind.
pub fn piece_make(color: Color, piece_type: PieceType) -> (p: Piece)
    ensures
        p == spec_piece_make(color, piece_type),
        p.valid(),
{
    Piece {
        color,
        has_moved: false,
        movement: match piece_type {
            PieceType::Pawn => ((0, 1), Some((1, 1))),
            PieceType::Rook => ((0, 1), None),
            PieceType::Knight => ((1, 2), Some((2, 1))),
            PieceType::Bishop => ((1, 1), None),
            PieceType::King => ((0, 1), Some((1, 1))),
            PieceType::Queen => ((0, 1), Some((1, 1))),
        },
        moves_continous: match piece_type {
            PieceType::Pawn => false,
            PieceType::Rook => true,
            PieceType::Knight => false,
            PieceType::Bishop => true,
            PieceType::King => false,
            PieceType::Queen => true,
        },
        piece_type,
    }
}

} // verus!
