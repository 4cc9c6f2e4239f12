//! Pieces, and what a square of the board holds.

use vstd::prelude::*;
use crate::coord::Coord;
use crate::moves::{Bishop, King, Movable, Night, Pawn, Queen, Rook};

verus! {

/// The side a piece belongs to.
#[derive(Debug, Copy, Clone, PartialEq, Eq, Structural)]
pub enum PieceColor {
    White,
    Black,
}

/// What a move would land on, seen from the piece that moves.
#[derive(Debug, Copy, Clone, PartialEq, Eq, Structural)]
pub enum TargetKind {
    Opposite,
    Same,
    Empty,
}

/// The six piece types. Each variant carries the marker of its movement rule.
#[derive(Debug, Copy, Clone, PartialEq, Eq, Structural)]
pub enum PieceKind {
    KindPawn(Pawn),
    KindNight(Night),
    KindBishop(Bishop),
    KindRook(Rook),
    KindQueen(Queen),
    KindKing(King),
}

impl PieceKind {
    /// The shape of the moves of this piece type.
    pub open spec fn shape(self, from: Coord, to: Coord) -> bool {
        match self {
            PieceKind::KindPawn(_) => Pawn::shape(from, to),
            PieceKind::KindNight(_) => Night::shape(from, to),
            PieceKind::KindBishop(_) => Bishop::shape(from, to),
            PieceKind::KindRook(_) => Rook::shape(from, to),
            PieceKind::KindQueen(_) => Queen::shape(from, to),
            PieceKind::KindKing(_) => King::shape(from, to),
        }
    }
}

/// The piece type of the knight's marker.
impl From<Night> for PieceKind {
    fn from(piece: Night) -> (kind: PieceKind) {
        PieceKind::KindNight(piece)
    }
}

impl vstd::std_specs::convert::FromSpecImpl<Night> for PieceKind {
    open spec fn obeys_from_spec() -> bool {
        true
    }

    open spec fn from_spec(piece: Night) -> PieceKind {
        PieceKind::KindNight(piece)
    }
}

/// The piece type of the bishop's marker.
impl From<Bishop> for PieceKind {
    fn from(piece: Bishop) -> (kind: PieceKind) {
        PieceKind::KindBishop(piece)
    }
}

impl vstd::std_specs::convert::FromSpecImpl<Bishop> for PieceKind {
    open spec fn obeys_from_spec() -> bool {
        true
    }

    open spec fn from_spec(piece: Bishop) -> PieceKind {
        PieceKind::KindBishop(piece)
    }
}

/// A piece: its type and its side. Neither changes once the piece is made.
#[derive(Debug, Copy, Clone, PartialEq, Eq, Structural)]
pub struct Piece {
    pub kind: PieceKind,
    pub color: PieceColor,
}

impl Piece {
    /// A piece of the given type and side.
    pub fn new(kind: PieceKind, color: PieceColor) -> (piece: Piece)
        ensures
            piece == (Piece { kind, color }),
    {
        Piece { kind, color }
    }

    /// The sign that stands for a piece where a board is written out: one
    /// sign for every piece, whatever its type and side.
    pub open spec fn glyph(self) -> Seq<char> {
        "❌"@
    }

    /// Writes the piece as its sign.
    pub fn to_string(&self) -> (text: String)
        ensures
            text@ == self.glyph(),
    {
        match (self.kind, self.color) {
            (_, _) => "❌".to_owned(),
        }
    }

    /// The shape of this piece's moves: that of its type, whatever its side.
    pub open spec fn shape(self, from: Coord, to: Coord) -> bool {
        self.kind.shape(from, to)
    }

    /// Decides whether the move from `from` to `to` has the shape that this
    /// piece's type may trace.
    pub fn can_move(&self, from: &Coord, to: &Coord) -> (ok: bool)
        ensures
            ok == self.shape(*from, *to),
    {
        match self.kind {
            PieceKind::KindPawn(_) => Pawn::can_move(from, to),
            PieceKind::KindNight(_) => Night::can_move(from, to),
            PieceKind::KindBishop(_) => Bishop::can_move(from, to),
            PieceKind::KindRook(_) => Rook::can_move(from, to),
            PieceKind::KindQueen(_) => Queen::can_move(from, to),
            PieceKind::KindKing(_) => King::can_move(from, to),
        }
    }
}

/// What a square holds: nothing, or a piece.
#[derive(Debug, Copy, Clone, PartialEq, Eq, Structural)]
pub enum SquareKind {
    Empty,
    SquarePiece(Piece),
}

impl SquareKind {
    /// The sign that stands for a square where a board is written out.
    pub open spec fn glyph(self) -> Seq<char> {
        match self {
            SquareKind::Empty => "⬛"@,
            SquareKind::SquarePiece(piece) => piece.glyph(),
        }
    }

    /// Writes the square as its sign.
    pub fn to_string(&self) -> (text: String)
        ensures
            text@ == self.glyph(),
    {
        match self {
            SquareKind::Empty => "⬛".to_owned(),
            SquareKind::SquarePiece(piece) => piece.to_string(),
        }
    }
}

/// The square on which the piece stands.
impl From<Piece> for SquareKind {
    fn from(piece: Piece) -> (square: SquareKind) {
        SquareKind::SquarePiece(piece)
    }
}

impl vstd::std_specs::convert::FromSpecImpl<Piece> for SquareKind {
    open spec fn obeys_from_spec() -> bool {
        true
    }

    open spec fn from_spec(piece: Piece) -> SquareKind {
        SquareKind::SquarePiece(piece)
    }
}

} // verus!
