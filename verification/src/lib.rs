//! A chess board model, the geometric movement rule of each piece, and decoders
//! for the FEN and PGN text notations.
//!
//! The movement rules look at the shape of a move alone. Nothing here knows
//! of blocked paths, captures, check, castling or whose turn it is.

pub mod board;
pub mod coord;
pub mod fen;
pub mod moves;
pub mod pgn;
pub mod piece;
pub mod text;

pub use board::Board;
pub use coord::Coord;
pub use fen::{Fen, ParseError};
pub use moves::{Bishop, King, Movable, Night, Pawn, Queen, Reach, Rook};
pub use pgn::{Game, Lance, Tags};
pub use piece::{Piece, PieceColor, PieceKind, SquareKind, TargetKind};
