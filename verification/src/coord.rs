//! Board coordinates and their row-major numbering.

use vstd::prelude::*;

verus! {

/// Number of rows, and of columns, of the board.
pub const SIZE: usize = 8;

/// A square's position: the row first, then the column, both counted from zero.
#[derive(Debug, Copy, Clone, PartialEq, Eq, Hash, Structural)]
pub struct Coord(pub usize, pub usize);

impl Coord {
    /// The coordinate numbered `index` when the squares are counted row by row.
    pub open spec fn of_index(index: int) -> Coord {
        Coord((index / 8) as usize, (index % 8) as usize)
    }

    /// The number of this coordinate when the squares are counted row by row.
    pub open spec fn index(self) -> int {
        self.0 * 8 + self.1
    }

    /// Whether the coordinate addresses one of the 64 squares.
    pub open spec fn on_board(self) -> bool {
        self.0 < 8 && self.1 < 8
    }
}

/// The coordinate of a row-major number: `Coord::of_index` of it. Numbers
/// from 64 on give coordinates beyond the board, and nothing checks them.
impl From<usize> for Coord {
    fn from(index: usize) -> (c: Coord) {
        let a: usize = index / SIZE;
        let b: usize = index % SIZE;
        Coord(a, b)
    }
}

impl vstd::std_specs::convert::FromSpecImpl<usize> for Coord {
    open spec fn obeys_from_spec() -> bool {
        true
    }

    open spec fn from_spec(index: usize) -> Coord {
        Coord::of_index(index as int)
    }
}

/// Numbering a coordinate and counting back gives the number again.
pub proof fn lemma_index_round_trip(i: usize)
    ensures
        Coord::of_index(i as int).index() == i,
        Coord::of_index(i as int).1 < 8,
        i < 64 ==> Coord::of_index(i as int).on_board(),
{
}

/// Every square of the board is the coordinate of exactly its own number.
pub proof fn lemma_coord_round_trip(c: Coord)
    requires
        c.on_board(),
    ensures
        0 <= c.index() < 64,
        Coord::of_index(c.index()) == c,
{
}

} // verus!
