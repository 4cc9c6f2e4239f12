//! The geometric movement rule of each piece type.
//!
//! A rule looks only at the two coordinates of a move: it knows nothing of
//! what stands on the board, of the colour that moves, or of whose turn it is.

use vstd::prelude::*;
use crate::coord::{Coord, SIZE};

verus! {

/// The distance between two row numbers or two column numbers.
pub open spec fn delta(a: usize, b: usize) -> int {
    if a <= b {
        b - a
    } else {
        a - b
    }
}

/// Every square of the board, counted row by row.
pub open spec fn board_squares() -> Seq<Coord> {
    Seq::new(64, |i: int| Coord::of_index(i))
}

/// The squares of the board that `reaches` accepts, in row-major order.
pub open spec fn targets(reaches: spec_fn(Coord) -> bool) -> Seq<Coord> {
    board_squares().filter(reaches)
}

fn distance(a: usize, b: usize) -> (d: usize)
    ensures
        d == delta(a, b),
{
    if a <= b {
        b - a
    } else {
        a - b
    }
}

/// Marker of the pawn's rule.
#[derive(Debug, Copy, Clone, PartialEq, Eq, Structural)]
pub struct Pawn {}

/// Marker of the knight's rule.
#[derive(Debug, Copy, Clone, PartialEq, Eq, Structural)]
pub struct Night {}

/// Marker of the bishop's rule.
#[derive(Debug, Copy, Clone, PartialEq, Eq, Structural)]
pub struct Bishop {}

/// Marker of the rook's rule.
#[derive(Debug, Copy, Clone, PartialEq, Eq, Structural)]
pub struct Rook {}

/// Marker of the queen's rule.
#[derive(Debug, Copy, Clone, PartialEq, Eq, Structural)]
pub struct Queen {}

/// Marker of the king's rule.
#[derive(Debug, Copy, Clone, PartialEq, Eq, Structural)]
pub struct King {}

/// A piece type's way of moving.
pub trait Movable {
    /// The shape of the moves that the piece type may trace.
    spec fn shape(from: Coord, to: Coord) -> bool;

    /// Decides whether the move from `from` to `to` has the piece type's shape.
    fn can_move(from: &Coord, to: &Coord) -> (ok: bool)
        ensures
            ok == Self::shape(*from, *to),
    ;
}

/// The enumeration of a piece type's targets. Every `Movable` has it, built
/// on its `can_move`, and no piece type writes one of its own.
pub trait Reach: Movable {
    /// Every square of the board that a move from `source` may end on, in
    /// row-major order. The source itself is among them whenever the shape
    /// admits a move that stays in place.
    fn available_target(source: &Coord) -> (jumps: Vec<Coord>)
        ensures
            jumps@ == targets(|to: Coord| Self::shape(*source, to)),
    ;
}

impl<M: Movable> Reach for M {
    fn available_target(source: &Coord) -> (jumps: Vec<Coord>) {
        let ghost reaches = |to: Coord| M::shape(*source, to);
        let mut jumps: Vec<Coord> = Vec::new();
        proof {
            reveal(Seq::filter);
            assert(board_squares().take(0) =~= Seq::<Coord>::empty());
        }
        for i in 0..SIZE * SIZE
            invariant
                reaches == (|to: Coord| M::shape(*source, to)),
                jumps@ == board_squares().take(i as int).filter(reaches),
        {
            let target = Coord::from(i);
            proof {
                reveal(Seq::filter);
                assert(board_squares().take(i + 1).drop_last() =~= board_squares().take(
                    i as int,
                ));
                assert(board_squares().take(i + 1).last() == target);
            }
            if M::can_move(source, &target) {
                jumps.push(target);
            }
        }
        proof {
            assert(board_squares().take(64) =~= board_squares());
        }
        jumps
    }
}

impl Movable for Pawn {
    /// Forward is the direction of growing row numbers, for either colour.
    /// A pawn steps one row forward, in its column or into a neighbouring
    /// one, but never out of row 0; from row 1 it may also go to row 3 in its
    /// column.
    open spec fn shape(from: Coord, to: Coord) -> bool {
        let one_forward = from.0 >= 1 && to.0 == from.0 + 1;
        let two_forward = from.0 == 1 && to.0 == 3;
        let same_column = from.1 == to.1;
        let next_column = delta(from.1, to.1) == 1;
        (same_column && (one_forward || two_forward)) || (next_column && one_forward)
    }

    fn can_move(from: &Coord, to: &Coord) -> (ok: bool) {
        let Coord(lin_orig, col_orig) = *from;
        let Coord(lin_dest, col_dest) = *to;

        let first_row = lin_orig >= 1;
        let walked_1 = lin_orig < usize::MAX && lin_dest == lin_orig + 1;
        let walked_2 = lin_orig == 1 && lin_dest == 3;
        let same_col = col_orig == col_dest;
        let one_col = distance(col_orig, col_dest) == 1;

        (first_row && walked_1 || walked_2 && same_col) && (same_col || one_col)
    }
}

impl Movable for Night {
    /// One step along one axis and two along the other.
    open spec fn shape(from: Coord, to: Coord) -> bool {
        let dx = delta(from.1, to.1);
        let dy = delta(from.0, to.0);
        dx + dy == 3 && dx * dy == 2
    }

    fn can_move(from: &Coord, to: &Coord) -> (ok: bool) {
        let Coord(lin_orig, col_orig) = *from;
        let Coord(lin_dest, col_dest) = *to;
        let delta_x = distance(col_orig, col_dest);
        let delta_y = distance(lin_orig, lin_dest);

        if delta_x > 3 || delta_y > 3 {
            return false;
        }
        assert(delta_x * delta_y <= 9) by (nonlinear_arith)
            requires
                delta_x <= 3,
                delta_y <= 3,
        ;
        delta_x + delta_y == 2 + 1 && delta_x * delta_y == 2 * 1
    }
}

impl Movable for Bishop {
    /// As many rows as columns; a move that stays in place is one of them.
    open spec fn shape(from: Coord, to: Coord) -> bool {
        delta(from.1, to.1) == delta(from.0, to.0)
    }

    fn can_move(from: &Coord, to: &Coord) -> (ok: bool) {
        let Coord(lin_orig, col_orig) = *from;
        let Coord(lin_dest, col_dest) = *to;
        let delta_x = distance(col_orig, col_dest);
        let delta_y = distance(lin_orig, lin_dest);

        delta_x == delta_y
    }
}

impl Movable for Rook {
    /// Within one row or within one column.
    open spec fn shape(from: Coord, to: Coord) -> bool {
        from.0 == to.0 || from.1 == to.1
    }

    fn can_move(from: &Coord, to: &Coord) -> (ok: bool) {
        let Coord(lin_orig, col_orig) = *from;
        let Coord(lin_dest, col_dest) = *to;
        lin_orig == lin_dest || col_orig == col_dest
    }
}

impl Movable for Queen {
    /// Whatever a bishop or a rook may do.
    open spec fn shape(from: Coord, to: Coord) -> bool {
        Bishop::shape(from, to) || Rook::shape(from, to)
    }

    fn can_move(from: &Coord, to: &Coord) -> (ok: bool) {
        Bishop::can_move(from, to) || Rook::can_move(from, to)
    }
}

impl Movable for King {
    /// At most one row and at most one column.
    open spec fn shape(from: Coord, to: Coord) -> bool {
        delta(from.1, to.1) <= 1 && delta(from.0, to.0) <= 1
    }

    fn can_move(from: &Coord, to: &Coord) -> (ok: bool) {
        let Coord(lin_orig, col_orig) = *from;
        let Coord(lin_dest, col_dest) = *to;
        let delta_x = distance(col_orig, col_dest);
        let delta_y = distance(lin_orig, lin_dest);

        delta_x <= 1 && delta_y <= 1
    }
}

/// A rook reaches every square of its row and every square of its column.
pub proof fn lemma_rook_lines(r: usize, c: usize, r2: usize, c2: usize)
    ensures
        Rook::shape(Coord(r, c), Coord(r, c2)),
        Rook::shape(Coord(r, c), Coord(r2, c)),
        r != r2 && c != c2 ==> !Rook::shape(Coord(r, c), Coord(r2, c2)),
{
}

/// The knight's shape is exactly the eight jumps of one and two squares.
pub proof fn lemma_knight_jumps(from: Coord, to: Coord)
    ensures
        Night::shape(from, to) <==> (delta(from.1, to.1) == 1 && delta(from.0, to.0) == 2) || (
        delta(from.1, to.1) == 2 && delta(from.0, to.0) == 1),
{
    let dx = delta(from.1, to.1);
    let dy = delta(from.0, to.0);
    if dx + dy == 3 {
        assert(dx == 0 || dx == 1 || dx == 2 || dx == 3);
    }
}

/// Staying in place has the shape of a bishop's, a rook's, a queen's and a
/// king's move, and not that of a pawn's or a knight's.
pub proof fn lemma_staying_in_place(at: Coord)
    ensures
        Bishop::shape(at, at),
        Rook::shape(at, at),
        Queen::shape(at, at),
        King::shape(at, at),
        !Pawn::shape(at, at),
        !Night::shape(at, at),
{
}

/// The targets are the squares of the board that the predicate accepts, each
/// of them once.
pub proof fn lemma_targets_are_the_accepted_squares(reaches: spec_fn(Coord) -> bool, to: Coord)
    ensures
        targets(reaches).contains(to) <==> to.on_board() && reaches(to),
        targets(reaches).no_duplicates(),
        targets(reaches).len() <= 64,
{
    let all = board_squares();
    let kept = targets(reaches);
    all.lemma_filter_len(reaches);
    if kept.contains(to) {
        all.lemma_filter_contains_rev(reaches, to);
        let j = choose|j: int| 0 <= j < kept.len() && kept[j] == to;
        all.lemma_filter_pred(reaches, j);
        let i = choose|i: int| 0 <= i < all.len() && all[i] == to;
        assert(to == Coord::of_index(i));
    }
    if to.on_board() && reaches(to) {
        assert(all[to.index()] == to);
        all.lemma_filter_contains(reaches, to.index());
    }
    assert(all.no_duplicates());
    lemma_filter_keeps_distinct(all, reaches);
}

proof fn lemma_filter_keeps_distinct(s: Seq<Coord>, keep: spec_fn(Coord) -> bool)
    requires
        s.no_duplicates(),
    ensures
        s.filter(keep).no_duplicates(),
    decreases s.len(),
{
    reveal(Seq::filter);
    if s.len() > 0 {
        let front = s.drop_last();
        let kept = front.filter(keep);
        lemma_filter_keeps_distinct(front, keep);
        if keep(s.last()) {
            if kept.contains(s.last()) {
                front.lemma_filter_contains_rev(keep, s.last());
                let j = choose|j: int| 0 <= j < front.len() && front[j] == s.last();
                assert(s[j] == s[s.len() - 1]);
            }
            assert(kept.push(s.last()).no_duplicates());
        }
    }
}

} // verus!
