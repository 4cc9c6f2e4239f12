//! The board: what stands on each square.

use std::collections::HashMap;
use vstd::prelude::*;
use vstd::std_specs::iter::IteratorSpec;
use vstd::string::StringExecFns;
use crate::coord::{lemma_coord_round_trip, Coord, SIZE};
use crate::piece::SquareKind;
use crate::text::{byte_len, byte_len_mod_8, lemma_byte_len_of_parts};

verus! {

/// The number under which the board files a coordinate: the row in the upper
/// half of the key, the column in the lower half.
spec fn key_of(coord: Coord) -> u128 {
    (coord.0 * 0x1_0000_0000_0000_0000 + coord.1) as u128
}

/// Two coordinates with one key are one coordinate.
proof fn lemma_key_is_injective(a: Coord, b: Coord)
    requires
        key_of(a) == key_of(b),
    ensures
        a == b,
{
}

/// The coordinate that a key is the number of, if it is the number of any.
spec fn coord_of(key: u128) -> Coord {
    Coord((key / 0x1_0000_0000_0000_0000) as usize, (key % 0x1_0000_0000_0000_0000) as usize)
}

/// A coordinate is found again from its key.
proof fn lemma_key_round_trip(coord: Coord)
    ensures
        coord_of(key_of(coord)) == coord,
{
}

fn coord(key: u128) -> (c: Coord)
    requires
        key == key_of(coord_of(key)),
    ensures
        c == coord_of(key),
{
    let row: u128 = key / 0x1_0000_0000_0000_0000;
    let column: u128 = key % 0x1_0000_0000_0000_0000;
    Coord(row as usize, column as usize)
}

fn key(coord: Coord) -> (k: u128)
    ensures
        k == key_of(coord),
{
    (coord.0 as u128) * 0x1_0000_0000_0000_0000 + (coord.1 as u128)
}

/// The board that holds nothing: each of the 64 squares is present and empty.
pub open spec fn cleared() -> Map<Coord, SquareKind> {
    Map::new(|c: Coord| c.on_board(), |c: Coord| SquareKind::Empty)
}

/// The squares `m` with every missing square of the board added as empty.
pub open spec fn seeded(m: Map<Coord, SquareKind>) -> Map<Coord, SquareKind> {
    Map::new(
        |c: Coord| m.contains_key(c) || c.on_board(),
        |c: Coord|
            if m.contains_key(c) {
                m[c]
            } else {
                SquareKind::Empty
            },
    )
}

/// The squares `m` after an attempt to place `square` at `coord`: a coordinate
/// that has an entry keeps it, whatever it holds.
pub open spec fn placed(m: Map<Coord, SquareKind>, coord: Coord, square: SquareKind) -> Map<
    Coord,
    SquareKind,
> {
    if m.contains_key(coord) {
        m
    } else {
        m.insert(coord, square)
    }
}

/// What the squares `m` show at `coord`: a coordinate without an entry reads
/// as empty.
pub open spec fn content(m: Map<Coord, SquareKind>, coord: Coord) -> SquareKind {
    if m.contains_key(coord) {
        m[coord]
    } else {
        SquareKind::Empty
    }
}

/// Whether the piece at `from`, if there is one, may trace the move to `to`.
/// What stands at `to` plays no part.
pub open spec fn feasible(m: Map<Coord, SquareKind>, from: Coord, to: Coord) -> bool {
    match content(m, from) {
        SquareKind::Empty => false,
        SquareKind::SquarePiece(piece) => piece.shape(from, to),
    }
}

/// On the board that holds nothing, every square of the board has an entry
/// and reads as empty.
pub proof fn lemma_cleared_reads_empty(coord: Coord)
    requires
        coord.on_board(),
    ensures
        cleared().contains_key(coord),
        content(cleared(), coord) == SquareKind::Empty,
{
}

/// Placing never overwrites: a coordinate reads after the attempt as it read
/// before whenever it had an entry, and shows the new content only when it had
/// none. No other coordinate changes.
pub proof fn lemma_placing_never_overwrites(
    m: Map<Coord, SquareKind>,
    coord: Coord,
    square: SquareKind,
    other: Coord,
)
    ensures
        m.contains_key(coord) ==> placed(m, coord, square) == m,
        !m.contains_key(coord) ==> content(placed(m, coord, square), coord) == square,
        placed(m, coord, square).contains_key(coord),
        other != coord ==> content(placed(m, coord, square), other) == content(m, other),
        other != coord ==> (placed(m, coord, square).contains_key(other) <==> m.contains_key(
            other,
        )),
{
}

/// Of two placements at a coordinate that had no entry, the first one stays.
pub proof fn lemma_first_placement_stays(
    m: Map<Coord, SquareKind>,
    coord: Coord,
    first: SquareKind,
    second: SquareKind,
)
    requires
        !m.contains_key(coord),
    ensures
        placed(placed(m, coord, first), coord, second) == placed(m, coord, first),
        content(placed(placed(m, coord, first), coord, second), coord) == first,
{
}

/// On the board that holds nothing every square of the board has its entry
/// already, so that placing at one of them changes nothing.
pub proof fn lemma_placing_on_cleared_board(coord: Coord, square: SquareKind)
    requires
        coord.on_board(),
    ensures
        placed(cleared(), coord, square) == cleared(),
{
}

/// Seeding adds entries and changes none; seeding twice is seeding once.
pub proof fn lemma_seeding(m: Map<Coord, SquareKind>, coord: Coord)
    ensures
        seeded(Map::empty()) == cleared(),
        seeded(seeded(m)) == seeded(m),
        content(seeded(m), coord) == content(m, coord),
        seeded(m).contains_key(coord) <==> m.contains_key(coord) || coord.on_board(),
{
    assert(seeded(Map::empty()) =~= cleared());
    assert(seeded(seeded(m)) =~= seeded(m));
}

/// The squares written out one after the other, each as its sign, with a
/// line break behind every sign that brings the text to a multiple of eight
/// bytes.
pub open spec fn rendering(squares: Seq<SquareKind>) -> Seq<char>
    decreases squares.len(),
{
    if squares.len() == 0 {
        Seq::empty()
    } else {
        let text = rendering(squares.drop_last()) + squares.last().glyph();
        if byte_len(text) % 8 == 0 {
            text + "\n"@
        } else {
            text
        }
    }
}

proof fn lemma_line_break_takes_one_byte()
    ensures
        byte_len("\n"@) == 1,
{
    reveal_strlit("\n");
    reveal_with_fuel(byte_len, 2);
    assert("\n"@.drop_last() =~= Seq::<char>::empty());
}

proof fn lemma_eights_of_a_sum(a: nat, b: nat)
    ensures
        ((a % 8) + (b % 8)) % 8 == (a + b) % 8,
{
}

/// Writes out the squares in the order given.
pub fn render(squares: &Vec<SquareKind>) -> (text: String)
    ensures
        text@ == rendering(squares@),
{
    let mut result = String::new();
    let mut left: usize = 0;
    assert(squares@.take(0) =~= Seq::<SquareKind>::empty());
    for i in 0..squares.len()
        invariant
            result@ == rendering(squares@.take(i as int)),
            left == byte_len(result@) % 8,
    {
        let ghost before = result@;
        let ghost upto = squares@.take(i + 1);
        let sign = squares[i].to_string();
        let width = byte_len_mod_8(sign.as_str());
        result.append(sign.as_str());
        left = (left + width) % 8;
        proof {
            assert(upto.drop_last() =~= squares@.take(i as int));
            assert(upto.last() == squares[i as int]);
            assert(result@ == rendering(upto.drop_last()) + upto.last().glyph());
            lemma_byte_len_of_parts(before, sign@);
            lemma_eights_of_a_sum(byte_len(before), byte_len(sign@));
            assert(left == byte_len(result@) % 8);
        }
        if left == 0 {
            proof {
                lemma_line_break_takes_one_byte();
                lemma_byte_len_of_parts(result@, "\n"@);
            }
            result.append("\n");
            left = 1;
        }
    }
    assert(squares@.take(squares.len() as int) =~= squares@);
    result
}

/// The contents of the entries, in the order of the entries.
pub open spec fn contents(walk: Seq<(Coord, SquareKind)>) -> Seq<SquareKind> {
    walk.map_values(|e: (Coord, SquareKind)| e.1)
}

/// A board. Its view maps each coordinate that has an entry to what stands
/// there.
pub struct Board {
    squares: HashMap<u128, SquareKind>,
}

impl View for Board {
    type V = Map<Coord, SquareKind>;

    closed spec fn view(&self) -> Map<Coord, SquareKind> {
        Map::new(
            |c: Coord| self.squares@.contains_key(key_of(c)),
            |c: Coord| self.squares@[key_of(c)],
        )
    }
}

impl Clone for Board {
    fn clone(&self) -> (copy: Board)
        ensures
            copy@ == self@,
    {
        proof {
            use_type_invariant(self);
        }
        let copy = Board { squares: self.squares.clone() };
        assert(copy@ =~= self@);
        copy
    }
}

impl Board {
    /// Every key in use is the key of a coordinate.
    #[verifier::type_invariant]
    spec fn keys_are_coordinates(&self) -> bool {
        forall|k: u128| #[trigger] self.squares@.contains_key(k) ==> k == key_of(coord_of(k))
    }

    /// Takes the squares out of the board, which is left without any.
    fn take_squares(&mut self) -> (squares: HashMap<u128, SquareKind>)
        ensures
            squares@ == old(self).squares@,
            forall|k: u128| #[trigger] squares@.contains_key(k) ==> k == key_of(coord_of(k)),
    {
        proof {
            use_type_invariant(&*self);
        }
        let mut taken = Board { squares: HashMap::new() };
        core::mem::swap(self, &mut taken);
        taken.squares
    }

    /// Adds every square of the board that has no entry yet, as empty, and
    /// returns a copy of the board.
    pub fn empty(&mut self) -> (copy: Board)
        ensures
            final(self)@ == seeded(old(self)@),
            copy@ == final(self)@,
    {
        let mut squares = self.take_squares();
        let ghost before = squares@;
        for i in 0..SIZE * SIZE
            invariant
                forall|k: u128| #[trigger]
                    squares@.contains_key(k) <==> before.contains_key(k) || exists|j: int|
                        0 <= j < i && k == #[trigger] key_of(Coord::of_index(j)),
                forall|k: u128| #[trigger]
                    squares@.contains_key(k) ==> squares@[k] == if before.contains_key(k) {
                        before[k]
                    } else {
                        SquareKind::Empty
                    },
        {
            let target = Coord::from(i);
            let k = key(target);
            let ghost prior = squares@;
            squares.entry(k).or_insert(SquareKind::Empty);
            proof {
                assert(squares@ == placed_key(prior, k));
                assert(k == key_of(Coord::of_index(i as int)));
            }
        }
        proof {
            assert forall|k: u128| #[trigger] squares@.contains_key(k) implies k == key_of(
                coord_of(k),
            ) by {
                if !before.contains_key(k) {
                    let j = choose|j: int|
                        0 <= j < 64 && k == #[trigger] key_of(Coord::of_index(j));
                    lemma_key_round_trip(Coord::of_index(j));
                }
            }
        }
        *self = Board { squares };
        proof {
            assert forall|c: Coord| #[trigger]
                self@.contains_key(c) == seeded(old(self)@).contains_key(c) by {
                if c.on_board() {
                    lemma_coord_round_trip(c);
                    assert(key_of(c) == key_of(Coord::of_index(c.index())));
                }
                if self.squares@.contains_key(key_of(c)) && !before.contains_key(key_of(c)) {
                    let j = choose|j: int|
                        0 <= j < 64 && key_of(c) == #[trigger] key_of(Coord::of_index(j));
                    lemma_key_is_injective(c, Coord::of_index(j));
                }
            }
            assert(self@ =~= seeded(old(self)@));
        }
        self.clone()
    }

    /// A board whose 64 squares are all present and empty.
    pub fn new() -> (board: Board)
        ensures
            board@ == cleared(),
    {
        let mut result = Board { squares: HashMap::new() };
        assert(result@ =~= Map::<Coord, SquareKind>::empty());
        let board = Board::empty(&mut result);
        assert(board@ =~= cleared());
        board
    }

    /// Places `piece` at `coord` if that coordinate has no entry yet, and
    /// returns a copy of the board. A coordinate that has an entry, be it an
    /// empty square, keeps what it has: nothing is ever overwritten.
    pub fn put(&mut self, coord: Coord, piece: SquareKind) -> (copy: Board)
        ensures
            final(self)@ == placed(old(self)@, coord, piece),
            copy@ == final(self)@,
    {
        let k = key(coord);
        let mut squares = self.take_squares();
        squares.entry(k).or_insert(piece);
        proof {
            lemma_key_round_trip(coord);
        }
        *self = Board { squares };
        proof {
            assert forall|c: Coord| key_of(c) == k implies c == coord by {
                lemma_key_is_injective(c, coord);
            }
            assert(self@ =~= placed(old(self)@, coord, piece));
        }
        self.clone()
    }

    /// What stands at `coord`; a coordinate without an entry reads as empty.
    pub fn get(&mut self, coord: Coord) -> (square: &SquareKind)
        ensures
            *square == content(old(self)@, coord),
            final(self)@ == old(self)@,
    {
        match self.squares.get(&key(coord)) {
            Some(square) => square,
            None => &SquareKind::Empty,
        }
    }

    /// The entries of the board, each once, in no order that can be told
    /// beforehand.
    pub fn entries(&self) -> (walk: Vec<(Coord, SquareKind)>)
        ensures
            walk@.no_duplicates(),
            walk@.to_set() == self@.kv_pairs(),
    {
        proof {
            use_type_invariant(self);
        }
        let mut walk: Vec<(Coord, SquareKind)> = Vec::new();
        let ghost all = self.squares.iter().remaining();
        proof {
            assert forall|j: int| 0 <= j < all.len() implies *all[j].0 == key_of(
                coord_of(*all[j].0),
            ) by {
                assert(self.squares@.contains_key(*all[j].0));
            }
        }
        for pair in it: self.squares.iter()
            invariant
                it.seq() == all,
                walk@.len() == it.index(),
                forall|j: int| 0 <= j < all.len() ==> *all[j].0 == key_of(coord_of(*all[j].0)),
                forall|j: int|
                    0 <= j < walk@.len() ==> walk@[j] == (coord_of(*all[j].0), *all[j].1),
        {
            let (k, square) = pair;
            walk.push((coord(*k), *square));
        }
        proof {
            assert forall|a: int, b: int| 0 <= a < b < walk@.len() implies walk@[a]
                != walk@[b] by {
                assert(self.squares@.contains_key(*all[a].0));
                assert(self.squares@.contains_key(*all[b].0));
                assert(all[a] != all[b]);
            }
            assert forall|e: (Coord, SquareKind)| walk@.to_set().contains(e)
                == self@.kv_pairs().contains(e) by {
                if walk@.to_set().contains(e) {
                    let j = choose|j: int| 0 <= j < walk@.len() && walk@[j] == e;
                    assert(self.squares@.contains_key(*all[j].0));
                }
                if self@.kv_pairs().contains(e) {
                    let k = key_of(e.0);
                    lemma_key_round_trip(e.0);
                    assert(all.contains((&k, &self.squares@[k])));
                    let j = choose|j: int| 0 <= j < all.len() && all[j] == (&k, &self.squares@[k]);
                    assert(walk@[j] == e);
                }
            }
            assert(walk@.to_set() =~= self@.kv_pairs());
        }
        walk
    }

    /// Writes out the board: its entries in the order in which `entries`
    /// hands them out, which may differ from one call to the next.
    pub fn to_string(&self) -> (text: String)
        ensures
            exists|walk: Seq<(Coord, SquareKind)>|
                walk.no_duplicates() && walk.to_set() == self@.kv_pairs() && text@ == rendering(
                    #[trigger] contents(walk),
                ),
    {
        let walk = self.entries();
        let mut squares: Vec<SquareKind> = Vec::new();
        for i in 0..walk.len()
            invariant
                squares@ == contents(walk@.take(i as int)),
        {
            squares.push(walk[i].1);
            assert(squares@ =~= contents(walk@.take(i + 1)));
        }
        assert(walk@.take(walk.len() as int) =~= walk@);
        render(&squares)
    }

    /// Decides whether the piece at `from` may trace the move to `to`: never
    /// when nothing stands at `from`, else as the piece's own rule says.
    pub fn mover(&mut self, from: Coord, to: Coord) -> (ok: bool)
        ensures
            ok == feasible(old(self)@, from, to),
            final(self)@ == old(self)@,
    {
        let source = self.squares.get(&key(from));
        match source {
            None => false,
            Some(piece) => {
                match piece {
                    SquareKind::Empty => false,
                    SquareKind::SquarePiece(piece) => piece.can_move(&from, &to),
                }
            },
        }
    }
}

spec fn placed_key(m: Map<u128, SquareKind>, k: u128) -> Map<u128, SquareKind> {
    if m.contains_key(k) {
        m
    } else {
        m.insert(k, SquareKind::Empty)
    }
}

} // verus!
