use chess_core::board::Board;
use chess_core::moves::{King, Night, Rook};
use chess_core::piece::{Piece, PieceColor, PieceKind, SquareKind};
use chess_core::Coord;

fn white_rook() -> Piece {
    Piece::new(PieceKind::KindRook(Rook {}), PieceColor::White)
}

fn black_king() -> Piece {
    Piece::new(PieceKind::KindKing(King {}), PieceColor::Black)
}

#[test]
fn a_new_board_is_empty() {
    let mut board = Board::new();
    for i in 0..64usize {
        assert_eq!(*board.get(Coord::from(i)), SquareKind::Empty);
    }
}

#[test]
fn a_coordinate_without_entry_reads_as_empty() {
    let mut board = Board::new();
    assert_eq!(*board.get(Coord(8, 0)), SquareKind::Empty);
    assert_eq!(*board.get(Coord(100, 100)), SquareKind::Empty);
}

#[test]
fn the_first_placement_stays() {
    let mut board = Board::new();
    let c = Coord(8, 3);
    board.put(c, SquareKind::SquarePiece(white_rook()));
    board.put(c, SquareKind::SquarePiece(black_king()));
    assert_eq!(*board.get(c), SquareKind::SquarePiece(white_rook()));
}

#[test]
fn a_seeded_square_keeps_its_empty_content() {
    let mut board = Board::new();
    let c = Coord(0, 0);
    board.put(c, SquareKind::SquarePiece(white_rook()));
    assert_eq!(*board.get(c), SquareKind::Empty);
    board.put(c, SquareKind::SquarePiece(black_king()));
    assert_eq!(*board.get(c), SquareKind::Empty);
}

#[test]
fn put_returns_the_board_as_it_is_after_the_call() {
    let mut board = Board::new();
    let c = Coord(9, 9);
    let mut copy = board.put(c, SquareKind::SquarePiece(white_rook()));
    assert_eq!(*copy.get(c), SquareKind::SquarePiece(white_rook()));
    assert_eq!(*board.get(c), SquareKind::SquarePiece(white_rook()));
    // the copy is a board of its own
    copy.put(Coord(10, 10), SquareKind::SquarePiece(black_king()));
    assert_eq!(*copy.get(Coord(10, 10)), SquareKind::SquarePiece(black_king()));
    assert_eq!(*board.get(Coord(10, 10)), SquareKind::Empty);
}

#[test]
fn put_touches_no_other_square() {
    let mut board = Board::new();
    board.put(Coord(8, 0), SquareKind::SquarePiece(white_rook()));
    board.put(Coord(0, 8), SquareKind::SquarePiece(black_king()));
    assert_eq!(*board.get(Coord(8, 0)), SquareKind::SquarePiece(white_rook()));
    assert_eq!(*board.get(Coord(0, 8)), SquareKind::SquarePiece(black_king()));
    assert_eq!(*board.get(Coord(8, 8)), SquareKind::Empty);
    for i in 0..64usize {
        assert_eq!(*board.get(Coord::from(i)), SquareKind::Empty);
    }
}

#[test]
fn coordinates_do_not_collide() {
    let mut board = Board::new();
    board.put(Coord(8, 9), SquareKind::SquarePiece(white_rook()));
    assert_eq!(*board.get(Coord(9, 8)), SquareKind::Empty);
    board.put(Coord(9, 8), SquareKind::SquarePiece(black_king()));
    assert_eq!(*board.get(Coord(8, 9)), SquareKind::SquarePiece(white_rook()));
    assert_eq!(*board.get(Coord(9, 8)), SquareKind::SquarePiece(black_king()));
    let far = Coord(usize::MAX, usize::MAX);
    board.put(far, SquareKind::SquarePiece(white_rook()));
    assert_eq!(*board.get(far), SquareKind::SquarePiece(white_rook()));
    assert_eq!(*board.get(Coord(usize::MAX, 0)), SquareKind::Empty);
    assert_eq!(*board.get(Coord(0, usize::MAX)), SquareKind::Empty);
}

#[test]
fn empty_seeds_only_what_is_missing() {
    let mut board = Board::new();
    board.put(Coord(12, 1), SquareKind::SquarePiece(white_rook()));
    let mut copy = board.empty();
    assert_eq!(*board.get(Coord(12, 1)), SquareKind::SquarePiece(white_rook()));
    assert_eq!(*copy.get(Coord(12, 1)), SquareKind::SquarePiece(white_rook()));
    for i in 0..64usize {
        assert_eq!(*board.get(Coord::from(i)), SquareKind::Empty);
        assert_eq!(*copy.get(Coord::from(i)), SquareKind::Empty);
    }
}

#[test]
fn nothing_moves_from_an_empty_square() {
    let mut board = Board::new();
    assert!(!board.mover(Coord(0, 0), Coord(0, 1)));
    assert!(!board.mover(Coord(3, 3), Coord(3, 3)));
    assert!(!board.mover(Coord(20, 20), Coord(20, 21)));
}

#[test]
fn a_piece_moves_by_its_own_rule() {
    let mut board = Board::new();
    let from = Coord(8, 0);
    board.put(from, SquareKind::SquarePiece(white_rook()));
    assert!(board.mover(from, Coord(8, 5)));
    assert!(board.mover(from, Coord(0, 0)));
    assert!(!board.mover(from, Coord(9, 1)));

    let knight = Piece::new(PieceKind::KindNight(Night {}), PieceColor::Black);
    let at = Coord(9, 4);
    board.put(at, SquareKind::SquarePiece(knight));
    assert!(board.mover(at, Coord(7, 3)));
    assert!(board.mover(at, Coord(8, 2)));
    assert!(!board.mover(at, Coord(8, 4)));
}

#[test]
fn the_destination_plays_no_part() {
    let mut board = Board::new();
    let from = Coord(8, 0);
    let friend = Coord(8, 4);
    let foe = Coord(8, 6);
    board.put(from, SquareKind::SquarePiece(white_rook()));
    board.put(friend, SquareKind::SquarePiece(white_rook()));
    board.put(foe, SquareKind::SquarePiece(black_king()));
    assert!(board.mover(from, friend));
    assert!(board.mover(from, foe));
    assert!(board.mover(from, Coord(8, 7)));
}

#[test]
fn lookups_leave_the_board_as_it_is() {
    let mut board = Board::new();
    board.put(Coord(8, 0), SquareKind::SquarePiece(white_rook()));
    let before = board.mover(Coord(8, 0), Coord(8, 1));
    let _ = board.get(Coord(30, 30));
    let _ = board.mover(Coord(30, 30), Coord(8, 0));
    board.put(Coord(30, 30), SquareKind::SquarePiece(black_king()));
    assert_eq!(*board.get(Coord(30, 30)), SquareKind::SquarePiece(black_king()));
    assert_eq!(board.mover(Coord(8, 0), Coord(8, 1)), before);
}

#[test]
fn a_clone_reads_as_the_board_it_was_made_of() {
    let mut board = Board::new();
    board.put(Coord(8, 0), SquareKind::SquarePiece(white_rook()));
    let mut copy = board.clone();
    assert_eq!(*copy.get(Coord(8, 0)), SquareKind::SquarePiece(white_rook()));
    assert_eq!(*copy.get(Coord(0, 0)), SquareKind::Empty);
}
