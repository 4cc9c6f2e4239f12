use chess_core::coord::{Coord, SIZE};

#[test]
fn it_works() {
    assert!(Coord::from(0) == Coord(0, 0));
    assert!(Coord::from(1) == Coord(0, 1));
    assert!(Coord::from(2) == Coord(0, 2));
    assert!(Coord::from(3) == Coord(0, 3));
    assert!(Coord::from(4) == Coord(0, 4));
    assert!(Coord::from(5) == Coord(0, 5));
    assert!(Coord::from(6) == Coord(0, 6));
    assert!(Coord::from(7) == Coord(0, 7));
    assert!(Coord::from(8) == Coord(1, 0));
    assert!(Coord::from(9) == Coord(1, 1));
    assert!(Coord::from(10) == Coord(1, 2));
    assert!(Coord::from(11) == Coord(1, 3));
    assert!(Coord::from(12) == Coord(1, 4));
    assert!(Coord::from(13) == Coord(1, 5));
    assert!(Coord::from(14) == Coord(1, 6));
}

#[test]
fn corners_of_the_board() {
    assert_eq!(Coord::from(0), Coord(0, 0));
    assert_eq!(Coord::from(7), Coord(0, 7));
    assert_eq!(Coord::from(8), Coord(1, 0));
    assert_eq!(Coord::from(63), Coord(7, 7));
}

#[test]
fn every_index_round_trips() {
    for i in 0..64usize {
        let Coord(row, column) = Coord::from(i);
        assert!(row < 8 && column < 8);
        assert_eq!(row * 8 + column, i);
    }
}

#[test]
fn index_beyond_the_board_is_not_checked() {
    assert_eq!(Coord::from(64), Coord(8, 0));
    assert_eq!(Coord::from(1000), Coord(125, 0));
    assert_eq!(Coord::from(usize::MAX), Coord(usize::MAX / 8, 7));
}

#[test]
fn the_board_has_eight_rows() {
    assert_eq!(SIZE, 8);
}

#[test]
fn coordinates_compare_by_value() {
    let a = Coord(3, 4);
    let b = a;
    assert_eq!(a, b);
    assert_ne!(Coord(3, 4), Coord(4, 3));
    let mut seen = std::collections::HashSet::new();
    seen.insert(Coord(1, 2));
    assert!(seen.contains(&Coord(1, 2)));
    assert!(!seen.contains(&Coord(2, 1)));
}
