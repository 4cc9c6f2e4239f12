use chess_core::fen::{expand_layout, Fen, ParseError, BLANK};
use chess_core::text::{chars_of, parse_u32, split_whitespace};
use std::str::FromStr;

const START: &str = "rnbqkbnr/pppppppp/8/8/8/8/PPPPPPPP/RNBQKBNR w KQkq - 0 1";

fn fields(parts: &[&str]) -> Vec<String> {
    parts.iter().map(|p| p.to_string()).collect()
}

#[test]
fn the_starting_position_decodes() {
    let fen = Fen::from_str(START).unwrap();
    assert_eq!(fen.casas.len(), 64);
    assert_eq!(fen.active_color, 'w');
    assert_eq!(fen.castling, "KQkq");
    assert_eq!(fen.en_passant, "-");
    assert_eq!(fen.halfmove_clock, 0);
    assert_eq!(fen.fullmove_number, 1);
    let squares: String = fen.casas.iter().collect();
    assert_eq!(
        squares,
        "rnbqkbnrpppppppp                                PPPPPPPPRNBQKBNR"
    );
}

#[test]
fn a_record_parses_from_a_str() {
    let fen: Fen = START.parse().unwrap();
    assert_eq!(fen, Fen::from_str(START).unwrap());
    assert_eq!(fen.casas[0], 'r');
    assert_eq!(fen.casas[16], BLANK);
    assert_eq!(fen.casas[63], 'R');
}

#[test]
fn a_position_in_the_middle_of_a_game_decodes() {
    let fen = Fen::from_str("r1bqkbnr/pppp1ppp/2n5/4p3/4P3/5N2/PPPP1PPP/RNBQKB1R b Kq e3 12 34")
        .unwrap();
    assert_eq!(fen.active_color, 'b');
    assert_eq!(fen.castling, "Kq");
    assert_eq!(fen.en_passant, "e3");
    assert_eq!(fen.halfmove_clock, 12);
    assert_eq!(fen.fullmove_number, 34);
    let squares: String = fen.casas.iter().collect();
    assert_eq!(
        squares,
        "r bqkbnrpppp ppp  n         p       P        N  PPPP PPPRNBQKB R"
    );
}

#[test]
fn five_fields_are_refused() {
    let r = Fen::from_str("rnbqkbnr/pppppppp/8/8/8/8/PPPPPPPP/RNBQKBNR w KQkq - 0");
    assert_eq!(r, Err(ParseError::WrongFieldCount));
}

#[test]
fn seven_fields_are_refused() {
    let r = Fen::from_str("rnbqkbnr/pppppppp/8/8/8/8/PPPPPPPP/RNBQKBNR w KQkq - 0 1 x");
    assert_eq!(r, Err(ParseError::WrongFieldCount));
    assert_eq!(Fen::from_str(""), Err(ParseError::WrongFieldCount));
    assert_eq!(Fen::from_str("   \n\t "), Err(ParseError::WrongFieldCount));
}

#[test]
fn a_board_of_63_squares_is_refused() {
    let r = Fen::from_str("rnbqkbnr/pppppppp/8/8/8/8/PPPPPPPP/RNBQKBN w KQkq - 0 1");
    assert_eq!(r, Err(ParseError::BoardSizeMismatch));
    let r = Fen::from_str("rnbqkbnr/pppppppp/8/8/8/7/PPPPPPPP/RNBQKBNR w KQkq - 0 1");
    assert_eq!(r, Err(ParseError::BoardSizeMismatch));
}

#[test]
fn a_board_of_65_squares_is_refused() {
    let r = Fen::from_str("rnbqkbnr/pppppppp/8/8/8/8/PPPPPPPP/RNBQKBNRR w KQkq - 0 1");
    assert_eq!(r, Err(ParseError::BoardSizeMismatch));
    let r = Fen::from_str("rnbqkbnr/pppppppp/9/8/8/8/PPPPPPPP/RNBQKBNR w KQkq - 0 1");
    assert_eq!(r, Err(ParseError::BoardSizeMismatch));
}

#[test]
fn only_the_number_of_squares_is_checked() {
    // the ranks need not be eight, nor of eight squares each
    let fen = Fen::from_str("88888888 w - - 0 1").unwrap();
    assert!(fen.casas.iter().all(|c| *c == BLANK));
    let fen = Fen::from_str("rnbqkbnrpppppppp/8888/PPPPPPPPRNBQKBNR w - - 0 1").unwrap();
    assert_eq!(fen.casas.len(), 64);
    let fen = Fen::from_str("////8/8/8/8/8/8/8/7x//// w - - 0 1").unwrap();
    assert_eq!(fen.casas[63], 'x');
    assert_eq!(fen.casas[62], BLANK);
}

#[test]
fn castling_and_en_passant_are_kept_as_they_stand() {
    let fen = Fen::from_str("8/8/8/8/8/8/8/8 w any?thing z9z 3 4").unwrap();
    assert_eq!(fen.castling, "any?thing");
    assert_eq!(fen.en_passant, "z9z");
}

#[test]
fn the_side_to_move_is_the_first_character_of_its_field() {
    let fen = Fen::from_str("8/8/8/8/8/8/8/8 black - - 0 1").unwrap();
    assert_eq!(fen.active_color, 'b');
    let fen = Fen::from_str("8/8/8/8/8/8/8/8 \u{e9}t\u{e9} - - 0 1").unwrap();
    assert_eq!(fen.active_color, '\u{e9}');
}

#[test]
fn a_halfmove_clock_that_is_no_number_is_refused() {
    let r = Fen::from_str("8/8/8/8/8/8/8/8 w - - x 1");
    assert_eq!(r, Err(ParseError::InvalidHalfmoveClock));
    let r = Fen::from_str("8/8/8/8/8/8/8/8 w - - -1 1");
    assert_eq!(r, Err(ParseError::InvalidHalfmoveClock));
    let r = Fen::from_str("8/8/8/8/8/8/8/8 w - - 4294967296 1");
    assert_eq!(r, Err(ParseError::InvalidHalfmoveClock));
}

#[test]
fn a_fullmove_number_that_is_no_number_is_refused() {
    let r = Fen::from_str("8/8/8/8/8/8/8/8 w - - 0 one");
    assert_eq!(r, Err(ParseError::InvalidFullmoveNumber));
    let r = Fen::from_str("8/8/8/8/8/8/8/8 w - - 0 1.5");
    assert_eq!(r, Err(ParseError::InvalidFullmoveNumber));
}

#[test]
fn a_missing_side_to_move_is_refused() {
    let r = Fen::from_fields(&fields(&["8/8/8/8/8/8/8/8", "", "-", "-", "0", "1"]));
    assert_eq!(r, Err(ParseError::MissingActiveColor));
}

#[test]
fn the_checks_come_in_a_fixed_order() {
    // the side to move before the counters
    let r = Fen::from_fields(&fields(&["8", "", "-", "-", "x", "y"]));
    assert_eq!(r, Err(ParseError::MissingActiveColor));
    // the halfmove clock before the fullmove number
    let r = Fen::from_str("8 w - - x y");
    assert_eq!(r, Err(ParseError::InvalidHalfmoveClock));
    // the counters before the board
    let r = Fen::from_str("8 w - - 0 y");
    assert_eq!(r, Err(ParseError::InvalidFullmoveNumber));
    let r = Fen::from_str("8 w - - 0 1");
    assert_eq!(r, Err(ParseError::BoardSizeMismatch));
    // the number of fields before everything
    let r = Fen::from_str("8 w - - x");
    assert_eq!(r, Err(ParseError::WrongFieldCount));
}

#[test]
fn fields_decode_as_the_text_does() {
    let from_text = Fen::from_str(START).unwrap();
    let from_fields = Fen::from_fields(&fields(&[
        "rnbqkbnr/pppppppp/8/8/8/8/PPPPPPPP/RNBQKBNR",
        "w",
        "KQkq",
        "-",
        "0",
        "1",
    ]))
    .unwrap();
    assert_eq!(from_text, from_fields);
}

#[test]
fn any_white_space_parts_the_fields() {
    let fen = Fen::from_str("  8/8/8/8/8/8/8/8\tw\n-  \r\n -   7 \u{a0} 9\u{3000}").unwrap();
    assert_eq!(fen.active_color, 'w');
    assert_eq!(fen.halfmove_clock, 7);
    assert_eq!(fen.fullmove_number, 9);
}

#[test]
fn the_counters_take_the_whole_range() {
    let fen = Fen::from_str("8/8/8/8/8/8/8/8 w - - 4294967295 +0012").unwrap();
    assert_eq!(fen.halfmove_clock, 4294967295);
    assert_eq!(fen.fullmove_number, 12);
}

#[test]
fn numbers_read_as_the_standard_library_reads_them() {
    let samples = [
        "0", "7", "42", "007", "+5", "+", "", "-", "-0", "-3", "++1", "1+", "12a", "a12", " 1",
        "1 ", "1_000", "4294967295", "4294967296", "42949672950", "99999999999999999999999",
        "+4294967295", "+4294967296", "0x10", "١٢", "1.0", "00000000000000000000001",
    ];
    for s in samples {
        assert_eq!(parse_u32(s), s.parse::<u32>().ok(), "on {:?}", s);
    }
    assert_eq!(parse_u32("42"), Some(42));
    assert_eq!(parse_u32("+5"), Some(5));
    assert_eq!(parse_u32("4294967296"), None);
    assert_eq!(parse_u32(""), None);
}

#[test]
fn words_split_as_the_standard_library_splits_them() {
    let samples = [
        "",
        " ",
        "a",
        " a",
        "a ",
        "a b",
        "  a   b  ",
        "a\tb\nc\r\nd",
        "rnbqkbnr/pppppppp/8/8/8/8/PPPPPPPP/RNBQKBNR w KQkq - 0 1",
        "x\u{a0}y\u{2003}z\u{3000}",
        "\u{e9}t\u{e9} \u{4e2d}\u{6587}",
        "a\u{200b}b c",
    ];
    for s in samples {
        let expected: Vec<String> = s.split_whitespace().map(|w| w.to_string()).collect();
        assert_eq!(split_whitespace(s), expected, "on {:?}", s);
    }
    assert_eq!(split_whitespace("  a   b  "), vec!["a".to_string(), "b".to_string()]);
}

#[test]
fn the_characters_of_a_text() {
    assert_eq!(chars_of("a\u{e9}/8"), vec!['a', '\u{e9}', '/', '8']);
    assert!(chars_of("").is_empty());
}

#[test]
fn a_layout_expands_square_by_square() {
    assert_eq!(expand_layout("r3/1P"), vec!['r', ' ', ' ', ' ', ' ', 'P']);
    assert_eq!(expand_layout("0/0"), Vec::<char>::new());
    assert_eq!(expand_layout("9").len(), 9);
    assert_eq!(expand_layout("ab/cd//"), vec!['a', 'b', 'c', 'd']);
    // only the ten ASCII digits count as digits
    assert_eq!(expand_layout("\u{663}x"), vec!['\u{663}', 'x']);
}

#[test]
fn each_refusal_has_its_words() {
    assert_eq!(ParseError::WrongFieldCount.message(), "Formato FEN inválido");
    assert_eq!(ParseError::MissingActiveColor.message(), "Cor ativa inválida");
    assert_eq!(ParseError::InvalidHalfmoveClock.message(), "Erro no meio-movimento");
    assert_eq!(ParseError::InvalidFullmoveNumber.message(), "Erro no número de jogadas");
    assert_eq!(ParseError::BoardSizeMismatch.message(), "Tabuleiro FEN inválido");
}
