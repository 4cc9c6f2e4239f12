//! Decoding of FEN records: one position, the side to move, the castling
//! rights, the en-passant target and the two move counters.

use std::str::FromStr;
use vstd::prelude::*;
use vstd::string::StrSliceExecFns;
use crate::text::{
    chars_of, digit_value, is_digit, lemma_words_are_solid, number, parse_u32, split_whitespace,
    words,
};

verus! {

/// The character that stands for an empty square in a decoded position.
pub const BLANK: char = ' ';

/// Why a record was refused.
#[derive(Debug, Copy, Clone, PartialEq, Eq, Structural)]
pub enum ParseError {
    /// The record does not have exactly six fields.
    WrongFieldCount,
    /// The field of the side to move is empty.
    MissingActiveColor,
    /// The halfmove clock is no number.
    InvalidHalfmoveClock,
    /// The fullmove number is no number.
    InvalidFullmoveNumber,
    /// The board layout does not describe exactly 64 squares.
    BoardSizeMismatch,
}

impl ParseError {
    /// The reason in words.
    pub open spec fn reason(self) -> Seq<char> {
        match self {
            ParseError::WrongFieldCount => "Formato FEN inválido"@,
            ParseError::MissingActiveColor => "Cor ativa inválida"@,
            ParseError::InvalidHalfmoveClock => "Erro no meio-movimento"@,
            ParseError::InvalidFullmoveNumber => "Erro no número de jogadas"@,
            ParseError::BoardSizeMismatch => "Tabuleiro FEN inválido"@,
        }
    }

    /// Writes the reason in words.
    pub fn message(&self) -> (text: String)
        ensures
            text@ == self.reason(),
    {
        match self {
            ParseError::WrongFieldCount => "Formato FEN inválido".to_owned(),
            ParseError::MissingActiveColor => "Cor ativa inválida".to_owned(),
            ParseError::InvalidHalfmoveClock => "Erro no meio-movimento".to_owned(),
            ParseError::InvalidFullmoveNumber => "Erro no número de jogadas".to_owned(),
            ParseError::BoardSizeMismatch => "Tabuleiro FEN inválido".to_owned(),
        }
    }
}

/// The squares that one character of a board layout stands for: a rank
/// separator for none, a digit for that many blanks, any other character for
/// itself.
pub open spec fn cells(c: char) -> Seq<char> {
    if c == '/' {
        Seq::empty()
    } else if is_digit(c) {
        Seq::new(digit_value(c), |i: int| BLANK)
    } else {
        seq![c]
    }
}

/// The squares that a board layout describes, rank after rank.
pub open spec fn expand(layout: Seq<char>) -> Seq<char>
    decreases layout.len(),
{
    if layout.len() == 0 {
        Seq::empty()
    } else {
        expand(layout.drop_last()) + cells(layout.last())
    }
}

/// A decoded record, as plain values.
pub struct FenModel {
    pub casas: Seq<char>,
    pub active_color: char,
    pub castling: Seq<char>,
    pub en_passant: Seq<char>,
    pub halfmove_clock: u32,
    pub fullmove_number: u32,
}

/// What the six fields of a record decode to. The checks come in this order:
/// the number of fields, the side to move, the two counters, and last the
/// size of the board.
pub open spec fn decoded(parts: Seq<Seq<char>>) -> Result<FenModel, ParseError> {
    if parts.len() != 6 {
        Err(ParseError::WrongFieldCount)
    } else if parts[1].len() == 0 {
        Err(ParseError::MissingActiveColor)
    } else if number(parts[4]) is None {
        Err(ParseError::InvalidHalfmoveClock)
    } else if number(parts[5]) is None {
        Err(ParseError::InvalidFullmoveNumber)
    } else if expand(parts[0]).len() != 64 {
        Err(ParseError::BoardSizeMismatch)
    } else {
        Ok(
            FenModel {
                casas: expand(parts[0]),
                active_color: parts[1][0],
                castling: parts[2],
                en_passant: parts[3],
                halfmove_clock: number(parts[4])->0,
                fullmove_number: number(parts[5])->0,
            },
        )
    }
}

/// A record is refused exactly when its fields are not six, the side to move
/// is missing, a counter is no number, or the layout does not fill the board.
/// A record that is accepted has 64 squares and keeps the castling and
/// en-passant fields as they stand.
pub proof fn lemma_decoding_is_strict(parts: Seq<Seq<char>>)
    ensures
        parts.len() != 6 <==> decoded(parts) == Err::<FenModel, ParseError>(
            ParseError::WrongFieldCount,
        ),
        parts.len() == 6 && expand(parts[0]).len() != 64 ==> decoded(parts) is Err,
        decoded(parts) is Ok <==> parts.len() == 6 && parts[1].len() > 0 && number(parts[4]) is Some
            && number(parts[5]) is Some && expand(parts[0]).len() == 64,
        decoded(parts) matches Ok(fen) ==> fen.casas.len() == 64 && fen.castling == parts[2]
            && fen.en_passant == parts[3],
{
}

/// The words of a text are never empty, so a record read from a text is never
/// refused for want of the side to move.
pub proof fn lemma_words_name_a_side(text: Seq<char>)
    ensures
        decoded(words(text)) != Err::<FenModel, ParseError>(ParseError::MissingActiveColor),
{
    if words(text).len() == 6 {
        lemma_words_are_solid(text, 1);
    }
}

/// A position with the side to move, the castling rights, the en-passant
/// target and the two move counters.
#[derive(Debug, PartialEq, Eq)]
pub struct Fen {
    /// The 64 squares, rank after rank: a piece letter, or a blank.
    pub casas: Vec<char>,
    pub active_color: char,
    pub castling: String,
    pub en_passant: String,
    pub halfmove_clock: u32,
    pub fullmove_number: u32,
}

impl View for Fen {
    type V = FenModel;

    open spec fn view(&self) -> FenModel {
        FenModel {
            casas: self.casas@,
            active_color: self.active_color,
            castling: self.castling@,
            en_passant: self.en_passant@,
            halfmove_clock: self.halfmove_clock,
            fullmove_number: self.fullmove_number,
        }
    }
}

/// The outcome of a decoding, with the record as plain values.
pub open spec fn outcome(r: Result<Fen, ParseError>) -> Result<FenModel, ParseError> {
    match r {
        Ok(fen) => Ok(fen@),
        Err(e) => Err(e),
    }
}

/// Lays out the squares that a board layout describes.
pub fn expand_layout(layout: &str) -> (casas: Vec<char>)
    ensures
        casas@ == expand(layout@),
{
    let chars = chars_of(layout);
    let mut casas: Vec<char> = Vec::with_capacity(64);
    assert(chars@.take(0) =~= Seq::<char>::empty());
    for i in 0..chars.len()
        invariant
            chars@ == layout@,
            casas@ == expand(chars@.take(i as int)),
    {
        let c = chars[i];
        proof {
            assert(chars@.take(i + 1).drop_last() =~= chars@.take(i as int));
            assert(chars@.take(i + 1).last() == c);
        }
        let ghost before = casas@;
        if c == '/' {
            assert(before + cells(c) =~= before);
        } else if c >= '0' && c <= '9' {
            let empty_spaces: u32 = c as u32 - '0' as u32;
            for k in 0..empty_spaces
                invariant
                    casas@ == before + Seq::new(k as nat, |i: int| BLANK),
            {
                casas.push(BLANK);
                assert(casas@ =~= before + Seq::new((k + 1) as nat, |i: int| BLANK));
            }
        } else {
            casas.push(c);
            assert(casas@ =~= before + cells(c));
        }
    }
    assert(chars@.take(chars.len() as int) =~= chars@);
    casas
}

impl Fen {
    /// Decodes a record from its fields.
    pub fn from_fields(parts: &Vec<String>) -> (r: Result<Fen, ParseError>)
        ensures
            outcome(r) == decoded(parts.deep_view()),
    {
        if parts.len() != 6 {
            return Err(ParseError::WrongFieldCount);
        }
        proof {
            let fields = parts.deep_view();
            assert(fields[0] == parts[0]@ && fields[1] == parts[1]@ && fields[2] == parts[2]@
                && fields[3] == parts[3]@ && fields[4] == parts[4]@ && fields[5] == parts[5]@);
        }
        let side = parts[1].as_str();
        if side.unicode_len() == 0 {
            return Err(ParseError::MissingActiveColor);
        }
        let active_color = side.get_char(0);
        let castling = parts[2].clone();
        let en_passant = parts[3].clone();
        let halfmove_clock = match parse_u32(parts[4].as_str()) {
            Some(n) => n,
            None => {
                return Err(ParseError::InvalidHalfmoveClock);
            },
        };
        let fullmove_number = match parse_u32(parts[5].as_str()) {
            Some(n) => n,
            None => {
                return Err(ParseError::InvalidFullmoveNumber);
            },
        };
        let casas = expand_layout(parts[0].as_str());
        if casas.len() != 64 {
            return Err(ParseError::BoardSizeMismatch);
        }
        Ok(Fen { casas, active_color, castling, en_passant, halfmove_clock, fullmove_number })
    }
}

impl FromStr for Fen {
    type Err = ParseError;

    /// Decodes a record from its text: the words of the text are its fields.
    fn from_str(fen: &str) -> (r: Result<Fen, ParseError>)
        ensures
            outcome(r) == decoded(words(fen@)),
    {
        let parts = split_whitespace(fen);
        Fen::from_fields(&parts)
    }
}

} // verus!
