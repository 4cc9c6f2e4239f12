//! Characters, words and numbers of a text.

use vstd::prelude::*;
use vstd::string::StrSliceExecFns;

verus! {

/// Whether a character is white space in the standard library's sense.
pub uninterp spec fn white_space(c: char) -> bool;

/// Calls `char::is_whitespace`. Nothing is claimed of which characters count
/// as white space, only that the answer is a property of the character.
#[verifier::external_body]
fn is_whitespace(c: char) -> (b: bool)
    ensures
        b == white_space(c),
{
    c.is_whitespace()
}

/// The first position at or after `i` that holds white space, or the length
/// of `s` if there is none.
pub open spec fn word_end(s: Seq<char>, i: int) -> int
    decreases s.len() - i,
{
    if 0 <= i < s.len() && !white_space(s[i]) {
        word_end(s, i + 1)
    } else {
        i
    }
}

/// The words of `s` that begin at or after `i`.
pub open spec fn words_from(s: Seq<char>, i: int) -> Seq<Seq<char>>
    decreases s.len() - i,
    via words_from_decreases
{
    if i < 0 || i >= s.len() {
        Seq::empty()
    } else if white_space(s[i]) {
        words_from(s, i + 1)
    } else {
        seq![s.subrange(i, word_end(s, i + 1))] + words_from(s, word_end(s, i + 1))
    }
}

#[via_fn]
proof fn words_from_decreases(s: Seq<char>, i: int) {
    if 0 <= i < s.len() {
        lemma_word_end(s, i + 1);
    }
}

/// The words of a text: its longest runs of characters that are not white
/// space, from left to right.
pub open spec fn words(s: Seq<char>) -> Seq<Seq<char>> {
    words_from(s, 0)
}

/// A word ends at or after its beginning, holds no white space, and is
/// followed by white space or by the end of the text.
pub proof fn lemma_word_end(s: Seq<char>, i: int)
    requires
        0 <= i <= s.len(),
    ensures
        i <= word_end(s, i) <= s.len(),
        forall|j: int| i <= j < word_end(s, i) ==> !white_space(#[trigger] s[j]),
        word_end(s, i) < s.len() ==> white_space(s[word_end(s, i)]),
    decreases s.len() - i,
{
    if i < s.len() && !white_space(s[i]) {
        lemma_word_end(s, i + 1);
    }
}

proof fn lemma_words_from(s: Seq<char>, i: int, k: int)
    requires
        0 <= i <= s.len(),
        0 <= k < words_from(s, i).len(),
    ensures
        words_from(s, i)[k].len() > 0,
        forall|j: int|
            0 <= j < words_from(s, i)[k].len() ==> !white_space(#[trigger] words_from(s, i)[k][j]),
    decreases s.len() - i,
{
    if i < s.len() {
        if white_space(s[i]) {
            lemma_words_from(s, i + 1, k);
        } else {
            let end = word_end(s, i + 1);
            lemma_word_end(s, i + 1);
            if k > 0 {
                lemma_words_from(s, end, k - 1);
            }
        }
    }
}

/// Every word holds at least one character, and no white space.
pub proof fn lemma_words_are_solid(s: Seq<char>, k: int)
    requires
        0 <= k < words(s).len(),
    ensures
        words(s)[k].len() > 0,
        forall|j: int| 0 <= j < words(s)[k].len() ==> !white_space(#[trigger] words(s)[k][j]),
{
    lemma_words_from(s, 0, k);
}

/// The characters of a text, one by one.
pub fn chars_of(text: &str) -> (chars: Vec<char>)
    ensures
        chars@ == text@,
{
    let mut chars: Vec<char> = Vec::new();
    for c in it: text.chars()
        invariant
            it.seq() == text@,
            chars@ == it.seq().take(it.index() as int),
    {
        chars.push(c);
    }
    chars
}

/// Splits a text into its words.
pub fn split_whitespace(text: &str) -> (parts: Vec<String>)
    ensures
        parts.deep_view() == words(text@),
{
    let chars = chars_of(text);
    let n = chars.len();
    let mut parts: Vec<String> = Vec::new();
    let mut i: usize = 0;
    assert(parts.deep_view() =~= Seq::<Seq<char>>::empty());
    while i < n
        invariant
            chars@ == text@,
            n == chars.len(),
            i <= n,
            parts.deep_view() + words_from(text@, i as int) == words(text@),
        decreases n - i,
    {
        if is_whitespace(chars[i]) {
            i += 1;
        } else {
            let start = i;
            i += 1;
            while i < n && !is_whitespace(chars[i])
                invariant
                    chars@ == text@,
                    n == chars.len(),
                    start < i <= n,
                    word_end(text@, i as int) == word_end(text@, start + 1),
                decreases n - i,
            {
                i += 1;
            }
            let word = text.substring_char(start, i).to_owned();
            let ghost before = parts.deep_view();
            parts.push(word);
            proof {
                assert(parts.deep_view() =~= before.push(word@));
                assert(before.push(word@) + words_from(text@, i as int) =~= before + (seq![word@]
                    + words_from(text@, i as int)));
            }
        }
    }
    assert(parts.deep_view() + Seq::<Seq<char>>::empty() =~= parts.deep_view());
    parts
}

/// The number of bytes that a character takes in UTF-8.
pub open spec fn utf8_len(c: char) -> nat {
    if (c as u32) < 0x80 {
        1
    } else if (c as u32) < 0x800 {
        2
    } else if (c as u32) < 0x1_0000 {
        3
    } else {
        4
    }
}

/// The number of bytes that a text takes in UTF-8.
pub open spec fn byte_len(s: Seq<char>) -> nat
    decreases s.len(),
{
    if s.len() == 0 {
        0
    } else {
        byte_len(s.drop_last()) + utf8_len(s.last())
    }
}

/// A text takes the bytes of its parts.
pub proof fn lemma_byte_len_of_parts(a: Seq<char>, b: Seq<char>)
    ensures
        byte_len(a + b) == byte_len(a) + byte_len(b),
    decreases b.len(),
{
    if b.len() == 0 {
        assert(a + b =~= a);
    } else {
        lemma_byte_len_of_parts(a, b.drop_last());
        assert((a + b).drop_last() =~= a + b.drop_last());
    }
}

/// What is left of a text's length in bytes when it is counted in eights.
pub fn byte_len_mod_8(text: &str) -> (left: usize)
    ensures
        left == byte_len(text@) % 8,
{
    let chars = chars_of(text);
    let mut left: usize = 0;
    assert(chars@.take(0) =~= Seq::<char>::empty());
    for i in 0..chars.len()
        invariant
            chars@ == text@,
            left == byte_len(chars@.take(i as int)) % 8,
    {
        let c = chars[i] as u32;
        let width: usize = if c < 0x80 {
            1
        } else if c < 0x800 {
            2
        } else if c < 0x1_0000 {
            3
        } else {
            4
        };
        proof {
            assert(chars@.take(i + 1).drop_last() =~= chars@.take(i as int));
            assert(chars@.take(i + 1).last() == chars[i as int]);
        }
        left = (left + width) % 8;
    }
    assert(chars@.take(chars.len() as int) =~= chars@);
    left
}

/// Whether a character is one of the ten decimal digits.
pub open spec fn is_digit(c: char) -> bool {
    '0' <= c && c <= '9'
}

/// The value of a decimal digit.
pub open spec fn digit_value(c: char) -> nat {
    (c as u32 - '0' as u32) as nat
}

/// Whether a text is made of decimal digits alone.
pub open spec fn all_digits(s: Seq<char>) -> bool {
    forall|i: int| 0 <= i < s.len() ==> is_digit(#[trigger] s[i])
}

/// The number that a run of decimal digits writes.
pub open spec fn decimal(s: Seq<char>) -> nat
    decreases s.len(),
{
    if s.len() == 0 {
        0
    } else {
        decimal(s.drop_last()) * 10 + digit_value(s.last())
    }
}

/// The digits of a number's text: what follows its plus sign, if it has one.
pub open spec fn unsigned_part(s: Seq<char>) -> Seq<char> {
    if s.len() > 0 && s[0] == '+' {
        s.drop_first()
    } else {
        s
    }
}

/// The number that a text writes, if it writes one that fits 32 bits: an
/// optional plus sign, then at least one decimal digit and nothing else.
pub open spec fn number(s: Seq<char>) -> Option<u32> {
    let digits = unsigned_part(s);
    if digits.len() > 0 && all_digits(digits) && decimal(digits) <= u32::MAX {
        Some(decimal(digits) as u32)
    } else {
        None
    }
}

/// Digits that follow can only make a number larger.
proof fn lemma_decimal_grows(s: Seq<char>, i: int)
    requires
        0 <= i <= s.len(),
    ensures
        decimal(s.take(i)) <= decimal(s),
    decreases s.len() - i,
{
    if i < s.len() {
        lemma_decimal_grows(s, i + 1);
        assert(s.take(i + 1).drop_last() =~= s.take(i));
    } else {
        assert(s.take(i) =~= s);
    }
}

/// Reads the non-negative number that a text writes.
pub fn parse_u32(text: &str) -> (value: Option<u32>)
    ensures
        value == number(text@),
{
    let chars = chars_of(text);
    let n = chars.len();
    let first: usize = if n > 0 && chars[0] == '+' {
        1
    } else {
        0
    };
    if first == n {
        return None;
    }
    let ghost digits = unsigned_part(text@);
    assert(digits =~= text@.skip(first as int));
    let mut acc: u64 = 0;
    let mut i: usize = first;
    assert(digits.take(0) =~= Seq::<char>::empty());
    while i < n
        invariant
            chars@ == text@,
            n == chars.len(),
            first <= i <= n,
            first <= 1,
            digits == text@.skip(first as int),
            digits == unsigned_part(text@),
            all_digits(digits.take(i - first)),
            acc == decimal(digits.take(i - first)),
            acc <= u32::MAX,
        decreases n - i,
    {
        let c = chars[i];
        proof {
            assert(digits[i - first] == c);
            assert(digits.take(i - first + 1).drop_last() =~= digits.take(i - first));
            assert(digits.take(i - first + 1).last() == c);
        }
        if !(c >= '0' && c <= '9') {
            assert(!is_digit(digits[i - first]));
            return None;
        }
        let d: u64 = (c as u32 - '0' as u32) as u64;
        acc = acc * 10 + d;
        if acc > u32::MAX as u64 {
            proof {
                if all_digits(digits) {
                    lemma_decimal_grows(digits, i - first + 1);
                }
            }
            return None;
        }
        i += 1;
    }
    assert(digits.take(n - first) =~= digits);
    Some(acc as u32)
}

} // verus!
