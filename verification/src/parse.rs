//! Reading positions from what a player typed: numbers with blanks between
//! them. What is no number is passed over.

use vstd::prelude::*;

verus! {

/// A character that separates words: the white space of Unicode.
pub open spec fn is_space(c: char) -> bool {
    let code = c as u32;
    ||| 0x09 <= code <= 0x0D
    ||| code == 0x20
    ||| code == 0x85
    ||| code == 0xA0
    ||| code == 0x1680
    ||| 0x2000 <= code <= 0x200A
    ||| code == 0x2028
    ||| code == 0x2029
    ||| code == 0x202F
    ||| code == 0x205F
    ||| code == 0x3000
}

/// The value of a decimal digit; nothing for any other character.
pub open spec fn digit_value(c: char) -> Option<nat> {
    let code = c as u32;
    if 0x30 <= code <= 0x39 {
        Some((code - 0x30) as nat)
    } else {
        None
    }
}

/// The number that a row of digits stands for.
pub open spec fn number(digits: Seq<char>) -> nat
    decreases digits.len(),
{
    if digits.len() == 0 {
        0
    } else {
        number(digits.drop_last()) * 10 + match digit_value(digits.last()) {
            Some(value) => value,
            None => 0,
        }
    }
}

/// Every character of the row is a digit.
pub open spec fn all_digits(digits: Seq<char>) -> bool {
    forall|i: int| 0 <= i < digits.len() ==> digit_value(#[trigger] digits[i]) is Some
}

/// A word without the plus sign that may lead it.
pub open spec fn unsigned_part(word: Seq<char>) -> Seq<char> {
    if word.len() > 0 && word[0] == '+' {
        word.skip(1)
    } else {
        word
    }
}

/// The number that a word stands for: one digit or more, with or without
/// a plus sign in front, and no greater than a position can be.
pub open spec fn word_value(word: Seq<char>) -> Option<usize> {
    let digits = unsigned_part(word);
    if digits.len() > 0 && all_digits(digits) && number(digits) <= usize::MAX {
        Some(number(digits) as usize)
    } else {
        None
    }
}

/// The word that the text ends in: the characters behind its last
/// separator.
pub open spec fn open_word(text: Seq<char>) -> Seq<char>
    decreases text.len(),
{
    if text.len() == 0 || is_space(text.last()) {
        Seq::empty()
    } else {
        open_word(text.drop_last()).push(text.last())
    }
}

/// The words of the text that a separator has ended.
pub open spec fn closed_words(text: Seq<char>) -> Seq<Seq<char>>
    decreases text.len(),
{
    if text.len() == 0 {
        Seq::empty()
    } else if is_space(text.last()) && open_word(text.drop_last()).len() > 0 {
        closed_words(text.drop_last()).push(open_word(text.drop_last()))
    } else {
        closed_words(text.drop_last())
    }
}

/// The words of a text: its longest runs of characters that are no
/// separators, in their order.
pub open spec fn words(text: Seq<char>) -> Seq<Seq<char>> {
    if open_word(text).len() > 0 {
        closed_words(text).push(open_word(text))
    } else {
        closed_words(text)
    }
}

/// The numbers among the words, in their order.
pub open spec fn word_values(among: Seq<Seq<char>>) -> Seq<usize>
    decreases among.len(),
{
    if among.len() == 0 {
        Seq::empty()
    } else {
        let before = word_values(among.drop_last());
        match word_value(among.last()) {
            Some(value) => before.push(value),
            None => before,
        }
    }
}

/// The positions that a text gives: the numbers among its words.
pub open spec fn positions_of(text: Seq<char>) -> Seq<usize> {
    word_values(words(text))
}

/// A row of digits stands for no less than any row that it begins with.
pub proof fn lemma_number_grows(digits: Seq<char>, upto: int)
    requires
        0 <= upto <= digits.len(),
    ensures
        number(digits.take(upto)) <= number(digits),
    decreases digits.len() - upto,
{
    if upto == digits.len() {
        assert(digits.take(upto) =~= digits);
    } else {
        lemma_number_grows(digits, upto + 1);
        assert(digits.take(upto + 1).drop_last() =~= digits.take(upto));
    }
}

/// Whether the character separates words.
pub fn separates(c: char) -> (space: bool)
    ensures
        space == is_space(c),
{
    let code = c as u32;
    (0x09 <= code && code <= 0x0D) || code == 0x20 || code == 0x85 || code == 0xA0 || code
        == 0x1680 || (0x2000 <= code && code <= 0x200A) || code == 0x2028 || code == 0x2029
        || code == 0x202F || code == 0x205F || code == 0x3000
}

/// Reads the number that a word stands for.
pub fn read_word(word: &Vec<char>) -> (value: Option<usize>)
    ensures
        value == word_value(word@),
{
    let start: usize = if word.len() > 0 && word[0] == '+' {
        1
    } else {
        0
    };
    let ghost digits = unsigned_part(word@);
    if start == word.len() {
        return None;
    }
    let mut value: usize = 0;
    let mut t: usize = start;
    while t < word.len()
        invariant
            start <= t <= word.len(),
            digits == word@.skip(start as int),
            digits == unsigned_part(word@),
            all_digits(digits.take(t - start)),
            value == number(digits.take(t - start)),
        decreases word.len() - t,
    {
        let code = word[t] as u32;
        assert(digits.take(t - start + 1).drop_last() =~= digits.take(t - start));
        if code < 0x30 || code > 0x39 {
            return None;
        }
        let digit = (code - 0x30) as usize;
        assert(digit_value(digits[t - start]) == Some(digit as nat));
        if value > (usize::MAX - digit) / 10 {
            proof {
                lemma_number_grows(digits, t - start + 1);
            }
            return None;
        }
        value = value * 10 + digit;
        t += 1;
    }
    assert(digits.take(t - start) =~= digits);
    Some(value)
}

/// Reads the positions that a text gives.
pub fn parse_positions(text: &str) -> (positions: Vec<usize>)
    ensures
        positions@ == positions_of(text@),
{
    let length = text.unicode_len();
    let mut positions: Vec<usize> = Vec::new();
    let mut word: Vec<char> = Vec::new();
    let mut t: usize = 0;
    while t < length
        invariant
            t <= length,
            length == text@.len(),
            word@ == open_word(text@.take(t as int)),
            positions@ == word_values(closed_words(text@.take(t as int))),
        decreases length - t,
    {
        assert(text@.take(t + 1).drop_last() =~= text@.take(t as int));
        let c = text.get_char(t);
        if separates(c) {
            if word.len() > 0 {
                match read_word(&word) {
                    Some(value) => {
                        positions.push(value);
                    },
                    None => {},
                }
                assert(closed_words(text@.take(t + 1)).drop_last() =~= closed_words(
                    text@.take(t as int),
                ));
                word = Vec::new();
            }
        } else {
            word.push(c);
        }
        t += 1;
    }
    assert(text@.take(t as int) =~= text@);
    if word.len() > 0 {
        assert(words(text@).drop_last() =~= closed_words(text@));
        match read_word(&word) {
            Some(value) => {
                positions.push(value);
            },
            None => {},
        }
    }
    positions
}

} // verus!
