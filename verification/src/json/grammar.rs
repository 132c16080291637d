//! The JSON grammar as functions on byte sequences.
//!
//! Each function reads one construct at a position and gives what it holds
//! and where it ends, or nothing where the bytes do not form that construct.

use vstd::prelude::*;
use crate::ascii::{
    is_digit, BACKSLASH, BACKSPACE, CARRIAGE_RETURN, CLOSE_BRACE, CLOSE_BRACKET, COLON, COMMA,
    DIGIT_0, DIGIT_9, FORM_FEED, LINE_FEED, LOWER_A, LOWER_B, LOWER_E, LOWER_F, LOWER_L, LOWER_N,
    LOWER_R, LOWER_S, LOWER_T, LOWER_U, MINUS, OPEN_BRACE, OPEN_BRACKET, PLUS, POINT, QUOTE, SLASH,
    SPACE, TAB, UPPER_A, UPPER_E, UPPER_F,
};
use crate::json::value::Json;

verus! {

/// Arrays and objects may be nested this deep, and no deeper.
pub const MAX_DEPTH: usize = 128;

pub open spec fn is_whitespace(b: u8) -> bool {
    b == SPACE || b == TAB || b == LINE_FEED || b == CARRIAGE_RETURN
}

/// The first position from `i` on that holds no whitespace.
pub open spec fn skip_whitespace(s: Seq<u8>, i: int) -> int
    decreases s.len() - i,
{
    if 0 <= i < s.len() && is_whitespace(s[i]) {
        skip_whitespace(s, i + 1)
    } else {
        i
    }
}

/// The first position from `i` on that holds no digit.
pub open spec fn digits_end(s: Seq<u8>, i: int) -> int
    decreases s.len() - i,
{
    if 0 <= i < s.len() && is_digit(s[i]) {
        digits_end(s, i + 1)
    } else {
        i
    }
}

/// `s` holds `b` at position `i`.
pub open spec fn has_byte(s: Seq<u8>, i: int, b: u8) -> bool {
    0 <= i < s.len() && s[i] == b
}

/// `s` holds a digit at position `i`.
pub open spec fn has_digit(s: Seq<u8>, i: int) -> bool {
    0 <= i < s.len() && is_digit(s[i])
}

/// Where the integer part that starts at `i` ends: a single zero, or digits
/// that do not start with zero.
pub open spec fn integer_end(s: Seq<u8>, i: int) -> Option<int> {
    if !has_digit(s, i) {
        None
    } else if s[i] == DIGIT_0 {
        Some(i + 1)
    } else {
        Some(digits_end(s, i))
    }
}

/// Where the optional fraction at `i` ends: nothing, or a point and at least
/// one digit.
pub open spec fn fraction_end(s: Seq<u8>, i: int) -> Option<int> {
    if !has_byte(s, i, POINT) {
        Some(i)
    } else if has_digit(s, i + 1) {
        Some(digits_end(s, i + 1))
    } else {
        None
    }
}

/// Where the optional exponent at `i` ends: nothing, or `e` or `E`, an
/// optional sign and at least one digit.
pub open spec fn exponent_end(s: Seq<u8>, i: int) -> Option<int> {
    if !(has_byte(s, i, LOWER_E) || has_byte(s, i, UPPER_E)) {
        Some(i)
    } else {
        let d = if has_byte(s, i + 1, PLUS) || has_byte(s, i + 1, MINUS) {
            i + 2
        } else {
            i + 1
        };
        if has_digit(s, d) {
            Some(digits_end(s, d))
        } else {
            None
        }
    }
}

/// Where the number that starts at `i` ends.
pub open spec fn number_end(s: Seq<u8>, i: int) -> Option<int> {
    let a = if has_byte(s, i, MINUS) {
        i + 1
    } else {
        i
    };
    match integer_end(s, a) {
        None => None,
        Some(b) => match fraction_end(s, b) {
            None => None,
            Some(c) => exponent_end(s, c),
        },
    }
}

/// The whole of `t` is one number.
pub open spec fn is_number_literal(t: Seq<u8>) -> bool {
    number_end(t, 0) == Some(t.len() as int)
}

/// The value of a hexadecimal digit.
pub open spec fn hex_value(b: u8) -> Option<int> {
    if DIGIT_0 <= b <= DIGIT_9 {
        Some(b - DIGIT_0)
    } else if LOWER_A <= b <= LOWER_F {
        Some(b - LOWER_A + 10)
    } else if UPPER_A <= b <= UPPER_F {
        Some(b - UPPER_A + 10)
    } else {
        None
    }
}

/// The number written by the four hexadecimal digits at `i`.
pub open spec fn hex4_at(s: Seq<u8>, i: int) -> Option<int> {
    if 0 <= i && i + 4 <= s.len() && hex_value(s[i]) is Some && hex_value(s[i + 1]) is Some
        && hex_value(s[i + 2]) is Some && hex_value(s[i + 3]) is Some {
        Some(
            ((hex_value(s[i])->0 * 16 + hex_value(s[i + 1])->0) * 16 + hex_value(s[i + 2])->0) * 16
                + hex_value(s[i + 3])->0,
        )
    } else {
        None
    }
}

pub open spec fn is_high_surrogate(unit: int) -> bool {
    0xD800 <= unit < 0xDC00
}

pub open spec fn is_low_surrogate(unit: int) -> bool {
    0xDC00 <= unit < 0xE000
}

/// The code point that a surrogate pair stands for.
pub open spec fn surrogate_pair(high: int, low: int) -> int {
    0x10000 + (high - 0xD800) * 0x400 + (low - 0xDC00)
}

/// The UTF-8 form of a code point.
pub open spec fn utf8_bytes(cp: int) -> Seq<u8> {
    if cp < 0x80 {
        seq![cp as u8]
    } else if cp < 0x800 {
        seq![(0xC0 + cp / 0x40) as u8, (0x80 + cp % 0x40) as u8]
    } else if cp < 0x10000 {
        seq![(0xE0 + cp / 0x1000) as u8, (0x80 + cp / 0x40 % 0x40) as u8, (0x80 + cp % 0x40) as u8]
    } else {
        seq![
            (0xF0 + cp / 0x40000) as u8,
            (0x80 + cp / 0x1000 % 0x40) as u8,
            (0x80 + cp / 0x40 % 0x40) as u8,
            (0x80 + cp % 0x40) as u8,
        ]
    }
}

/// The byte that a one-letter escape stands for.
pub open spec fn simple_escape(letter: u8) -> Option<u8> {
    if letter == QUOTE || letter == BACKSLASH || letter == SLASH {
        Some(letter)
    } else if letter == LOWER_B {
        Some(BACKSPACE)
    } else if letter == LOWER_F {
        Some(FORM_FEED)
    } else if letter == LOWER_N {
        Some(LINE_FEED)
    } else if letter == LOWER_R {
        Some(CARRIAGE_RETURN)
    } else if letter == LOWER_T {
        Some(TAB)
    } else {
        None
    }
}

/// The code point written by the `\u` escape whose hexadecimal digits start
/// at `i`, and where the escape ends. A high surrogate must be followed by
/// the escape of a low one; a low surrogate alone stands for nothing.
pub open spec fn unicode_escape_at(s: Seq<u8>, i: int) -> Option<(int, int)> {
    match hex4_at(s, i) {
        None => None,
        Some(unit) => if is_high_surrogate(unit) {
            if has_byte(s, i + 4, BACKSLASH) && has_byte(s, i + 5, LOWER_U) {
                match hex4_at(s, i + 6) {
                    Some(low) => if is_low_surrogate(low) {
                        Some((surrogate_pair(unit, low), i + 10))
                    } else {
                        None
                    },
                    None => None,
                }
            } else {
                None
            }
        } else if is_low_surrogate(unit) {
            None
        } else {
            Some((unit, i + 4))
        },
    }
}

/// The bytes that the escape whose letter is at `i` stands for, and where it
/// ends.
pub open spec fn escape_at(s: Seq<u8>, i: int) -> Option<(Seq<u8>, int)> {
    if !(0 <= i < s.len()) {
        None
    } else if s[i] == LOWER_U {
        match unicode_escape_at(s, i + 1) {
            Some((cp, end)) => Some((utf8_bytes(cp), end)),
            None => None,
        }
    } else {
        match simple_escape(s[i]) {
            Some(b) => Some((seq![b], i + 1)),
            None => None,
        }
    }
}

/// The result of reading more of a construct after `first`.
pub open spec fn preceded<T>(first: Seq<T>, rest: Option<(Seq<T>, int)>) -> Option<(Seq<T>, int)> {
    match rest {
        Some((items, end)) => Some((first + items, end)),
        None => None,
    }
}

/// The text of a string from position `i` inside it up to its closing quote,
/// and the position after that quote. (That an escape ends after it starts
/// is always so; it is asked for to show that reading ends.)
pub open spec fn string_tail(s: Seq<u8>, i: int) -> Option<(Seq<u8>, int)>
    decreases s.len() - i,
{
    if !(0 <= i < s.len()) {
        None
    } else if s[i] == QUOTE {
        Some((Seq::empty(), i + 1))
    } else if s[i] == BACKSLASH {
        match escape_at(s, i + 1) {
            Some((bytes, next)) => if i < next {
                preceded(bytes, string_tail(s, next))
            } else {
                None
            },
            None => None,
        }
    } else if s[i] < 0x20 {
        None
    } else {
        preceded(seq![s[i]], string_tail(s, i + 1))
    }
}

/// The text of the string that starts at `i`, and where the string ends.
pub open spec fn string_at(s: Seq<u8>, i: int) -> Option<(Seq<u8>, int)> {
    if has_byte(s, i, QUOTE) {
        string_tail(s, i + 1)
    } else {
        None
    }
}

pub open spec fn word_true() -> Seq<u8> {
    seq![LOWER_T, LOWER_R, LOWER_U, LOWER_E]
}

pub open spec fn word_false() -> Seq<u8> {
    seq![LOWER_F, LOWER_A, LOWER_L, LOWER_S, LOWER_E]
}

pub open spec fn word_null() -> Seq<u8> {
    seq![LOWER_N, LOWER_U, LOWER_L, LOWER_L]
}

/// `s` holds the bytes of `word` from position `i` on.
pub open spec fn has_word(s: Seq<u8>, i: int, word: Seq<u8>) -> bool {
    0 <= i && i + word.len() <= s.len() && s.subrange(i, i + word.len()) == word
}

/// The value that starts at `i`, and where it ends. `depth` is how many
/// more levels of arrays and objects may open.
pub open spec fn value_at(s: Seq<u8>, i: int, depth: nat) -> Option<(Json, int)>
    decreases depth, 0int,
{
    if !(0 <= i < s.len()) {
        None
    } else if s[i] == QUOTE {
        match string_at(s, i) {
            Some((text, end)) => Some((Json::Text(text), end)),
            None => None,
        }
    } else if s[i] == OPEN_BRACKET {
        let first = skip_whitespace(s, i + 1);
        if depth == 0 {
            None
        } else if has_byte(s, first, CLOSE_BRACKET) {
            Some((Json::Array(Seq::empty()), first + 1))
        } else {
            match elements_at(s, first, (depth - 1) as nat) {
                Some((items, end)) => Some((Json::Array(items), end)),
                None => None,
            }
        }
    } else if s[i] == OPEN_BRACE {
        let first = skip_whitespace(s, i + 1);
        if depth == 0 {
            None
        } else if has_byte(s, first, CLOSE_BRACE) {
            Some((Json::Object(Seq::empty()), first + 1))
        } else {
            match members_at(s, first, (depth - 1) as nat) {
                Some((members, end)) => Some((Json::Object(members), end)),
                None => None,
            }
        }
    } else if s[i] == LOWER_T {
        if has_word(s, i, word_true()) {
            Some((Json::Bool(true), i + 4))
        } else {
            None
        }
    } else if s[i] == LOWER_F {
        if has_word(s, i, word_false()) {
            Some((Json::Bool(false), i + 5))
        } else {
            None
        }
    } else if s[i] == LOWER_N {
        if has_word(s, i, word_null()) {
            Some((Json::Null, i + 4))
        } else {
            None
        }
    } else {
        match number_end(s, i) {
            Some(end) => Some((Json::Number(s.subrange(i, end)), end)),
            None => None,
        }
    }
}

/// The elements of an array from the element that starts at `i` up to the
/// closing bracket, and the position after that bracket. (That the next
/// element starts further on, and inside the text, is always so; it is asked
/// for to show that reading ends.)
pub open spec fn elements_at(s: Seq<u8>, i: int, depth: nat) -> Option<(Seq<Json>, int)>
    decreases depth, 1 + s.len() - i,
{
    if !(0 <= i < s.len()) {
        None
    } else {
        match value_at(s, i, depth) {
            None => None,
            Some((item, end)) => {
                let mark = skip_whitespace(s, end);
                let next = skip_whitespace(s, mark + 1);
                if has_byte(s, mark, CLOSE_BRACKET) {
                    Some((seq![item], mark + 1))
                } else if has_byte(s, mark, COMMA) && i < next <= s.len() {
                    preceded(seq![item], elements_at(s, next, depth))
                } else {
                    None
                }
            },
        }
    }
}

/// The members of an object from the member whose name starts at `i` up to
/// the closing brace, and the position after that brace. (That the next
/// member starts further on, and inside the text, is always so; it is asked
/// for to show that reading ends.)
pub open spec fn members_at(s: Seq<u8>, i: int, depth: nat) -> Option<(Seq<(Seq<u8>, Json)>, int)>
    decreases depth, 1 + s.len() - i,
{
    if !(0 <= i < s.len()) {
        None
    } else {
        match string_at(s, i) {
            None => None,
            Some((name, name_end)) => {
                let colon = skip_whitespace(s, name_end);
                if !has_byte(s, colon, COLON) {
                    None
                } else {
                    match value_at(s, skip_whitespace(s, colon + 1), depth) {
                        None => None,
                        Some((item, end)) => {
                            let mark = skip_whitespace(s, end);
                            let next = skip_whitespace(s, mark + 1);
                            if has_byte(s, mark, CLOSE_BRACE) {
                                Some((seq![(name, item)], mark + 1))
                            } else if has_byte(s, mark, COMMA) && i < next <= s.len() {
                                preceded(seq![(name, item)], members_at(s, next, depth))
                            } else {
                                None
                            }
                        },
                    }
                }
            },
        }
    }
}

/// The value that the whole text holds, with whitespace allowed around it.
pub open spec fn document(s: Seq<u8>) -> Option<Json> {
    match value_at(s, skip_whitespace(s, 0), MAX_DEPTH as nat) {
        Some((value, end)) => if skip_whitespace(s, end) == s.len() {
            Some(value)
        } else {
            None
        },
        None => None,
    }
}

} // verus!
