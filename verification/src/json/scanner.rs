//! Reading the flat constructs of JSON: whitespace, words, numbers, strings.

use vstd::prelude::*;
use crate::ascii::{
    BACKSLASH, BACKSPACE, CARRIAGE_RETURN, DIGIT_0, DIGIT_9, FORM_FEED, LINE_FEED, LOWER_A, LOWER_B,
    LOWER_E, LOWER_F, LOWER_N, LOWER_R, LOWER_T, LOWER_U, MINUS, PLUS, POINT, QUOTE, SLASH, SPACE,
    TAB, UPPER_A, UPPER_E, UPPER_F,
};
use crate::json::grammar::{
    digits_end, escape_at, has_byte, has_digit, has_word, hex4_at, hex_value, number_end, preceded,
    simple_escape, skip_whitespace, string_at, string_tail, unicode_escape_at, utf8_bytes,
};
use crate::json::lemmas::lemma_digits_end;

verus! {

/// The first position from `i` on that holds no whitespace.
pub fn after_whitespace(bytes: &[u8], i: usize) -> (j: usize)
    ensures
        j == skip_whitespace(bytes@, i as int),
        i <= j,
        i <= bytes.len() ==> j <= bytes.len(),
{
    let mut j: usize = i;
    while j < bytes.len() && (bytes[j] == SPACE || bytes[j] == TAB || bytes[j] == LINE_FEED
        || bytes[j] == CARRIAGE_RETURN)
        invariant
            i <= j,
            i <= bytes.len() ==> j <= bytes.len(),
            skip_whitespace(bytes@, i as int) == skip_whitespace(bytes@, j as int),
        decreases bytes.len() - j,
    {
        j += 1;
    }
    j
}

/// The first position from `i` on that holds no digit.
pub fn after_digits(bytes: &[u8], i: usize) -> (j: usize)
    ensures
        j == digits_end(bytes@, i as int),
        i <= j,
        i <= bytes.len() ==> j <= bytes.len(),
{
    let mut j: usize = i;
    while j < bytes.len() && DIGIT_0 <= bytes[j] && bytes[j] <= DIGIT_9
        invariant
            i <= j,
            i <= bytes.len() ==> j <= bytes.len(),
            digits_end(bytes@, i as int) == digits_end(bytes@, j as int),
        decreases bytes.len() - j,
    {
        j += 1;
    }
    j
}

/// Whether the text holds `b` at position `i`.
pub fn byte_is(bytes: &[u8], i: usize, b: u8) -> (holds: bool)
    ensures
        holds == has_byte(bytes@, i as int, b),
{
    i < bytes.len() && bytes[i] == b
}

/// Whether the text holds a digit at position `i`.
pub fn digit_is(bytes: &[u8], i: usize) -> (holds: bool)
    ensures
        holds == has_digit(bytes@, i as int),
{
    i < bytes.len() && DIGIT_0 <= bytes[i] && bytes[i] <= DIGIT_9
}

/// Where the number that starts at `i` ends, if one starts there.
pub fn scan_number(bytes: &[u8], i: usize) -> (end: Option<usize>)
    ensures
        end is Some <==> number_end(bytes@, i as int) is Some,
        end matches Some(j) ==> number_end(bytes@, i as int) == Some(j as int) && i < j
            <= bytes.len(),
{
    if i >= bytes.len() {
        return None;
    }
    let a: usize = if bytes[i] == MINUS {
        i + 1
    } else {
        i
    };
    if !digit_is(bytes, a) {
        return None;
    }
    let b: usize = if bytes[a] == DIGIT_0 {
        a + 1
    } else {
        after_digits(bytes, a)
    };
    proof {
        lemma_digits_end(bytes@, a as int);
    }
    let c: usize = if byte_is(bytes, b, POINT) {
        if !digit_is(bytes, b + 1) {
            return None;
        }
        after_digits(bytes, b + 1)
    } else {
        b
    };
    if byte_is(bytes, c, LOWER_E) || byte_is(bytes, c, UPPER_E) {
        let d: usize = if byte_is(bytes, c + 1, PLUS) || byte_is(bytes, c + 1, MINUS) {
            c + 2
        } else {
            c + 1
        };
        if !digit_is(bytes, d) {
            return None;
        }
        Some(after_digits(bytes, d))
    } else {
        Some(c)
    }
}

/// The value of a hexadecimal digit.
pub fn hex_digit(b: u8) -> (value: Option<u32>)
    ensures
        value is Some <==> hex_value(b) is Some,
        value matches Some(v) ==> hex_value(b) == Some(v as int) && v < 16,
{
    if DIGIT_0 <= b && b <= DIGIT_9 {
        Some((b - DIGIT_0) as u32)
    } else if LOWER_A <= b && b <= LOWER_F {
        Some((b - LOWER_A + 10) as u32)
    } else if UPPER_A <= b && b <= UPPER_F {
        Some((b - UPPER_A + 10) as u32)
    } else {
        None
    }
}

/// The number written by the four hexadecimal digits at `i`.
pub fn scan_hex4(bytes: &[u8], i: usize) -> (unit: Option<u32>)
    ensures
        unit is Some <==> hex4_at(bytes@, i as int) is Some,
        unit matches Some(u) ==> hex4_at(bytes@, i as int) == Some(u as int) && u < 0x10000 && i
            + 4 <= bytes.len(),
{
    if bytes.len() < 4 || i > bytes.len() - 4 {
        return None;
    }
    match (hex_digit(bytes[i]), hex_digit(bytes[i + 1]), hex_digit(bytes[i + 2]), hex_digit(
        bytes[i + 3],
    )) {
        (Some(a), Some(b), Some(c), Some(d)) => Some(((a * 16 + b) * 16 + c) * 16 + d),
        _ => None,
    }
}

/// The code point of the `\u` escape whose digits start at `i`, and where
/// the escape ends.
pub fn scan_unicode_escape(bytes: &[u8], i: usize) -> (found: Option<(u32, usize)>)
    ensures
        found is Some <==> unicode_escape_at(bytes@, i as int) is Some,
        found matches Some((cp, end)) ==> {
            &&& unicode_escape_at(bytes@, i as int) == Some((cp as int, end as int))
            &&& i < end <= bytes.len()
            &&& cp < 0x110000
        },
{
    let unit: u32 = match scan_hex4(bytes, i) {
        Some(u) => u,
        None => {
            return None;
        },
    };
    if 0xD800 <= unit && unit < 0xDC00 {
        if !(byte_is(bytes, i + 4, BACKSLASH) && byte_is(bytes, i + 5, LOWER_U)) {
            return None;
        }
        match scan_hex4(bytes, i + 6) {
            Some(low) => {
                if 0xDC00 <= low && low < 0xE000 {
                    Some((0x10000 + (unit - 0xD800) * 0x400 + (low - 0xDC00), i + 10))
                } else {
                    None
                }
            },
            None => None,
        }
    } else if 0xDC00 <= unit && unit < 0xE000 {
        None
    } else {
        Some((unit, i + 4))
    }
}

/// Appends the UTF-8 form of a code point.
pub(crate) fn push_utf8(out: &mut Vec<u8>, cp: u32)
    requires
        cp < 0x110000,
    ensures
        final(out)@ == old(out)@ + utf8_bytes(cp as int),
{
    if cp < 0x80 {
        out.push(cp as u8);
    } else if cp < 0x800 {
        out.push((0xC0 + cp / 0x40) as u8);
        out.push((0x80 + cp % 0x40) as u8);
    } else if cp < 0x10000 {
        out.push((0xE0 + cp / 0x1000) as u8);
        out.push((0x80 + cp / 0x40 % 0x40) as u8);
        out.push((0x80 + cp % 0x40) as u8);
    } else {
        out.push((0xF0 + cp / 0x40000) as u8);
        out.push((0x80 + cp / 0x1000 % 0x40) as u8);
        out.push((0x80 + cp / 0x40 % 0x40) as u8);
        out.push((0x80 + cp % 0x40) as u8);
    }
    assert(final(out)@ =~= old(out)@ + utf8_bytes(cp as int));
}

/// The byte that a one-letter escape stands for.
pub fn unescape_letter(letter: u8) -> (byte: Option<u8>)
    ensures
        byte == simple_escape(letter),
{
    if letter == QUOTE || letter == BACKSLASH || letter == SLASH {
        Some(letter)
    } else if letter == LOWER_B {
        Some(BACKSPACE)
    } else if letter == LOWER_F {
        Some(FORM_FEED)
    } else if letter == LOWER_N {
        Some(LINE_FEED)
    } else if letter == LOWER_R {
        Some(CARRIAGE_RETURN)
    } else if letter == LOWER_T {
        Some(TAB)
    } else {
        None
    }
}

/// Appends what the escape whose letter is at `i` stands for, and gives
/// where the escape ends; leaves `out` as it was where there is no escape.
pub fn scan_escape(bytes: &[u8], i: usize, out: &mut Vec<u8>) -> (end: Option<usize>)
    ensures
        end is Some <==> escape_at(bytes@, i as int) is Some,
        end matches Some(j) ==> {
            &&& escape_at(bytes@, i as int) matches Some((piece, after))
            &&& after == j
            &&& final(out)@ == old(out)@ + piece
            &&& i < j <= bytes.len()
        },
        end is None ==> final(out)@ == old(out)@,
{
    if i >= bytes.len() {
        return None;
    }
    if bytes[i] == LOWER_U {
        match scan_unicode_escape(bytes, i + 1) {
            Some((cp, end)) => {
                push_utf8(out, cp);
                Some(end)
            },
            None => None,
        }
    } else {
        match unescape_letter(bytes[i]) {
            Some(b) => {
                out.push(b);
                assert(final(out)@ =~= old(out)@ + seq![b]);
                Some(i + 1)
            },
            None => None,
        }
    }
}

/// The text of the string that starts at `i`, and where the string ends.
pub fn scan_string(bytes: &[u8], i: usize) -> (found: Option<(Vec<u8>, usize)>)
    ensures
        found is Some <==> string_at(bytes@, i as int) is Some,
        found matches Some((text, end)) ==> {
            &&& string_at(bytes@, i as int) == Some((text@, end as int))
            &&& i < end <= bytes.len()
        },
{
    if i >= bytes.len() || bytes[i] != QUOTE {
        return None;
    }
    let mut text: Vec<u8> = Vec::new();
    let mut j: usize = i + 1;
    loop
        invariant
            i < j <= bytes.len(),
            string_at(bytes@, i as int) == preceded(text@, string_tail(bytes@, j as int)),
        decreases bytes.len() - j,
    {
        if j >= bytes.len() {
            return None;
        }
        let b: u8 = bytes[j];
        if b == QUOTE {
            assert(text@ + Seq::<u8>::empty() =~= text@);
            return Some((text, j + 1));
        } else if b == BACKSLASH {
            let ghost before = text@;
            match scan_escape(bytes, j + 1, &mut text) {
                Some(next) => {
                    proof {
                        let piece = escape_at(bytes@, j + 1).unwrap().0;
                        if let Some((rest, _)) = string_tail(bytes@, next as int) {
                            assert(before + (piece + rest) =~= (before + piece) + rest);
                        }
                    }
                    j = next;
                },
                None => {
                    return None;
                },
            }
        } else if b < 0x20 {
            return None;
        } else {
            proof {
                if let Some((rest, _)) = string_tail(bytes@, j + 1) {
                    assert(text@ + (seq![b] + rest) =~= text@.push(b) + rest);
                }
            }
            text.push(b);
            j += 1;
        }
    }
}

/// Whether the text holds the bytes of `word` from position `i` on.
pub fn word_is(bytes: &[u8], i: usize, word: &[u8]) -> (holds: bool)
    ensures
        holds == has_word(bytes@, i as int, word@),
{
    if word.len() > bytes.len() || i > bytes.len() - word.len() {
        return false;
    }
    let mut k: usize = 0;
    while k < word.len()
        invariant
            k <= word.len(),
            i + word.len() <= bytes.len(),
            forall|n: int| 0 <= n < k ==> bytes@[i + n] == word@[n],
        decreases word.len() - k,
    {
        if bytes[i + k] != word[k] {
            assert(bytes@.subrange(i as int, i + word.len())[k as int] != word@[k as int]);
            return false;
        }
        k += 1;
    }
    assert(bytes@.subrange(i as int, i + word.len()) =~= word@);
    true
}

} // verus!
