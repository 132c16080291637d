//! What holds of the grammar: where its constructs end, and what the
//! values that it finds are made of.

use vstd::prelude::*;
use crate::ascii::{
    is_digit, BACKSLASH, CLOSE_BRACE, CLOSE_BRACKET, COLON, COMMA, DIGIT_0, LOWER_E, MINUS,
    OPEN_BRACE, OPEN_BRACKET, PLUS, POINT, QUOTE, UPPER_E,
};
use crate::json::grammar::{
    digits_end, document, elements_at, escape_at, exponent_end, fraction_end, has_byte, has_digit,
    integer_end, is_number_literal, is_whitespace, members_at, number_end, skip_whitespace,
    string_at, string_tail, value_at, MAX_DEPTH,
};
use crate::json::value::{member, Json};

verus! {

/// Skipping whitespace moves forward and stops inside the text, at a byte
/// that is no whitespace or at the end.
pub proof fn lemma_skip_whitespace(s: Seq<u8>, i: int)
    requires
        0 <= i <= s.len(),
    ensures
        i <= skip_whitespace(s, i) <= s.len(),
        skip_whitespace(s, i) < s.len() ==> !is_whitespace(s[skip_whitespace(s, i)]),
        forall|k: int| i <= k < skip_whitespace(s, i) ==> is_whitespace(#[trigger] s[k]),
    decreases s.len() - i,
{
    if i < s.len() && is_whitespace(s[i]) {
        lemma_skip_whitespace(s, i + 1);
    }
}

/// Skipping digits moves forward and stops inside the text, at a byte that
/// is no digit or at the end.
pub proof fn lemma_digits_end(s: Seq<u8>, i: int)
    requires
        0 <= i <= s.len(),
    ensures
        i <= digits_end(s, i) <= s.len(),
        !has_digit(s, digits_end(s, i)),
        forall|k: int| i <= k < digits_end(s, i) ==> is_digit(#[trigger] s[k]),
    decreases s.len() - i,
{
    if i < s.len() && is_digit(s[i]) {
        lemma_digits_end(s, i + 1);
    }
}

/// A run of digits inside a piece of text is the same run in the piece
/// taken alone.
proof fn lemma_digits_end_in_range(s: Seq<u8>, from: int, to: int, k: int)
    requires
        0 <= from <= k <= to <= s.len(),
        digits_end(s, k) <= to,
    ensures
        digits_end(s.subrange(from, to), k - from) == digits_end(s, k) - from,
    decreases to - k,
{
    let t = s.subrange(from, to);
    if k < s.len() && is_digit(s[k]) {
        lemma_digits_end(s, k + 1);
        assert(k < to);
        assert(t[k - from] == s[k]);
        lemma_digits_end_in_range(s, from, to, k + 1);
    } else {
        if k < to {
            assert(t[k - from] == s[k]);
        }
    }
}

/// An integer part inside a piece of text is the same in the piece taken
/// alone.
proof fn lemma_integer_in_range(s: Seq<u8>, from: int, to: int, a: int)
    requires
        0 <= from <= a <= to <= s.len(),
        integer_end(s, a) is Some,
        integer_end(s, a)->0 <= to,
    ensures
        integer_end(s.subrange(from, to), a - from) == Some(integer_end(s, a)->0 - from),
        a < integer_end(s, a)->0,
{
    let t = s.subrange(from, to);
    lemma_digits_end(s, a);
    assert(a < to);
    assert(t[a - from] == s[a]);
    if s[a] != DIGIT_0 {
        lemma_digits_end_in_range(s, from, to, a);
    }
}

/// A fraction inside a piece of text is the same in the piece taken alone.
proof fn lemma_fraction_in_range(s: Seq<u8>, from: int, to: int, b: int)
    requires
        0 <= from <= b <= to <= s.len(),
        fraction_end(s, b) is Some,
        fraction_end(s, b)->0 <= to,
    ensures
        fraction_end(s.subrange(from, to), b - from) == Some(fraction_end(s, b)->0 - from),
        b <= fraction_end(s, b)->0,
{
    let t = s.subrange(from, to);
    if has_byte(s, b, POINT) {
        lemma_digits_end(s, b + 1);
        assert(b + 1 < to);
        assert(t[b - from] == s[b]);
        assert(t[b + 1 - from] == s[b + 1]);
        lemma_digits_end_in_range(s, from, to, b + 1);
    } else {
        if b < to {
            assert(t[b - from] == s[b]);
        }
    }
}

/// An exponent inside a piece of text is the same in the piece taken alone.
proof fn lemma_exponent_in_range(s: Seq<u8>, from: int, to: int, c: int)
    requires
        0 <= from <= c <= to <= s.len(),
        exponent_end(s, c) is Some,
        exponent_end(s, c)->0 <= to,
    ensures
        exponent_end(s.subrange(from, to), c - from) == Some(exponent_end(s, c)->0 - from),
        c <= exponent_end(s, c)->0,
{
    let t = s.subrange(from, to);
    if has_byte(s, c, LOWER_E) || has_byte(s, c, UPPER_E) {
        let d = if has_byte(s, c + 1, PLUS) || has_byte(s, c + 1, MINUS) {
            c + 2
        } else {
            c + 1
        };
        lemma_digits_end(s, d);
        assert(d < to);
        assert(t[c - from] == s[c]);
        assert(t[c + 1 - from] == s[c + 1]);
        assert(t[d - from] == s[d]);
        lemma_digits_end_in_range(s, from, to, d);
    } else {
        if c < to {
            assert(t[c - from] == s[c]);
        }
    }
}

/// A number ends after it starts, and inside the text.
pub proof fn lemma_number_end(s: Seq<u8>, from: int)
    requires
        0 <= from <= s.len(),
        number_end(s, from) is Some,
    ensures
        from < number_end(s, from)->0 <= s.len(),
{
    let a = if has_byte(s, from, MINUS) {
        from + 1
    } else {
        from
    };
    lemma_digits_end(s, a);
    let b = integer_end(s, a)->0;
    if has_digit(s, b + 1) {
        lemma_digits_end(s, b + 1);
    }
    let c = fraction_end(s, b)->0;
    let d = if has_byte(s, c + 1, PLUS) || has_byte(s, c + 1, MINUS) {
        c + 2
    } else {
        c + 1
    };
    if has_digit(s, d) {
        lemma_digits_end(s, d);
    }
}

/// The bytes of a number found inside a text are a number when taken alone.
#[verifier::rlimit(30)]
pub proof fn lemma_number_in_range(s: Seq<u8>, from: int)
    requires
        0 <= from <= s.len(),
        number_end(s, from) is Some,
    ensures
        from < number_end(s, from)->0 <= s.len(),
        is_number_literal(s.subrange(from, number_end(s, from)->0)),
{
    lemma_number_end(s, from);
    let to = number_end(s, from)->0;
    let t = s.subrange(from, to);
    let a = if has_byte(s, from, MINUS) {
        from + 1
    } else {
        from
    };
    let b = integer_end(s, a)->0;
    let c = fraction_end(s, b)->0;
    lemma_digits_end(s, a);
    if has_digit(s, b + 1) {
        lemma_digits_end(s, b + 1);
    }
    let d = if has_byte(s, c + 1, PLUS) || has_byte(s, c + 1, MINUS) {
        c + 2
    } else {
        c + 1
    };
    if has_digit(s, d) {
        lemma_digits_end(s, d);
    }
    assert(from <= a <= b <= c <= to);
    assert(t[0] == s[from]);
    assert(has_byte(t, 0, MINUS) == has_byte(s, from, MINUS));
    lemma_integer_in_range(s, from, to, a);
    lemma_fraction_in_range(s, from, to, b);
    lemma_exponent_in_range(s, from, to, c);
}

/// An escape ends after it starts, and inside the text.
pub proof fn lemma_escape_end(s: Seq<u8>, i: int)
    requires
        0 <= i,
    ensures
        escape_at(s, i) matches Some((_, end)) ==> i < end <= s.len(),
{
}

/// A string ends after it starts, and inside the text.
pub proof fn lemma_string_end(s: Seq<u8>, i: int)
    requires
        0 <= i,
    ensures
        string_tail(s, i) matches Some((_, end)) ==> i < end <= s.len(),
    decreases s.len() - i,
{
    if i < s.len() && s[i] != QUOTE {
        if s[i] == BACKSLASH {
            lemma_escape_end(s, i + 1);
            if let Some((_, next)) = escape_at(s, i + 1) {
                lemma_string_end(s, next);
            }
        } else {
            lemma_string_end(s, i + 1);
        }
    }
}

/// A value ends after it starts, and inside the text.
pub proof fn lemma_value_end(s: Seq<u8>, i: int, depth: nat)
    ensures
        value_at(s, i, depth) matches Some((_, end)) ==> i < end <= s.len(),
    decreases depth, 0int,
{
    if 0 <= i < s.len() {
        lemma_skip_whitespace(s, i + 1);
        let first = skip_whitespace(s, i + 1);
        if s[i] == QUOTE {
            lemma_string_end(s, i + 1);
        } else if s[i] == OPEN_BRACKET {
            if depth > 0 {
                lemma_elements_end(s, first, (depth - 1) as nat);
            }
        } else if s[i] == OPEN_BRACE {
            if depth > 0 {
                lemma_members_end(s, first, (depth - 1) as nat);
            }
        } else if number_end(s, i) is Some {
            lemma_number_end(s, i);
        }
    }
}

/// The elements of an array end after they start, and inside the text.
pub proof fn lemma_elements_end(s: Seq<u8>, i: int, depth: nat)
    ensures
        elements_at(s, i, depth) matches Some((_, end)) ==> i < end <= s.len(),
    decreases depth, 1 + s.len() - i,
{
    if 0 <= i < s.len() {
        lemma_value_end(s, i, depth);
        if let Some((_, end)) = value_at(s, i, depth) {
            lemma_skip_whitespace(s, end);
            let mark = skip_whitespace(s, end);
            if has_byte(s, mark, COMMA) {
                lemma_skip_whitespace(s, mark + 1);
                lemma_elements_end(s, skip_whitespace(s, mark + 1), depth);
            }
        }
    }
}

/// The members of an object end after they start, and inside the text.
pub proof fn lemma_members_end(s: Seq<u8>, i: int, depth: nat)
    ensures
        members_at(s, i, depth) matches Some((_, end)) ==> i < end <= s.len(),
    decreases depth, 1 + s.len() - i,
{
    if 0 <= i < s.len() {
        lemma_string_end(s, i + 1);
        if let Some((_, name_end)) = string_at(s, i) {
            lemma_skip_whitespace(s, name_end);
            let colon = skip_whitespace(s, name_end);
            if has_byte(s, colon, COLON) {
                lemma_skip_whitespace(s, colon + 1);
                let start = skip_whitespace(s, colon + 1);
                lemma_value_end(s, start, depth);
                if let Some((_, end)) = value_at(s, start, depth) {
                    lemma_skip_whitespace(s, end);
                    let mark = skip_whitespace(s, end);
                    if has_byte(s, mark, COMMA) {
                        lemma_skip_whitespace(s, mark + 1);
                        lemma_members_end(s, skip_whitespace(s, mark + 1), depth);
                    }
                }
            }
        }
    }
}

/// Reading goes forward: after a value and a comma, the next element or
/// member starts further on, and after an escape, so does the rest of the
/// string. The grammar asks for this where it reads on; it never fails for
/// want of it.
pub proof fn lemma_reading_goes_forward(s: Seq<u8>, i: int, depth: nat)
    requires
        0 <= i,
    ensures
        value_at(s, i, depth) matches Some((_, end)) ==> has_byte(
            s,
            skip_whitespace(s, end),
            COMMA,
        ) ==> i < skip_whitespace(s, skip_whitespace(s, end) + 1) <= s.len(),
        escape_at(s, i + 1) matches Some((_, next)) ==> i < next,
{
    lemma_value_end(s, i, depth);
    lemma_escape_end(s, i + 1);
    if let Some((_, end)) = value_at(s, i, depth) {
        lemma_skip_whitespace(s, end);
        let mark = skip_whitespace(s, end);
        if has_byte(s, mark, COMMA) {
            lemma_skip_whitespace(s, mark + 1);
        }
    }
}

impl Json {
    /// Every number in the value is a number literal of the grammar.
    pub open spec fn numbers_are_literals(self) -> bool
        decreases self,
    {
        match self {
            Json::Number(literal) => is_number_literal(literal),
            Json::Array(items) => forall|i: int|
                0 <= i < items.len() ==> (#[trigger] items[i]).numbers_are_literals(),
            Json::Object(members) => forall|i: int|
                0 <= i < members.len() ==> (#[trigger] members[i]).1.numbers_are_literals(),
            _ => true,
        }
    }
}

/// The numbers of a value that the grammar finds are number literals.
pub proof fn lemma_value_numbers(s: Seq<u8>, i: int, depth: nat)
    ensures
        value_at(s, i, depth) matches Some((value, _)) ==> value.numbers_are_literals(),
    decreases depth, 0int,
{
    if 0 <= i < s.len() {
        if s[i] == OPEN_BRACKET && depth > 0 {
            lemma_elements_numbers(s, skip_whitespace(s, i + 1), (depth - 1) as nat);
        } else if s[i] == OPEN_BRACE && depth > 0 {
            lemma_members_numbers(s, skip_whitespace(s, i + 1), (depth - 1) as nat);
        } else if number_end(s, i) is Some {
            lemma_number_in_range(s, i);
        }
    }
}

/// The numbers of the elements that the grammar finds are number literals.
pub proof fn lemma_elements_numbers(s: Seq<u8>, i: int, depth: nat)
    ensures
        elements_at(s, i, depth) matches Some((items, _)) ==> Json::Array(
            items,
        ).numbers_are_literals(),
    decreases depth, 1 + s.len() - i,
{
    if 0 <= i < s.len() {
        lemma_value_numbers(s, i, depth);
        if let Some((item, end)) = value_at(s, i, depth) {
            let mark = skip_whitespace(s, end);
            let next = skip_whitespace(s, mark + 1);
            if !has_byte(s, mark, CLOSE_BRACKET) && has_byte(
                s,
                mark,
                COMMA,
            ) && i < next <= s.len() {
                lemma_elements_numbers(s, next, depth);
                if let Some((rest, _)) = elements_at(s, next, depth) {
                    let all = seq![item] + rest;
                    assert(item.numbers_are_literals());
                    assert(Json::Array(rest).numbers_are_literals());
                    assert forall|k: int| 0 <= k < all.len() implies (
                    #[trigger] all[k]).numbers_are_literals() by {
                        if k > 0 {
                            assert(all[k] == rest[k - 1]);
                            assert(Json::Array(rest)->Array_0 == rest);
                        } else {
                            assert(all[k] == item);
                        }
                    }
                }
            }
        }
    }
}

/// The numbers of the members that the grammar finds are number literals.
pub proof fn lemma_members_numbers(s: Seq<u8>, i: int, depth: nat)
    ensures
        members_at(s, i, depth) matches Some((members, _)) ==> Json::Object(
            members,
        ).numbers_are_literals(),
    decreases depth, 1 + s.len() - i,
{
    if 0 <= i < s.len() {
        if let Some((name, name_end)) = string_at(s, i) {
            let colon = skip_whitespace(s, name_end);
            if has_byte(s, colon, COLON) {
                let start = skip_whitespace(s, colon + 1);
                lemma_value_numbers(s, start, depth);
                if let Some((item, end)) = value_at(s, start, depth) {
                    let mark = skip_whitespace(s, end);
                    let next = skip_whitespace(s, mark + 1);
                    if !has_byte(s, mark, CLOSE_BRACE) && has_byte(
                        s,
                        mark,
                        COMMA,
                    ) && i < next <= s.len() {
                        lemma_members_numbers(s, next, depth);
                        if let Some((rest, _)) = members_at(s, next, depth) {
                            let all = seq![(name, item)] + rest;
                            assert(item.numbers_are_literals());
                            assert(Json::Object(rest).numbers_are_literals());
                            assert forall|k: int| 0 <= k < all.len() implies (
                            #[trigger] all[k]).1.numbers_are_literals() by {
                                if k > 0 {
                                    assert(all[k] == rest[k - 1]);
                                    assert(Json::Object(rest)->Object_0 == rest);
                                } else {
                                    assert(all[k] == (name, item));
                                }
                            }
                        }
                    }
                }
            }
        }
    }
}

/// The numbers of a document are number literals.
pub proof fn lemma_document_numbers(s: Seq<u8>)
    ensures
        document(s) matches Some(value) ==> value.numbers_are_literals(),
{
    lemma_value_numbers(s, skip_whitespace(s, 0), MAX_DEPTH as nat);
}

/// What stands under a name in an object whose numbers are number literals
/// has only such numbers too.
pub proof fn lemma_member_numbers(object: Json, name: Seq<u8>)
    requires
        object.numbers_are_literals(),
    ensures
        object.get(name) matches Some(value) ==> value.numbers_are_literals(),
{
    if let Json::Object(members) = object {
        lemma_found_member(members, name);
    }
}

/// The value found under a name is that of one of the members.
pub proof fn lemma_found_member(members: Seq<(Seq<u8>, Json)>, name: Seq<u8>)
    ensures
        member(members, name) matches Some(value) ==> exists|k: int|
            0 <= k < members.len() && (#[trigger] members[k]) == (name, value),
    decreases members.len(),
{
    if members.len() > 0 {
        if members.last().0 == name {
            assert(members[members.len() - 1] == (name, members.last().1));
        } else {
            lemma_found_member(members.drop_last(), name);
            if let Some(value) = member(members.drop_last(), name) {
                let k = choose|k: int|
                    0 <= k < members.drop_last().len() && (#[trigger] members.drop_last()[k]) == (
                        name,
                        value,
                    );
                assert(members[k] == (name, value));
            }
        }
    }
}

} // verus!
