//! Texts in their plainest form, without whitespace or escapes, and what
//! the grammar finds in them.

use vstd::prelude::*;
use crate::ascii::{
    is_digit, BACKSLASH, CLOSE_BRACE, COLON, COMMA, LOWER_E, MINUS, OPEN_BRACE, PLUS, POINT, QUOTE,
    UPPER_E,
};
use crate::json::grammar::{
    digits_end, document, exponent_end, fraction_end, has_byte, has_digit, has_word, integer_end,
    is_number_literal, is_whitespace, members_at, number_end, preceded, skip_whitespace, string_at,
    string_tail, value_at, MAX_DEPTH,
};
use crate::json::lemmas::lemma_digits_end;
use crate::json::value::{member, Json};

verus! {

/// A text that needs no escape: no quote, no backslash, no control byte.
pub open spec fn is_plain_text(t: Seq<u8>) -> bool {
    forall|k: int|
        0 <= k < t.len() ==> #[trigger] t[k] >= 0x20 && t[k] != QUOTE && t[k] != BACKSLASH
}

/// The byte at `i`, if there is one, cannot continue a number.
pub open spec fn ends_number(s: Seq<u8>, i: int) -> bool {
    !has_digit(s, i) && !has_byte(s, i, POINT) && !has_byte(s, i, LOWER_E) && !has_byte(
        s,
        i,
        UPPER_E,
    )
}

/// A run of digits in a piece of text, taken alone, is the same run inside
/// the text, where no digit follows the piece.
proof fn lemma_digits_end_embedded(s: Seq<u8>, from: int, to: int, k: int)
    requires
        0 <= from <= k <= to <= s.len(),
        !has_digit(s, to),
    ensures
        digits_end(s, k) == from + digits_end(s.subrange(from, to), k - from),
    decreases to - k,
{
    let t = s.subrange(from, to);
    if k < to {
        assert(t[k - from] == s[k]);
        if is_digit(s[k]) {
            lemma_digits_end_embedded(s, from, to, k + 1);
        }
    }
}

/// A number literal that stands in a text, followed by nothing that could
/// continue it, is the number that the grammar finds there.
#[verifier::rlimit(30)]
pub proof fn lemma_number_embedded(s: Seq<u8>, from: int, to: int)
    requires
        0 <= from <= to <= s.len(),
        is_number_literal(s.subrange(from, to)),
        ends_number(s, to),
    ensures
        number_end(s, from) == Some(to),
        from < to,
        s[from] == MINUS || is_digit(s[from]),
{
    let t = s.subrange(from, to);
    assert(forall|k: int| 0 <= k < t.len() ==> t[k] == s[from + k]);
    let a = if has_byte(t, 0, MINUS) {
        1int
    } else {
        0int
    };
    lemma_digits_end(t, a);
    let b = integer_end(t, a)->0;
    if has_digit(t, b + 1) {
        lemma_digits_end(t, b + 1);
    }
    let c = fraction_end(t, b)->0;
    let d = if has_byte(t, c + 1, PLUS) || has_byte(t, c + 1, MINUS) {
        c + 2
    } else {
        c + 1
    };
    if has_digit(t, d) {
        lemma_digits_end(t, d);
    }
    assert(0 <= a < b <= c <= t.len());
    assert(has_byte(s, from, MINUS) == has_byte(t, 0, MINUS));
    // The integer part.
    assert(has_digit(s, from + a));
    lemma_digits_end_embedded(s, from, to, from + a);
    assert(integer_end(s, from + a) == Some(from + b));
    // The fraction.
    if has_byte(t, b, POINT) {
        assert(has_byte(s, from + b, POINT));
        assert(has_digit(s, from + b + 1));
        lemma_digits_end_embedded(s, from, to, from + b + 1);
    } else {
        assert(!has_byte(s, from + b, POINT));
    }
    assert(fraction_end(s, from + b) == Some(from + c));
    // The exponent.
    if has_byte(t, c, LOWER_E) || has_byte(t, c, UPPER_E) {
        assert(has_byte(s, from + c, LOWER_E) || has_byte(s, from + c, UPPER_E));
        assert(has_byte(s, from + c + 1, PLUS) == has_byte(t, c + 1, PLUS));
        assert(has_byte(s, from + c + 1, MINUS) == has_byte(t, c + 1, MINUS));
        assert(has_digit(s, from + d));
        lemma_digits_end_embedded(s, from, to, from + d);
    } else {
        assert(!has_byte(s, from + c, LOWER_E) && !has_byte(s, from + c, UPPER_E));
    }
    assert(exponent_end(s, from + c) == Some(to));
}

/// A number literal that stands in a text, followed by nothing that could
/// continue it, is the value that the grammar finds there.
pub proof fn lemma_number_value(s: Seq<u8>, from: int, to: int, depth: nat)
    requires
        0 <= from <= to <= s.len(),
        is_number_literal(s.subrange(from, to)),
        ends_number(s, to),
    ensures
        value_at(s, from, depth) == Some((Json::Number(s.subrange(from, to)), to)),
{
    lemma_number_embedded(s, from, to);
}

/// Plain text up to a quote is what a string holds from there on.
proof fn lemma_string_tail_plain(s: Seq<u8>, from: int, to: int)
    requires
        0 <= from <= to < s.len(),
        is_plain_text(s.subrange(from, to)),
        s[to] == QUOTE,
    ensures
        string_tail(s, from) == Some((s.subrange(from, to), to + 1)),
    decreases to - from,
{
    let t = s.subrange(from, to);
    if from < to {
        assert(t[0] == s[from]);
        let rest = s.subrange(from + 1, to);
        assert forall|k: int| 0 <= k < rest.len() implies #[trigger] rest[k] >= 0x20 && rest[k]
            != QUOTE && rest[k] != BACKSLASH by {
            assert(rest[k] == t[k + 1]);
        }
        lemma_string_tail_plain(s, from + 1, to);
        assert(seq![s[from]] + rest =~= t);
    } else {
        assert(t =~= Seq::<u8>::empty());
    }
}

/// Plain text between quotes is the string that the grammar finds there.
pub proof fn lemma_string_plain(s: Seq<u8>, from: int, text: Seq<u8>)
    requires
        is_plain_text(text),
        has_byte(s, from, QUOTE),
        has_word(s, from + 1, text),
        has_byte(s, from + 1 + text.len(), QUOTE),
    ensures
        string_at(s, from) == Some((text, from + text.len() + 2)),
{
    lemma_string_tail_plain(s, from + 1, from + 1 + text.len());
}

/// Plain text between quotes is the value that the grammar finds there.
pub proof fn lemma_text_value(s: Seq<u8>, from: int, text: Seq<u8>, depth: nat)
    requires
        is_plain_text(text),
        has_byte(s, from, QUOTE),
        has_word(s, from + 1, text),
        has_byte(s, from + 1 + text.len(), QUOTE),
    ensures
        value_at(s, from, depth) == Some((Json::Text(text), from + text.len() + 2)),
{
    lemma_string_plain(s, from, text);
}

/// A text between quotes.
pub open spec fn quoted(text: Seq<u8>) -> Seq<u8> {
    seq![QUOTE] + text + seq![QUOTE]
}

/// Whitespace is skipped up to the first byte that is none.
pub proof fn lemma_no_whitespace(s: Seq<u8>, i: int)
    requires
        !(0 <= i < s.len()) || !is_whitespace(s[i]),
    ensures
        skip_whitespace(s, i) == i,
{
}

/// `s` holds at `i` a plain name between quotes and a colon, and `after` is
/// where the member's value starts.
pub open spec fn has_name(s: Seq<u8>, i: int, name: Seq<u8>, after: int) -> bool {
    &&& is_plain_text(name)
    &&& has_byte(s, i, QUOTE)
    &&& has_word(s, i + 1, name)
    &&& has_byte(s, i + 1 + name.len(), QUOTE)
    &&& has_byte(s, i + 2 + name.len(), COLON)
    &&& after == i + 3 + name.len()
}

/// A byte that closes an object or goes on to its next member.
pub open spec fn is_member_end(b: u8) -> bool {
    b == COMMA || b == CLOSE_BRACE
}

/// The member that starts at `i` with a plain name, whose value starts at
/// `start` and ends at `end`: the last of its object where a brace
/// follows, and followed by the members from `end + 1` on where a comma and
/// a quote do.
pub proof fn lemma_member(
    s: Seq<u8>,
    i: int,
    depth: nat,
    name: Seq<u8>,
    start: int,
    item: Json,
    end: int,
)
    requires
        has_name(s, i, name, start),
        value_at(s, start, depth) == Some((item, end)),
        start < end < s.len(),
        is_member_end(s[end]),
        s[end] == COMMA ==> has_byte(s, end + 1, QUOTE),
    ensures
        s[end] == CLOSE_BRACE ==> members_at(s, i, depth) == Some((seq![(name, item)], end + 1)),
        s[end] == COMMA ==> members_at(s, i, depth) == preceded(
            seq![(name, item)],
            members_at(s, end + 1, depth),
        ),
{
    lemma_string_plain(s, i, name);
    let colon = start - 1;
    lemma_no_whitespace(s, colon);
    assert(0 <= start < s.len());
    assert(!is_whitespace(s[start])) by {
        if is_whitespace(s[start]) {
            assert(value_at(s, start, depth) is None);
        }
    }
    lemma_no_whitespace(s, start);
    lemma_no_whitespace(s, end);
    if s[end] == COMMA {
        lemma_no_whitespace(s, end + 1);
    }
}

/// The object that starts at `i` with a brace and goes on at once with its
/// members, which end at `end`.
pub proof fn lemma_object(s: Seq<u8>, i: int, depth: nat, members: Seq<(Seq<u8>, Json)>, end: int)
    requires
        depth > 0,
        has_byte(s, i, OPEN_BRACE),
        has_byte(s, i + 1, QUOTE),
        members_at(s, i + 1, (depth - 1) as nat) == Some((members, end)),
    ensures
        value_at(s, i, depth) == Some((Json::Object(members), end)),
{
    lemma_no_whitespace(s, i + 1);
}

/// The text that is one value from its first byte to its last is the
/// document of that value.
pub proof fn lemma_whole_document(s: Seq<u8>, value: Json)
    requires
        value_at(s, 0, MAX_DEPTH as nat) == Some((value, s.len() as int)),
    ensures
        document(s) == Some(value),
{
    assert(s.len() > 0);
    assert(!is_whitespace(s[0])) by {
        if is_whitespace(s[0]) {
            assert(value_at(s, 0, MAX_DEPTH as nat) is None);
        }
    }
    lemma_no_whitespace(s, 0);
    lemma_no_whitespace(s, s.len() as int);
}

/// What stands under the name of the last member is its value.
pub proof fn lemma_member_last(members: Seq<(Seq<u8>, Json)>, name: Seq<u8>, value: Json)
    ensures
        member(members.push((name, value)), name) == Some(value),
{
    assert(members.push((name, value)).last() == (name, value));
}

/// What stands under a name is not touched by a later member of another
/// name.
pub proof fn lemma_member_earlier(
    members: Seq<(Seq<u8>, Json)>,
    name: Seq<u8>,
    other: Seq<u8>,
    value: Json,
)
    requires
        name != other,
    ensures
        member(members.push((other, value)), name) == member(members, name),
{
    assert(members.push((other, value)).last() == (other, value));
    assert(members.push((other, value)).drop_last() =~= members);
}

} // verus!
