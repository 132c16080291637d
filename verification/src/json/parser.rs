//! The parser: JSON text to a tree, proved against the grammar.

use vstd::prelude::*;
use crate::ascii::{
    CLOSE_BRACE, CLOSE_BRACKET, COLON, COMMA, LOWER_A, LOWER_E, LOWER_F, LOWER_L, LOWER_N, LOWER_R,
    LOWER_S, LOWER_T, LOWER_U, OPEN_BRACE, OPEN_BRACKET, QUOTE,
};
use crate::decimal::Decimal;
use crate::json::grammar::{
    document, elements_at, members_at, preceded, value_at, word_false, word_null, word_true,
    MAX_DEPTH,
};
use crate::json::scanner::{after_whitespace, byte_is, scan_number, scan_string, word_is};
use crate::json::value::{
    item_views, lemma_array_view, lemma_object_view, member_views, Json, JsonMember, JsonValue,
};

verus! {

/// What was read is what the grammar finds.
pub open spec fn reads_as(
    found: Option<(JsonValue, usize)>,
    expected: Option<(Json, int)>,
) -> bool {
    match found {
        Some((value, end)) => expected == Some((value@, end as int)),
        None => expected is None,
    }
}

/// Reads the value that starts at `i`.
pub fn parse_value(bytes: &[u8], i: usize, depth: usize) -> (found: Option<(JsonValue, usize)>)
    ensures
        reads_as(found, value_at(bytes@, i as int, depth as nat)),
        found matches Some((_, end)) ==> i < end <= bytes.len(),
    decreases depth, 0int,
{
    if i >= bytes.len() {
        return None;
    }
    let b: u8 = bytes[i];
    if b == QUOTE {
        match scan_string(bytes, i) {
            Some((text, end)) => Some((JsonValue::Text(text), end)),
            None => None,
        }
    } else if b == OPEN_BRACKET {
        let first: usize = after_whitespace(bytes, i + 1);
        if depth == 0 {
            None
        } else if byte_is(bytes, first, CLOSE_BRACKET) {
            let items: Vec<JsonValue> = Vec::new();
            proof {
                lemma_array_view(items);
                assert(item_views(items@) =~= Seq::<Json>::empty());
            }
            Some((JsonValue::Array(items), first + 1))
        } else {
            match parse_elements(bytes, first, depth - 1) {
                Some((items, end)) => {
                    proof {
                        lemma_array_view(items);
                    }
                    Some((JsonValue::Array(items), end))
                },
                None => None,
            }
        }
    } else if b == OPEN_BRACE {
        let first: usize = after_whitespace(bytes, i + 1);
        if depth == 0 {
            None
        } else if byte_is(bytes, first, CLOSE_BRACE) {
            let members: Vec<JsonMember> = Vec::new();
            proof {
                lemma_object_view(members);
                assert(member_views(members@) =~= Seq::<(Seq<u8>, Json)>::empty());
            }
            Some((JsonValue::Object(members), first + 1))
        } else {
            match parse_members(bytes, first, depth - 1) {
                Some((members, end)) => {
                    proof {
                        lemma_object_view(members);
                    }
                    Some((JsonValue::Object(members), end))
                },
                None => None,
            }
        }
    } else if b == LOWER_T {
        let word: [u8; 4] = [LOWER_T, LOWER_R, LOWER_U, LOWER_E];
        assert(word@ =~= word_true());
        if word_is(bytes, i, word.as_slice()) {
            Some((JsonValue::Bool(true), i + 4))
        } else {
            None
        }
    } else if b == LOWER_F {
        let word: [u8; 5] = [LOWER_F, LOWER_A, LOWER_L, LOWER_S, LOWER_E];
        assert(word@ =~= word_false());
        if word_is(bytes, i, word.as_slice()) {
            Some((JsonValue::Bool(false), i + 5))
        } else {
            None
        }
    } else if b == LOWER_N {
        let word: [u8; 4] = [LOWER_N, LOWER_U, LOWER_L, LOWER_L];
        assert(word@ =~= word_null());
        if word_is(bytes, i, word.as_slice()) {
            Some((JsonValue::Null, i + 4))
        } else {
            None
        }
    } else {
        match scan_number(bytes, i) {
            Some(end) => Some((JsonValue::Number(Decimal::from_range(bytes, i, end)), end)),
            None => None,
        }
    }
}

/// Reads the elements of an array from the element that starts at `first`
/// up to the closing bracket.
pub fn parse_elements(bytes: &[u8], first: usize, depth: usize) -> (found: Option<
    (Vec<JsonValue>, usize),
>)
    ensures
        found is Some <==> elements_at(bytes@, first as int, depth as nat) is Some,
        found matches Some((items, end)) ==> {
            &&& elements_at(bytes@, first as int, depth as nat) == Some(
                (item_views(items@), end as int),
            )
            &&& first < end <= bytes.len()
        },
    decreases depth, 1int,
{
    let mut items: Vec<JsonValue> = Vec::new();
    let mut cur: usize = first;
    proof {
        assert(item_views(items@) =~= Seq::<Json>::empty());
        if let Some((all, _)) = elements_at(bytes@, first as int, depth as nat) {
            assert(Seq::<Json>::empty() + all =~= all);
        }
    }
    loop
        invariant
            first <= cur,
            elements_at(bytes@, first as int, depth as nat) == preceded(
                item_views(items@),
                elements_at(bytes@, cur as int, depth as nat),
            ),
        decreases bytes.len() - cur,
    {
        let (item, end) = match parse_value(bytes, cur, depth) {
            Some(read) => read,
            None => {
                return None;
            },
        };
        let mark: usize = after_whitespace(bytes, end);
        let ghost before = item_views(items@);
        if byte_is(bytes, mark, CLOSE_BRACKET) {
            items.push(item);
            assert(item_views(items@) =~= before + seq![item@]);
            return Some((items, mark + 1));
        } else if byte_is(bytes, mark, COMMA) {
            let next: usize = after_whitespace(bytes, mark + 1);
            proof {
                if let Some((rest, _)) = elements_at(bytes@, next as int, depth as nat) {
                    assert(before + (seq![item@] + rest) =~= (before + seq![item@]) + rest);
                }
            }
            items.push(item);
            assert(item_views(items@) =~= before + seq![item@]);
            cur = next;
        } else {
            return None;
        }
    }
}

/// Reads the members of an object from the member whose name starts at
/// `first` up to the closing brace.
pub fn parse_members(bytes: &[u8], first: usize, depth: usize) -> (found: Option<
    (Vec<JsonMember>, usize),
>)
    ensures
        found is Some <==> members_at(bytes@, first as int, depth as nat) is Some,
        found matches Some((members, end)) ==> {
            &&& members_at(bytes@, first as int, depth as nat) == Some(
                (member_views(members@), end as int),
            )
            &&& first < end <= bytes.len()
        },
    decreases depth, 1int,
{
    let mut members: Vec<JsonMember> = Vec::new();
    let mut cur: usize = first;
    proof {
        assert(member_views(members@) =~= Seq::<(Seq<u8>, Json)>::empty());
        if let Some((all, _)) = members_at(bytes@, first as int, depth as nat) {
            assert(Seq::<(Seq<u8>, Json)>::empty() + all =~= all);
        }
    }
    loop
        invariant
            first <= cur,
            members_at(bytes@, first as int, depth as nat) == preceded(
                member_views(members@),
                members_at(bytes@, cur as int, depth as nat),
            ),
        decreases bytes.len() - cur,
    {
        let (name, name_end) = match scan_string(bytes, cur) {
            Some(read) => read,
            None => {
                return None;
            },
        };
        let colon: usize = after_whitespace(bytes, name_end);
        if !byte_is(bytes, colon, COLON) {
            return None;
        }
        let start: usize = after_whitespace(bytes, colon + 1);
        let (item, end) = match parse_value(bytes, start, depth) {
            Some(read) => read,
            None => {
                return None;
            },
        };
        let mark: usize = after_whitespace(bytes, end);
        let ghost before = member_views(members@);
        let ghost member = (name@, item@);
        if byte_is(bytes, mark, CLOSE_BRACE) {
            members.push(JsonMember { name, value: item });
            assert(member_views(members@) =~= before + seq![member]);
            return Some((members, mark + 1));
        } else if byte_is(bytes, mark, COMMA) {
            let next: usize = after_whitespace(bytes, mark + 1);
            proof {
                if let Some((rest, _)) = members_at(bytes@, next as int, depth as nat) {
                    assert(before + (seq![member] + rest) =~= (before + seq![member]) + rest);
                }
            }
            members.push(JsonMember { name, value: item });
            assert(member_views(members@) =~= before + seq![member]);
            cur = next;
        } else {
            return None;
        }
    }
}

/// Reads the one value that the whole text holds.
pub fn parse_document(bytes: &[u8]) -> (found: Option<JsonValue>)
    ensures
        found is Some <==> document(bytes@) is Some,
        found matches Some(value) ==> document(bytes@) == Some(value@),
{
    let start: usize = after_whitespace(bytes, 0);
    match parse_value(bytes, start, MAX_DEPTH) {
        Some((value, end)) => {
            if after_whitespace(bytes, end) == bytes.len() {
                Some(value)
            } else {
                None
            }
        },
        None => None,
    }
}

} // verus!
