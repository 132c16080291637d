//! The current price of an asset: the request and the decoding of the
//! response.

use vstd::prelude::*;
use vstd::string::StringExecFns;
use vstd::string::StringSliceAdditionalSpecFns;
use vstd::utf8::is_ascii_chars_encode_utf8;
use crate::ascii::{CLOSE_BRACE, COLON, COMMA, OPEN_BRACE};
use crate::json::grammar::{document, has_byte, is_number_literal, members_at, MAX_DEPTH};
use crate::json::lemmas::{lemma_document_numbers, lemma_member_numbers};
use crate::json::plain::{
    has_name, is_plain_text, lemma_member, lemma_member_earlier, lemma_member_last,
    lemma_number_embedded, lemma_number_value, lemma_object, lemma_whole_document, quoted,
};
use crate::json::parser::parse_document;
use crate::json::value::{Json, JsonValue};
use crate::quote::{
    decoded_as, lemma_number_under, number_field, number_under, ParseError, PriceQuoteResult, Quote,
};

verus! {

/// The address that answers with the current price of `asset`.
pub open spec fn current_url(asset: Seq<char>) -> Seq<char> {
    "https://api.coingecko.com/api/v3/simple/price?ids="@ + asset
        + "&vs_currencies=usd&include_24hr_change=true"@
}

/// Builds the address that answers with the current price of `asset`.
pub fn build_url(asset: &str) -> (url: String)
    ensures
        url@ == current_url(asset@),
{
    let mut url = String::from_str("https://api.coingecko.com/api/v3/simple/price?ids=");
    url.append(asset);
    url.append("&vs_currencies=usd&include_24hr_change=true");
    url
}

/// The quote that a response to a current-price request holds for `asset`.
///
/// A response that is no JSON object is malformed. An object without a
/// member named as the asset tells that the service does not know the asset.
/// The member must hold the price under `usd` and the change under
/// `usd_24h_change`, both as numbers.
pub open spec fn current_quote(body: Seq<u8>, asset: Seq<u8>) -> Result<Quote, ParseError> {
    match document(body) {
        Some(Json::Object(members)) => match Json::Object(members).get(asset) {
            None => Err(ParseError::Lookup),
            Some(entry) => match (
                number_under(entry, "usd".spec_bytes()),
                number_under(entry, "usd_24h_change".spec_bytes()),
            ) {
                (Some(price), Some(change_24h)) => Ok(Quote::Current { price, change_24h }),
                _ => Err(ParseError::Malformed),
            },
        },
        _ => Err(ParseError::Malformed),
    }
}

/// Decodes the response to a current-price request for `asset`.
pub fn parse_api_response(body: &str, asset: &str) -> (found: Result<PriceQuoteResult, ParseError>)
    ensures
        decoded_as(found, current_quote(body.spec_bytes(), asset.spec_bytes())),
        found matches Ok(quote) ==> quote is Current && quote@.is_sound(),
{
    proof {
        lemma_current_quote_sound(body.spec_bytes(), asset.spec_bytes());
    }
    let doc = match parse_document(body.as_bytes()) {
        Some(doc) => doc,
        None => {
            return Err(ParseError::Malformed);
        },
    };
    match &doc {
        JsonValue::Object(_) => {},
        _ => {
            return Err(ParseError::Malformed);
        },
    }
    let entry = match doc.get(asset.as_bytes()) {
        Some(entry) => entry,
        None => {
            return Err(ParseError::Lookup);
        },
    };
    match (number_field(entry, "usd"), number_field(entry, "usd_24h_change")) {
        (Some(price), Some(change)) => Ok(
            PriceQuoteResult::Current { price: price.clone(), change_24h: change.clone() },
        ),
        _ => Err(ParseError::Malformed),
    }
}

/// A response that holds, under the asset's name, a price and a change as
/// numbers is decoded to exactly those two numbers, as they are written.
pub proof fn lemma_current_quote_exact(
    body: Seq<u8>,
    asset: Seq<u8>,
    doc: Json,
    entry: Json,
    price: Seq<u8>,
    change_24h: Seq<u8>,
)
    requires
        document(body) == Some(doc),
        doc is Object,
        doc.get(asset) == Some(entry),
        entry.get("usd".spec_bytes()) == Some(Json::Number(price)),
        entry.get("usd_24h_change".spec_bytes()) == Some(Json::Number(change_24h)),
    ensures
        current_quote(body, asset) == Ok::<Quote, ParseError>(Quote::Current { price, change_24h }),
{
}

/// A response that is an object without a member named as the asset fails
/// the lookup, and so gives no quote, not even part of one.
pub proof fn lemma_current_unknown_asset(body: Seq<u8>, asset: Seq<u8>, doc: Json)
    requires
        document(body) == Some(doc),
        doc is Object,
        doc.get(asset) is None,
    ensures
        current_quote(body, asset) == Err::<Quote, ParseError>(ParseError::Lookup),
{
}

/// A response that is JSON but no object, or whose entry for the asset
/// lacks the price or the change as a number, is malformed.
pub proof fn lemma_current_fields_required(body: Seq<u8>, asset: Seq<u8>, doc: Json)
    requires
        document(body) == Some(doc),
        !(doc is Object) || (doc.get(asset) matches Some(entry) && (number_under(
            entry,
            "usd".spec_bytes(),
        ) is None || number_under(entry, "usd_24h_change".spec_bytes()) is None)),
    ensures
        current_quote(body, asset) == Err::<Quote, ParseError>(ParseError::Malformed),
{
}

/// A text that is no JSON is malformed.
pub proof fn lemma_current_not_json(body: Seq<u8>, asset: Seq<u8>)
    requires
        document(body) is None,
    ensures
        current_quote(body, asset) == Err::<Quote, ParseError>(ParseError::Malformed),
{
}

/// Whatever the response, a quote decoded from it holds two well-formed
/// numbers: a response gives a whole quote or none.
pub proof fn lemma_current_quote_sound(body: Seq<u8>, asset: Seq<u8>)
    ensures
        current_quote(body, asset) matches Ok(quote) ==> quote is Current && quote.is_sound(),
{
    lemma_document_numbers(body);
    if let Some(doc) = document(body) {
        lemma_member_numbers(doc, asset);
        if let Some(entry) = doc.get(asset) {
            lemma_number_under(entry, "usd".spec_bytes());
            lemma_number_under(entry, "usd_24h_change".spec_bytes());
        }
    }
}

/// The response in its plainest form:
/// `{"<asset>":{"usd":<price>,"usd_24h_change":<change>}}`.
pub open spec fn plain_response(asset: Seq<u8>, price: Seq<u8>, change_24h: Seq<u8>) -> Seq<u8> {
    seq![OPEN_BRACE] + quoted(asset) + seq![COLON, OPEN_BRACE] + quoted("usd".spec_bytes())
        + seq![COLON] + price + seq![COMMA] + quoted("usd_24h_change".spec_bytes()) + seq![COLON]
        + change_24h + seq![CLOSE_BRACE, CLOSE_BRACE]
}

/// The names of the two fields are plain texts, of 3 and of 14 bytes.
proof fn lemma_field_names()
    ensures
        is_plain_text("usd".spec_bytes()),
        is_plain_text("usd_24h_change".spec_bytes()),
        "usd".spec_bytes().len() == 3,
        "usd_24h_change".spec_bytes().len() == 14,
{
    reveal_strlit("usd");
    reveal_strlit("usd_24h_change");
    is_ascii_chars_encode_utf8("usd"@);
    is_ascii_chars_encode_utf8("usd_24h_change"@);
}

/// Where the pieces of the plainest response stand in it.
#[verifier::rlimit(30)]
proof fn lemma_plain_response_layout(asset: Seq<u8>, price: Seq<u8>, change_24h: Seq<u8>)
    requires
        is_plain_text(asset),
    ensures
        ({
            let s = plain_response(asset, price, change_24h);
            let usd = "usd".spec_bytes();
            let usd_change = "usd_24h_change".spec_bytes();
            let entry: int = asset.len() as int + 4;
            let first: int = entry + 1;
            let price_at: int = first + 6;
            let second: int = price_at + price.len() as int + 1;
            let change_at: int = second + 17;
            let end: int = change_at + change_24h.len() as int;
            &&& s.len() == end + 2
            &&& has_byte(s, 0, OPEN_BRACE)
            &&& has_name(s, 1, asset, entry)
            &&& has_byte(s, entry, OPEN_BRACE)
            &&& has_name(s, first, usd, price_at)
            &&& s.subrange(price_at, second - 1) == price
            &&& has_byte(s, second - 1, COMMA)
            &&& has_name(s, second, usd_change, change_at)
            &&& s.subrange(change_at, end) == change_24h
            &&& has_byte(s, end, CLOSE_BRACE)
            &&& has_byte(s, end + 1, CLOSE_BRACE)
        }),
{
    lemma_field_names();
    let usd = "usd".spec_bytes();
    let usd_change = "usd_24h_change".spec_bytes();
    let s = plain_response(asset, price, change_24h);
    let s1 = seq![OPEN_BRACE] + quoted(asset);
    let s2 = s1 + seq![COLON, OPEN_BRACE];
    let s3 = s2 + quoted(usd);
    let s4 = s3 + seq![COLON];
    let s5 = s4 + price;
    let s6 = s5 + seq![COMMA];
    let s7 = s6 + quoted(usd_change);
    let s8 = s7 + seq![COLON];
    let s9 = s8 + change_24h;
    assert(s == s9 + seq![CLOSE_BRACE, CLOSE_BRACE]);
    let entry: int = asset.len() as int + 4;
    let first: int = entry + 1;
    let price_at: int = first + 6;
    let second: int = price_at + price.len() as int + 1;
    let change_at: int = second + 17;
    let end: int = change_at + change_24h.len() as int;
    assert(s1.len() == entry - 1);
    assert(s2.len() == first);
    assert(s3.len() == price_at - 1);
    assert(s4.len() == price_at);
    assert(s5.len() == second - 1);
    assert(s6.len() == second);
    assert(s7.len() == change_at - 1);
    assert(s8.len() == change_at);
    assert(s9.len() == end);
    assert(s.subrange(2, entry - 2) =~= asset);
    assert(s.subrange(first + 1, price_at - 2) =~= usd);
    assert(s.subrange(price_at, second - 1) =~= price);
    assert(s.subrange(second + 1, change_at - 2) =~= usd_change);
    assert(s.subrange(change_at, end) =~= change_24h);
}

/// The plainest response for an asset, with any two numbers in it, is
/// decoded to those two numbers, whatever the asset's name, as long as it
/// needs no escape.
#[verifier::rlimit(30)]
pub proof fn lemma_plain_response(asset: Seq<u8>, price: Seq<u8>, change_24h: Seq<u8>)
    requires
        is_plain_text(asset),
        is_number_literal(price),
        is_number_literal(change_24h),
    ensures
        current_quote(plain_response(asset, price, change_24h), asset) == Ok::<Quote, ParseError>(
            Quote::Current { price, change_24h },
        ),
{
    lemma_field_names();
    lemma_plain_response_layout(asset, price, change_24h);
    let s = plain_response(asset, price, change_24h);
    let usd = "usd".spec_bytes();
    let usd_change = "usd_24h_change".spec_bytes();
    let entry: int = asset.len() as int + 4;
    let first: int = entry + 1;
    let price_at: int = first + 6;
    let second: int = price_at + price.len() as int + 1;
    let change_at: int = second + 17;
    let end: int = change_at + change_24h.len() as int;
    let inner_depth = (MAX_DEPTH - 2) as nat;
    let outer_depth = (MAX_DEPTH - 1) as nat;
    let price_value = Json::Number(price);
    let change_value = Json::Number(change_24h);
    // The two fields, from the last to the first.
    lemma_number_value(s, change_at, end, inner_depth);
    lemma_number_embedded(s, change_at, end);
    lemma_member(s, second, inner_depth, usd_change, change_at, change_value, end);
    lemma_number_value(s, price_at, second - 1, inner_depth);
    lemma_number_embedded(s, price_at, second - 1);
    lemma_member(s, first, inner_depth, usd, price_at, price_value, second - 1);
    let fields = seq![(usd, price_value)].push((usd_change, change_value));
    assert(seq![(usd, price_value)] + seq![(usd_change, change_value)] =~= fields);
    assert(members_at(s, first, inner_depth) == Some((fields, end + 1)));
    // The object of the asset, and the document around it.
    lemma_object(s, entry, outer_depth, fields, end + 1);
    lemma_member(s, 1, outer_depth, asset, entry, Json::Object(fields), end + 1);
    let entries = Seq::<(Seq<u8>, Json)>::empty().push((asset, Json::Object(fields)));
    assert(seq![(asset, Json::Object(fields))] =~= entries);
    lemma_object(s, 0, MAX_DEPTH as nat, entries, end + 2);
    lemma_whole_document(s, Json::Object(entries));
    // The lookups.
    lemma_member_last(Seq::empty(), asset, Json::Object(fields));
    lemma_member_last(seq![(usd, price_value)], usd_change, change_value);
    lemma_member_earlier(seq![(usd, price_value)], usd, usd_change, change_value);
    lemma_member_last(Seq::empty(), usd, price_value);
    assert(Seq::<(Seq<u8>, Json)>::empty().push((usd, price_value)) =~= seq![(usd, price_value)]);
}

} // verus!
