//! The price of an asset on a past day: the request and the decoding of the
//! response.

use vstd::prelude::*;
use vstd::string::StringExecFns;
use vstd::string::StringSliceAdditionalSpecFns;
use vstd::utf8::is_ascii_chars_encode_utf8;
use crate::ascii::{is_digit, BACKSLASH, CLOSE_BRACE, COLON, COMMA, MINUS, OPEN_BRACE, QUOTE};
use crate::json::grammar::{document, has_byte, has_word, is_number_literal, members_at, MAX_DEPTH};
use crate::json::lemmas::{lemma_document_numbers, lemma_member_numbers};
use crate::json::plain::{
    has_name, is_plain_text, lemma_member, lemma_member_earlier, lemma_member_last,
    lemma_number_embedded, lemma_number_value, lemma_object, lemma_text_value, lemma_whole_document,
    quoted,
};
use crate::json::parser::parse_document;
use crate::json::value::{lemma_object_view, member_views, Json, JsonValue};
use crate::quote::{
    decoded_as, lemma_number_under, number_field, number_under, ParseError, PriceQuoteResult, Quote,
};
use crate::timestamp::{date_of_text, date_text, lemma_date_text_bytes, Moment, Timestamp};

verus! {

/// The address that answers with the price of `asset` on the day of `at`.
/// The service finds past prices by day, so the time of day has no part in
/// it.
pub open spec fn historical_url(asset: Seq<char>, at: Moment) -> Seq<char> {
    "https://api.coingecko.com/api/v3/coins/"@ + asset + "/history?date="@ + date_text(at)
        + "&localization=false"@
}

/// Builds the address that answers with the price of `asset` on the day of
/// `at`.
pub fn build_url(asset: &str, at: &Timestamp) -> (url: String)
    ensures
        url@ == historical_url(asset@, at@),
{
    let mut url = String::from_str("https://api.coingecko.com/api/v3/coins/");
    url.append(asset);
    url.append("/history?date=");
    url.append(at.date_text().as_str());
    url.append("&localization=false");
    url
}

/// Two moments of the same day give the same address: the time of day has
/// no part in it.
pub proof fn lemma_url_ignores_time_of_day(asset: Seq<char>, a: Moment, b: Moment)
    requires
        a.year == b.year,
        a.month == b.month,
        a.day == b.day,
    ensures
        historical_url(asset, a) == historical_url(asset, b),
{
}

/// A block that holds nothing: `null`, or an object without members.
pub open spec fn is_blank(value: Json) -> bool {
    value is Null || value == Json::Object(Seq::empty())
}

/// The price in a block of market data: the number under `usd` in the
/// object under `current_price`.
pub open spec fn price_in(market: Json) -> Option<Seq<u8>> {
    match market.get("current_price".spec_bytes()) {
        Some(prices) => number_under(prices, "usd".spec_bytes()),
        None => None,
    }
}

/// The day that the response says it answers for: the text under `date`,
/// in the form `dd-mm-yyyy`.
pub open spec fn date_in(doc: Json) -> Option<Moment> {
    match doc.get("date".spec_bytes()) {
        Some(Json::Text(text)) => date_of_text(text),
        _ => None,
    }
}

/// The quote that a response to a historical-price request holds.
///
/// A response that is no JSON object is malformed. An object whose
/// `market_data` is absent or blank tells that the service has no price for
/// that asset on that day. Otherwise the block must hold the price and the
/// response the day it answers for, which is taken as it stands, whether or
/// not it is the day that was asked for.
pub open spec fn historical_quote(body: Seq<u8>) -> Result<Quote, ParseError> {
    match document(body) {
        Some(Json::Object(members)) => match Json::Object(members).get("market_data".spec_bytes()) {
            None => Err(ParseError::Lookup),
            Some(market) => if is_blank(market) {
                Err(ParseError::Lookup)
            } else {
                match (price_in(market), date_in(Json::Object(members))) {
                    (Some(price), Some(resolved_timestamp)) => Ok(
                        Quote::Historical { price, resolved_timestamp },
                    ),
                    _ => Err(ParseError::Malformed),
                }
            },
        },
        _ => Err(ParseError::Malformed),
    }
}

/// Whether the block holds nothing.
pub fn blank(value: &JsonValue) -> (holds: bool)
    ensures
        holds == is_blank(value@),
{
    match value {
        JsonValue::Null => true,
        JsonValue::Object(members) => {
            proof {
                lemma_object_view(*members);
                if members.len() == 0 {
                    assert(member_views(members@) =~= Seq::empty());
                } else {
                    assert(member_views(members@).len() > 0);
                }
            }
            members.len() == 0
        },
        _ => false,
    }
}

/// The day that the response says it answers for.
pub fn resolved_date(doc: &JsonValue) -> (found: Option<Timestamp>)
    ensures
        found is Some <==> date_in(doc@) is Some,
        found matches Some(day) ==> date_in(doc@) == Some(day@),
{
    match doc.get("date".as_bytes()) {
        Some(JsonValue::Text(text)) => Timestamp::from_date_text(text.as_slice()),
        _ => None,
    }
}

/// Decodes the response to a historical-price request.
pub fn parse_api_response(body: &str) -> (found: Result<PriceQuoteResult, ParseError>)
    ensures
        decoded_as(found, historical_quote(body.spec_bytes())),
        found matches Ok(quote) ==> quote is Historical && quote@.is_sound(),
{
    proof {
        lemma_historical_quote_sound(body.spec_bytes());
    }
    let doc = match parse_document(body.as_bytes()) {
        Some(doc) => doc,
        None => {
            return Err(ParseError::Malformed);
        },
    };
    match &doc {
        JsonValue::Object(_) => {},
        _ => {
            return Err(ParseError::Malformed);
        },
    }
    let market = match doc.get("market_data".as_bytes()) {
        Some(market) => market,
        None => {
            return Err(ParseError::Lookup);
        },
    };
    if blank(market) {
        return Err(ParseError::Lookup);
    }
    let price = match market.get("current_price".as_bytes()) {
        Some(prices) => number_field(prices, "usd"),
        None => None,
    };
    match (price, resolved_date(&doc)) {
        (Some(price), Some(resolved_timestamp)) => Ok(
            PriceQuoteResult::Historical { price: price.clone(), resolved_timestamp },
        ),
        _ => Err(ParseError::Malformed),
    }
}

/// A response that holds a price in its market data and the day it answers
/// for is decoded to exactly that price and that day.
pub proof fn lemma_historical_quote_exact(
    body: Seq<u8>,
    doc: Json,
    market: Json,
    price: Seq<u8>,
    resolved_timestamp: Moment,
)
    requires
        document(body) == Some(doc),
        doc is Object,
        doc.get("market_data".spec_bytes()) == Some(market),
        !is_blank(market),
        price_in(market) == Some(price),
        date_in(doc) == Some(resolved_timestamp),
    ensures
        historical_quote(body) == Ok::<Quote, ParseError>(
            Quote::Historical { price, resolved_timestamp },
        ),
{
}

/// A response that is an object whose market data is absent or blank fails
/// the lookup.
pub proof fn lemma_historical_no_market_data(body: Seq<u8>, doc: Json)
    requires
        document(body) == Some(doc),
        doc is Object,
        doc.get("market_data".spec_bytes()) matches Some(market) ==> is_blank(market),
    ensures
        historical_quote(body) == Err::<Quote, ParseError>(ParseError::Lookup),
{
}

/// A response that is JSON but no object, or whose market data lacks the
/// price as a number, or that does not name the day it answers for, is
/// malformed.
pub proof fn lemma_historical_fields_required(body: Seq<u8>, doc: Json)
    requires
        document(body) == Some(doc),
        !(doc is Object) || (doc.get("market_data".spec_bytes()) matches Some(market) && !is_blank(
            market,
        ) && (price_in(market) is None || date_in(doc) is None)),
    ensures
        historical_quote(body) == Err::<Quote, ParseError>(ParseError::Malformed),
{
}

/// A text that is no JSON is malformed.
pub proof fn lemma_historical_not_json(body: Seq<u8>)
    requires
        document(body) is None,
    ensures
        historical_quote(body) == Err::<Quote, ParseError>(ParseError::Malformed),
{
}

/// Whatever the response, a quote decoded from it holds a well-formed
/// number and a day of the calendar: a response gives a whole quote or none.
pub proof fn lemma_historical_quote_sound(body: Seq<u8>)
    ensures
        historical_quote(body) matches Ok(quote) ==> quote is Historical && quote.is_sound(),
{
    lemma_document_numbers(body);
    if let Some(doc) = document(body) {
        lemma_member_numbers(doc, "market_data".spec_bytes());
        if let Some(market) = doc.get("market_data".spec_bytes()) {
            lemma_member_numbers(market, "current_price".spec_bytes());
            if let Some(prices) = market.get("current_price".spec_bytes()) {
                lemma_number_under(prices, "usd".spec_bytes());
            }
        }
    }
}

/// The response in its plainest form:
/// `{"market_data":{"current_price":{"usd":<price>}},"date":"<day>"}`.
pub open spec fn plain_response(price: Seq<u8>, day: Seq<u8>) -> Seq<u8> {
    seq![OPEN_BRACE] + quoted("market_data".spec_bytes()) + seq![COLON, OPEN_BRACE] + quoted(
        "current_price".spec_bytes(),
    ) + seq![COLON, OPEN_BRACE] + quoted("usd".spec_bytes()) + seq![COLON] + price
        + seq![CLOSE_BRACE, CLOSE_BRACE, COMMA] + quoted("date".spec_bytes()) + seq![COLON]
        + quoted(day) + seq![CLOSE_BRACE]
}

/// The names of the fields are plain texts, and that of the market data is
/// not that of the date.
proof fn lemma_field_names()
    ensures
        is_plain_text("market_data".spec_bytes()),
        is_plain_text("current_price".spec_bytes()),
        is_plain_text("usd".spec_bytes()),
        is_plain_text("date".spec_bytes()),
        "market_data".spec_bytes().len() == 11,
        "current_price".spec_bytes().len() == 13,
        "usd".spec_bytes().len() == 3,
        "date".spec_bytes().len() == 4,
{
    reveal_strlit("market_data");
    reveal_strlit("current_price");
    reveal_strlit("usd");
    reveal_strlit("date");
    is_ascii_chars_encode_utf8("market_data"@);
    is_ascii_chars_encode_utf8("current_price"@);
    is_ascii_chars_encode_utf8("usd"@);
    is_ascii_chars_encode_utf8("date"@);
}

/// Where the pieces of the plainest response stand in it.
#[verifier::rlimit(30)]
proof fn lemma_plain_response_layout(price: Seq<u8>, day: Seq<u8>)
    requires
        is_plain_text(day),
    ensures
        ({
            let s = plain_response(price, day);
            let end: int = 39 + price.len() as int;
            &&& s.len() == end + 13 + day.len()
            &&& has_byte(s, 0, OPEN_BRACE)
            &&& has_name(s, 1, "market_data".spec_bytes(), 15)
            &&& has_byte(s, 15, OPEN_BRACE)
            &&& has_name(s, 16, "current_price".spec_bytes(), 32)
            &&& has_byte(s, 32, OPEN_BRACE)
            &&& has_name(s, 33, "usd".spec_bytes(), 39)
            &&& s.subrange(39, end) == price
            &&& has_byte(s, end, CLOSE_BRACE)
            &&& has_byte(s, end + 1, CLOSE_BRACE)
            &&& has_byte(s, end + 2, COMMA)
            &&& has_name(s, end + 3, "date".spec_bytes(), end + 10)
            &&& has_byte(s, end + 10, QUOTE)
            &&& has_word(s, end + 11, day)
            &&& has_byte(s, end + 11 + day.len(), QUOTE)
            &&& has_byte(s, end + 12 + day.len(), CLOSE_BRACE)
        }),
{
    lemma_field_names();
    let s = plain_response(price, day);
    let s1 = seq![OPEN_BRACE] + quoted("market_data".spec_bytes());
    let s2 = s1 + seq![COLON, OPEN_BRACE];
    let s3 = s2 + quoted("current_price".spec_bytes());
    let s4 = s3 + seq![COLON, OPEN_BRACE];
    let s5 = s4 + quoted("usd".spec_bytes());
    let s6 = s5 + seq![COLON];
    let s7 = s6 + price;
    let s8 = s7 + seq![CLOSE_BRACE, CLOSE_BRACE, COMMA];
    let s9 = s8 + quoted("date".spec_bytes());
    let s10 = s9 + seq![COLON];
    let s11 = s10 + quoted(day);
    assert(s == s11 + seq![CLOSE_BRACE]);
    let end: int = 39 + price.len() as int;
    assert(s1.len() == 14);
    assert(s2.len() == 16);
    assert(s3.len() == 31);
    assert(s4.len() == 33);
    assert(s5.len() == 38);
    assert(s6.len() == 39);
    assert(s7.len() == end);
    assert(s8.len() == end + 3);
    assert(s9.len() == end + 9);
    assert(s10.len() == end + 10);
    assert(s11.len() == end + 12 + day.len());
    assert(s.subrange(2, 13) =~= "market_data".spec_bytes());
    assert(s.subrange(17, 30) =~= "current_price".spec_bytes());
    assert(s.subrange(34, 37) =~= "usd".spec_bytes());
    assert(s.subrange(39, end) =~= price);
    assert(s.subrange(end + 4, end + 8) =~= "date".spec_bytes());
    assert(s.subrange(end + 11, end + 11 + day.len()) =~= day);
}

/// The plainest response, with any number in it and any day, is decoded to
/// that number and that day.
#[verifier::rlimit(30)]
pub proof fn lemma_plain_response(price: Seq<u8>, day: Seq<u8>)
    requires
        is_number_literal(price),
        date_of_text(day) is Some,
    ensures
        historical_quote(plain_response(price, day)) == Ok::<Quote, ParseError>(
            Quote::Historical { price, resolved_timestamp: date_of_text(day)->0 },
        ),
{
    lemma_date_text_bytes(day);
    assert(is_plain_text(day)) by {
        assert forall|k: int| 0 <= k < day.len() implies #[trigger] day[k] >= 0x20 && day[k]
            != QUOTE && day[k] != BACKSLASH by {
            assert(is_digit(day[k]) || day[k] == MINUS);
        }
    }
    lemma_field_names();
    lemma_plain_response_layout(price, day);
    let s = plain_response(price, day);
    let market_data = "market_data".spec_bytes();
    let current_price = "current_price".spec_bytes();
    let usd = "usd".spec_bytes();
    let date = "date".spec_bytes();
    let end: int = 39 + price.len() as int;
    let outer_depth = (MAX_DEPTH - 1) as nat;
    let market_depth = (MAX_DEPTH - 2) as nat;
    let prices_depth = (MAX_DEPTH - 3) as nat;
    // The prices, and the market data around them.
    lemma_number_value(s, 39, end, prices_depth);
    lemma_number_embedded(s, 39, end);
    lemma_member(s, 33, prices_depth, usd, 39, Json::Number(price), end);
    let prices = Seq::<(Seq<u8>, Json)>::empty().push((usd, Json::Number(price)));
    assert(seq![(usd, Json::Number(price))] =~= prices);
    lemma_object(s, 32, market_depth, prices, end + 1);
    lemma_member(s, 16, market_depth, current_price, 32, Json::Object(prices), end + 1);
    let market = Seq::<(Seq<u8>, Json)>::empty().push((current_price, Json::Object(prices)));
    assert(seq![(current_price, Json::Object(prices))] =~= market);
    lemma_object(s, 15, outer_depth, market, end + 2);
    // The day, and the document around both.
    lemma_text_value(s, end + 10, day, outer_depth);
    lemma_member(s, end + 3, outer_depth, date, end + 10, Json::Text(day), end + 22);
    lemma_member(s, 1, outer_depth, market_data, 15, Json::Object(market), end + 2);
    let first = seq![(market_data, Json::Object(market))];
    let both = first.push((date, Json::Text(day)));
    assert(first + seq![(date, Json::Text(day))] =~= both);
    assert(members_at(s, 1, outer_depth) == Some((both, end + 23)));
    lemma_object(s, 0, MAX_DEPTH as nat, both, end + 23);
    lemma_whole_document(s, Json::Object(both));
    // The lookups.
    lemma_member_last(first, date, Json::Text(day));
    lemma_member_earlier(first, market_data, date, Json::Text(day));
    lemma_member_last(Seq::empty(), market_data, Json::Object(market));
    assert(Seq::<(Seq<u8>, Json)>::empty().push((market_data, Json::Object(market))) =~= first);
    lemma_member_last(Seq::empty(), current_price, Json::Object(prices));
    lemma_member_last(Seq::empty(), usd, Json::Number(price));
    assert(market.len() == 1);
    assert(!is_blank(Json::Object(market)));
}

} // verus!
