//! What a price query yields, and how decoding a response can fail.

use vstd::prelude::*;
use vstd::string::StringSliceAdditionalSpecFns;
use crate::decimal::Decimal;
use crate::json::grammar::is_number_literal;
use crate::json::lemmas::lemma_member_numbers;
use crate::json::value::{Json, JsonValue};
use crate::timestamp::{Moment, Timestamp};

verus! {

/// Why a response gave no quote.
#[derive(Clone, Copy, Debug, PartialEq, Eq, Structural)]
pub enum ParseError {
    /// The service holds no data for the asset or the date asked for.
    Lookup,
    /// The response is no JSON, or lacks a field, or holds one of another
    /// type than expected.
    Malformed,
}

/// The mathematical content of a quote. Numbers are the bytes of their
/// literals.
pub enum Quote {
    Current { price: Seq<u8>, change_24h: Seq<u8> },
    Historical { price: Seq<u8>, resolved_timestamp: Moment },
}

impl Quote {
    /// The numbers of the quote are number literals, and its timestamp, if
    /// it has one, is a moment of the calendar.
    pub open spec fn is_sound(self) -> bool {
        match self {
            Quote::Current { price, change_24h } => is_number_literal(price) && is_number_literal(
                change_24h,
            ),
            Quote::Historical { price, resolved_timestamp } => is_number_literal(price)
                && resolved_timestamp.is_valid(),
        }
    }
}

/// The outcome of a price query: for the current price the change over the
/// last 24 hours comes with it, for a historical price the date that the
/// service answered for.
#[derive(Debug, PartialEq, Eq)]
pub enum PriceQuoteResult {
    Current { price: Decimal, change_24h: Decimal },
    Historical { price: Decimal, resolved_timestamp: Timestamp },
}

impl View for PriceQuoteResult {
    type V = Quote;

    open spec fn view(&self) -> Quote {
        match self {
            PriceQuoteResult::Current { price, change_24h } => Quote::Current {
                price: price@,
                change_24h: change_24h@,
            },
            PriceQuoteResult::Historical { price, resolved_timestamp } => Quote::Historical {
                price: price@,
                resolved_timestamp: resolved_timestamp@,
            },
        }
    }
}

impl Clone for PriceQuoteResult {
    fn clone(&self) -> (copy: Self)
        ensures
            copy@ == self@,
    {
        match self {
            PriceQuoteResult::Current { price, change_24h } => PriceQuoteResult::Current {
                price: price.clone(),
                change_24h: change_24h.clone(),
            },
            PriceQuoteResult::Historical { price, resolved_timestamp } => {
                PriceQuoteResult::Historical {
                    price: price.clone(),
                    resolved_timestamp: *resolved_timestamp,
                }
            },
        }
    }
}

impl PriceQuoteResult {
    /// The price.
    pub fn price(&self) -> (price: &Decimal)
        ensures
            price@ == match self@ {
                Quote::Current { price, .. } => price,
                Quote::Historical { price, .. } => price,
            },
    {
        match self {
            PriceQuoteResult::Current { price, .. } => price,
            PriceQuoteResult::Historical { price, .. } => price,
        }
    }
}

/// What was decoded is what the response holds.
pub open spec fn decoded_as(
    found: Result<PriceQuoteResult, ParseError>,
    expected: Result<Quote, ParseError>,
) -> bool {
    match found {
        Ok(quote) => expected == Ok::<Quote, ParseError>(quote@),
        Err(error) => expected == Err::<Quote, ParseError>(error),
    }
}

/// The number under `name` in an object.
pub open spec fn number_under(object: Json, name: Seq<u8>) -> Option<Seq<u8>> {
    match object.get(name) {
        Some(Json::Number(literal)) => Some(literal),
        _ => None,
    }
}

/// A number found in an object whose numbers are number literals is one.
pub proof fn lemma_number_under(object: Json, name: Seq<u8>)
    requires
        object.numbers_are_literals(),
    ensures
        number_under(object, name) matches Some(literal) ==> is_number_literal(literal),
{
    lemma_member_numbers(object, name);
}

/// The number under `name` in an object.
pub fn number_field<'a>(object: &'a JsonValue, name: &str) -> (found: Option<&'a Decimal>)
    ensures
        found is Some <==> number_under(object@, name.spec_bytes()) is Some,
        found matches Some(number) ==> number_under(object@, name.spec_bytes()) == Some(number@),
{
    match object.get(name.as_bytes()) {
        Some(JsonValue::Number(number)) => Some(number),
        _ => None,
    }
}

} // verus!
