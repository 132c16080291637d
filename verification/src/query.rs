//! A price query: the asset and whether the price is wanted now or on a
//! past day.

use vstd::prelude::*;
use vstd::string::StringExecFns;
use vstd::string::StringSliceAdditionalSpecFns;
use vstd::utf8::encode_utf8;
use crate::current_api;
use crate::current_api::{current_quote, current_url};
use crate::hist_api;
use crate::hist_api::{historical_quote, historical_url};
use crate::quote::{decoded_as, ParseError, PriceQuoteResult, Quote};
use crate::timestamp::{Moment, Timestamp};

verus! {

/// The mathematical content of a query mode.
pub enum Mode {
    Current,
    Historical(Moment),
}

/// The mathematical content of a query.
pub struct Request {
    pub asset: Seq<char>,
    pub mode: Mode,
}

/// Which price is wanted: the latest, or that of the day of a timestamp.
#[derive(Clone, Copy, Debug, PartialEq, Eq)]
pub enum QueryMode {
    Current,
    Historical(Timestamp),
}

impl View for QueryMode {
    type V = Mode;

    open spec fn view(&self) -> Mode {
        match self {
            QueryMode::Current => Mode::Current,
            QueryMode::Historical(at) => Mode::Historical(at@),
        }
    }
}

/// A query for the price of one asset. The asset's name is never empty.
#[derive(Debug, PartialEq, Eq)]
pub struct AssetQuery {
    asset_symbol: String,
    mode: QueryMode,
}

impl View for AssetQuery {
    type V = Request;

    closed spec fn view(&self) -> Request {
        Request { asset: self.asset_symbol@, mode: self.mode@ }
    }
}

/// The address that a query is sent to.
pub open spec fn request_url(request: Request) -> Seq<char> {
    match request.mode {
        Mode::Current => current_url(request.asset),
        Mode::Historical(at) => historical_url(request.asset, at),
    }
}

/// The quote that a response to a query holds.
pub open spec fn response_quote(request: Request, body: Seq<u8>) -> Result<Quote, ParseError> {
    match request.mode {
        Mode::Current => current_quote(body, encode_utf8(request.asset)),
        Mode::Historical(_) => historical_quote(body),
    }
}

impl AssetQuery {
    #[verifier::type_invariant]
    spec fn well_formed(self) -> bool {
        self.asset_symbol@.len() > 0
    }

    /// A query for `asset`, or nothing where the name is empty.
    pub fn new(asset: &str, mode: QueryMode) -> (made: Option<AssetQuery>)
        ensures
            made is Some <==> asset@.len() > 0,
            made matches Some(query) ==> query@ == (Request { asset: asset@, mode: mode@ }),
    {
        if asset.is_empty() {
            None
        } else {
            Some(AssetQuery { asset_symbol: String::from_str(asset), mode })
        }
    }

    /// The name of the asset.
    pub fn asset_symbol(&self) -> (asset: &str)
        ensures
            asset@ == self@.asset,
            asset@.len() > 0,
    {
        proof {
            use_type_invariant(self);
        }
        self.asset_symbol.as_str()
    }

    /// Which price is wanted.
    pub fn mode(&self) -> (mode: QueryMode)
        ensures
            mode@ == self@.mode,
    {
        self.mode
    }

    /// Builds the address that the query is sent to.
    pub fn build_url(&self) -> (url: String)
        ensures
            url@ == request_url(self@),
    {
        match &self.mode {
            QueryMode::Current => current_api::build_url(self.asset_symbol.as_str()),
            QueryMode::Historical(at) => hist_api::build_url(self.asset_symbol.as_str(), at),
        }
    }

    /// Decodes the response to the query.
    pub fn parse_response(&self, body: &str) -> (found: Result<PriceQuoteResult, ParseError>)
        ensures
            decoded_as(found, response_quote(self@, body.spec_bytes())),
            found matches Ok(quote) ==> quote@.is_sound() && (quote is Current <==> self@.mode
                is Current),
    {
        match &self.mode {
            QueryMode::Current => current_api::parse_api_response(
                body,
                self.asset_symbol.as_str(),
            ),
            QueryMode::Historical(_) => hist_api::parse_api_response(body),
        }
    }
}

/// The address is a function of the query alone: queries with the same
/// content are sent to the same address, byte for byte.
pub proof fn lemma_url_deterministic(a: AssetQuery, b: AssetQuery)
    requires
        a@ == b@,
    ensures
        request_url(a@) == request_url(b@),
        encode_utf8(request_url(a@)) == encode_utf8(request_url(b@)),
{
}

/// A quote is of the kind that the query asked for.
pub proof fn lemma_quote_matches_mode(request: Request, body: Seq<u8>)
    ensures
        response_quote(request, body) matches Ok(quote) ==> (quote is Current <==> request.mode
            is Current),
{
}

impl Clone for AssetQuery {
    fn clone(&self) -> (copy: Self)
        ensures
            copy@ == self@,
    {
        proof {
            use_type_invariant(self);
        }
        AssetQuery { asset_symbol: self.asset_symbol.clone(), mode: self.mode }
    }
}

} // verus!
