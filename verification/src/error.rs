//! How a query can fail.

use vstd::prelude::*;
use vstd::string::StringExecFns;
use crate::quote::ParseError;

verus! {

/// A failure of the transport: no connection, a timeout, a status that is
/// no success. The message is the transport's own.
#[derive(Debug, PartialEq, Eq)]
pub struct TransportError {
    pub message: String,
}

impl Clone for TransportError {
    fn clone(&self) -> (copy: Self)
        ensures
            copy == *self,
    {
        TransportError { message: self.message.clone() }
    }
}

/// The failure of a query. The three kinds stay apart: none is turned into
/// another on its way to the caller.
#[derive(Debug, PartialEq, Eq)]
pub enum QueryError {
    /// The request did not bring a response.
    Transport(TransportError),
    /// The service holds no data for the asset or the date asked for.
    Lookup,
    /// The response did not have the expected shape.
    Malformed,
}

/// The failure of a query whose response could not be decoded.
pub open spec fn failure_of(error: ParseError) -> QueryError {
    match error {
        ParseError::Lookup => QueryError::Lookup,
        ParseError::Malformed => QueryError::Malformed,
    }
}

/// What a failure says of itself.
pub open spec fn description_of(error: QueryError) -> Seq<char> {
    match error {
        QueryError::Transport(cause) => "the request failed: "@ + cause.message@,
        QueryError::Lookup => "the service has no price for this asset or date"@,
        QueryError::Malformed => "the response did not have the expected shape"@,
    }
}

impl QueryError {
    /// The failure of a query whose response could not be decoded.
    pub fn from_parse(error: ParseError) -> (failure: QueryError)
        ensures
            failure == failure_of(error),
    {
        match error {
            ParseError::Lookup => QueryError::Lookup,
            ParseError::Malformed => QueryError::Malformed,
        }
    }

    /// A description of the failure for a reader.
    pub fn description(&self) -> (text: String)
        ensures
            text@ == description_of(*self),
    {
        match self {
            QueryError::Transport(cause) => {
                let mut text = String::from_str("the request failed: ");
                text.append(cause.message.as_str());
                text
            },
            QueryError::Lookup => String::from_str(
                "the service has no price for this asset or date",
            ),
            QueryError::Malformed => String::from_str(
                "the response did not have the expected shape",
            ),
        }
    }
}

impl Clone for QueryError {
    fn clone(&self) -> (copy: Self)
        ensures
            copy == *self,
    {
        match self {
            QueryError::Transport(cause) => QueryError::Transport(cause.clone()),
            QueryError::Lookup => QueryError::Lookup,
            QueryError::Malformed => QueryError::Malformed,
        }
    }
}

} // verus!
