//! Prices of crypto assets, now or on a past day, from a price service
//! that answers in JSON.
//!
//! The library builds the request for a query, decodes the response into a
//! quote, and says step by step what a caller is to do to run one query:
//! show it, fetch the address, show the quote or report the failure. It
//! does no input or output itself.
//!
//! - [`query`] holds a query, [`quote`] what it yields, [`error`] how it
//!   can fail.
//! - [`current_api`] and [`hist_api`] hold the request and the decoding for
//!   each of the two kinds of query.
//! - [`price_processor`] holds the steps of a query and what is shown of it.
//! - [`json`] holds the grammar of JSON and the parser, [`decimal`] the
//!   numbers, which are kept as they are written, [`timestamp`] the moments
//!   of the calendar and how they are written.

pub mod ascii;
pub mod current_api;
pub mod decimal;
pub mod error;
pub mod hist_api;
pub mod json;
pub mod price_processor;
pub mod query;
pub mod quote;
pub mod timestamp;
