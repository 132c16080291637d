//! One query from start to end: what is shown, what is asked of the
//! network, and what comes of the answer.

use vstd::prelude::*;
use vstd::string::StringExecFns;
use vstd::utf8::encode_utf8;
use crate::decimal::Decimal;
use crate::error::{failure_of, QueryError, TransportError};
use crate::query::{request_url, response_quote, AssetQuery, Mode, QueryMode, Request};
use crate::quote::{PriceQuoteResult, Quote};
use crate::timestamp::{date_time_text, Moment, Timestamp};

verus! {

/// The mathematical content of what is shown before a query is sent.
pub struct Inputs {
    pub asset: Seq<char>,
    /// The moment asked for as `yyyy-mm-dd hh:mm:ss`; nothing stands for now.
    pub date_time: Option<Seq<char>>,
}

/// The mathematical content of what is shown of a quote.
pub struct Outputs {
    /// The moment answered for as `yyyy-mm-dd hh:mm:ss`, for a past price.
    pub date_time: Option<Seq<char>>,
    pub price: Seq<u8>,
    /// The change over the last 24 hours, for the current price.
    pub change_24h: Option<Seq<u8>>,
}

/// What is shown before a query is sent.
#[derive(Debug, PartialEq, Eq)]
pub struct InputDisplay {
    pub asset: String,
    pub date_time: Option<String>,
}

/// What is shown of a quote.
#[derive(Debug, PartialEq, Eq)]
pub struct OutputDisplay {
    pub date_time: Option<String>,
    pub price: Decimal,
    pub change_24h: Option<Decimal>,
}

impl View for InputDisplay {
    type V = Inputs;

    open spec fn view(&self) -> Inputs {
        Inputs {
            asset: self.asset@,
            date_time: match self.date_time {
                Some(text) => Some(text@),
                None => None,
            },
        }
    }
}

impl View for OutputDisplay {
    type V = Outputs;

    open spec fn view(&self) -> Outputs {
        Outputs {
            date_time: match self.date_time {
                Some(text) => Some(text@),
                None => None,
            },
            price: self.price@,
            change_24h: match self.change_24h {
                Some(change) => Some(change@),
                None => None,
            },
        }
    }
}

/// A moment as it is shown, if there is one.
pub open spec fn shown_moment(at: Option<Moment>) -> Option<Seq<char>> {
    match at {
        Some(moment) => Some(date_time_text(moment)),
        None => None,
    }
}

/// What is shown of a query for `asset` at `at`.
pub open spec fn inputs_of(asset: Seq<char>, at: Option<Moment>) -> Inputs {
    Inputs { asset, date_time: shown_moment(at) }
}

/// What is shown of a price, the moment it holds for and its change.
pub open spec fn outputs_of(
    price: Seq<u8>,
    at: Option<Moment>,
    change_24h: Option<Seq<u8>>,
) -> Outputs {
    Outputs { date_time: shown_moment(at), price, change_24h }
}

/// What is shown of a request.
pub open spec fn request_inputs(request: Request) -> Inputs {
    match request.mode {
        Mode::Current => inputs_of(request.asset, None),
        Mode::Historical(at) => inputs_of(request.asset, Some(at)),
    }
}

/// What is shown of a quote.
pub open spec fn quote_outputs(quote: Quote) -> Outputs {
    match quote {
        Quote::Current { price, change_24h } => outputs_of(price, None, Some(change_24h)),
        Quote::Historical { price, resolved_timestamp } => outputs_of(
            price,
            Some(resolved_timestamp),
            None,
        ),
    }
}

/// The moment as text, if there is one.
fn moment_text(dt: Option<&Timestamp>) -> (text: Option<String>)
    ensures
        match dt {
            Some(at) => text matches Some(t) && t@ == date_time_text(at@),
            None => text is None,
        },
{
    match dt {
        Some(at) => Some(at.date_time_text()),
        None => None,
    }
}

/// What to show of a query before it is sent: the asset, and the moment
/// asked for, where nothing stands for now.
pub fn display_inputs(asset: &str, dt: Option<&Timestamp>) -> (shown: InputDisplay)
    ensures
        shown@ == inputs_of(
            asset@,
            match dt {
                Some(at) => Some(at@),
                None => None,
            },
        ),
{
    InputDisplay { asset: String::from_str(asset), date_time: moment_text(dt) }
}

/// What to show of a quote: the moment it holds for, if it is a past one,
/// the price, and the change over 24 hours, if it came with the price.
pub fn display_outputs(
    price: &Decimal,
    dt: Option<&Timestamp>,
    change_24: Option<&Decimal>,
) -> (shown: OutputDisplay)
    ensures
        shown@ == outputs_of(
            price@,
            match dt {
                Some(at) => Some(at@),
                None => None,
            },
            match change_24 {
                Some(change) => Some(change@),
                None => None,
            },
        ),
{
    OutputDisplay {
        date_time: moment_text(dt),
        price: price.clone(),
        change_24h: match change_24 {
            Some(change) => Some(change.clone()),
            None => None,
        },
    }
}

/// What to show of a query before it is sent.
pub fn query_display(query: &AssetQuery) -> (shown: InputDisplay)
    ensures
        shown@ == request_inputs(query@),
{
    match query.mode() {
        QueryMode::Current => display_inputs(query.asset_symbol(), None),
        QueryMode::Historical(at) => display_inputs(query.asset_symbol(), Some(&at)),
    }
}

/// What to show of a quote.
pub fn quote_display(quote: &PriceQuoteResult) -> (shown: OutputDisplay)
    ensures
        shown@ == quote_outputs(quote@),
{
    match quote {
        PriceQuoteResult::Current { price, change_24h } => display_outputs(
            price,
            None,
            Some(change_24h),
        ),
        PriceQuoteResult::Historical { price, resolved_timestamp } => display_outputs(
            price,
            Some(resolved_timestamp),
            None,
        ),
    }
}

/// Where a query stands.
#[derive(Debug, PartialEq, Eq)]
pub enum Stage {
    /// Nothing has happened yet.
    Start,
    /// The query has been shown; its request is to be built.
    BuildRequest,
    /// The request is out; its response is awaited.
    AwaitResponse,
    /// The response, held here, is to be decoded.
    ParseResponse(String),
    /// The query has ended with a quote.
    Done(PriceQuoteResult),
    /// The query has ended without one.
    Failed(QueryError),
}

/// What happened since the last step.
#[derive(Debug, PartialEq, Eq)]
pub enum Event {
    /// Nothing from outside: the last action, if any, was carried out.
    Proceed,
    /// The network answered with this text.
    Response(String),
    /// The network did not answer.
    TransportFailure(TransportError),
}

/// What the caller is to do before the next step.
#[derive(Debug, PartialEq, Eq)]
pub enum Action {
    /// Show the query.
    ShowInputs(InputDisplay),
    /// Fetch this address, and come back with the response or the failure.
    Get(String),
    /// Show the quote. The query has ended.
    ShowOutputs(OutputDisplay),
    /// Report the failure that the stage holds. The query has ended.
    ReportFailure,
    /// Nothing.
    Nothing,
}

impl Stage {
    /// The query has ended.
    pub open spec fn is_final(self) -> bool {
        self is Done || self is Failed
    }

    /// How far the query has come.
    pub open spec fn rank(self) -> nat {
        match self {
            Stage::Start => 0,
            Stage::BuildRequest => 1,
            Stage::AwaitResponse => 2,
            Stage::ParseResponse(_) => 3,
            Stage::Done(_) => 4,
            Stage::Failed(_) => 4,
        }
    }

    /// Whether the query has ended.
    pub fn ended(&self) -> (ended: bool)
        ensures
            ended == self.is_final(),
    {
        match self {
            Stage::Done(_) => true,
            Stage::Failed(_) => true,
            _ => false,
        }
    }
}

/// The stage that ends a query whose response was `body`, and the action
/// that goes with it.
pub open spec fn concludes(request: Request, body: Seq<char>, next: Stage, action: Action) -> bool {
    match response_quote(request, encode_utf8(body)) {
        Ok(quote) => {
            &&& next matches Stage::Done(found)
            &&& found@ == quote
            &&& action matches Action::ShowOutputs(shown)
            &&& shown@ == quote_outputs(quote)
        },
        Err(error) => next == Stage::Failed(failure_of(error)) && action is ReportFailure,
    }
}

/// The steps of a query. From `stage`, on `event`, the query goes to `next`
/// and asks for `action`:
///
/// - at the start, the query is shown;
/// - then the request is built and handed out to be fetched;
/// - the response is taken in, or the transport's failure ends the query,
///   kept as it came;
/// - the response is decoded, which ends the query with a quote or with the
///   failure to find one.
///
/// An event that the stage does not wait for changes nothing.
pub open spec fn follows(
    request: Request,
    stage: Stage,
    event: Event,
    next: Stage,
    action: Action,
) -> bool {
    match (stage, event) {
        (Stage::Start, Event::Proceed) => {
            &&& next is BuildRequest
            &&& action matches Action::ShowInputs(shown)
            &&& shown@ == request_inputs(request)
        },
        (Stage::BuildRequest, Event::Proceed) => {
            &&& next is AwaitResponse
            &&& action matches Action::Get(url)
            &&& url@ == request_url(request)
        },
        (Stage::AwaitResponse, Event::Response(body)) => {
            &&& next == Stage::ParseResponse(body)
            &&& action is Nothing
        },
        (Stage::AwaitResponse, Event::TransportFailure(cause)) => {
            &&& next == Stage::Failed(QueryError::Transport(cause))
            &&& action is ReportFailure
        },
        (Stage::ParseResponse(body), Event::Proceed) => concludes(request, body@, next, action),
        _ => next == stage && action is Nothing,
    }
}

/// A step never goes back, and a query that has ended stays as it is.
pub proof fn lemma_step_progress(
    request: Request,
    stage: Stage,
    event: Event,
    next: Stage,
    action: Action,
)
    requires
        follows(request, stage, event, next, action),
    ensures
        stage.rank() <= next.rank(),
        stage.is_final() ==> next == stage && action is Nothing,
        !(action is Nothing) ==> stage.rank() < next.rank(),
        action is ShowOutputs ==> next is Done,
        action is ReportFailure ==> next is Failed,
{
}

/// Only the step that leaves `BuildRequest` asks for the network, and it
/// asks for the query's own address.
pub proof fn lemma_one_request(
    request: Request,
    stage: Stage,
    event: Event,
    next: Stage,
    action: Action,
)
    requires
        follows(request, stage, event, next, action),
    ensures
        action is Get <==> stage is BuildRequest && event is Proceed,
        action matches Action::Get(url) ==> url@ == request_url(request) && next
            is AwaitResponse,
{
}

/// A query driven from the start, with the answer of the network handed in
/// when it was asked for, asks for the network once, and ends: with the
/// transport's failure as it came, or with what the response decodes to.
pub proof fn lemma_run(
    request: Request,
    answer: Event,
    shown: (Stage, Action),
    sent: (Stage, Action),
    taken: (Stage, Action),
    ended: (Stage, Action),
)
    requires
        !(answer is Proceed),
        follows(request, Stage::Start, Event::Proceed, shown.0, shown.1),
        follows(request, shown.0, Event::Proceed, sent.0, sent.1),
        follows(request, sent.0, answer, taken.0, taken.1),
        follows(request, taken.0, Event::Proceed, ended.0, ended.1),
    ensures
        sent.1 matches Action::Get(url) && url@ == request_url(request),
        !(shown.1 is Get) && !(taken.1 is Get) && !(ended.1 is Get),
        ended.0.is_final(),
        match answer {
            Event::TransportFailure(cause) => ended.0 == Stage::Failed(
                QueryError::Transport(cause),
            ),
            Event::Response(body) => match response_quote(request, encode_utf8(body@)) {
                Ok(quote) => ended.0 matches Stage::Done(found) && found@ == quote,
                Err(error) => ended.0 == Stage::Failed(failure_of(error)),
            },
            Event::Proceed => true,
        },
{
}

/// Takes one step of a query.
pub fn step(query: &AssetQuery, stage: Stage, event: Event) -> (next: (Stage, Action))
    ensures
        follows(query@, stage, event, next.0, next.1),
{
    match (stage, event) {
        (Stage::Start, Event::Proceed) => (
            Stage::BuildRequest,
            Action::ShowInputs(query_display(query)),
        ),
        (Stage::BuildRequest, Event::Proceed) => (
            Stage::AwaitResponse,
            Action::Get(query.build_url()),
        ),
        (Stage::AwaitResponse, Event::Response(body)) => (
            Stage::ParseResponse(body),
            Action::Nothing,
        ),
        (Stage::AwaitResponse, Event::TransportFailure(cause)) => (
            Stage::Failed(QueryError::Transport(cause)),
            Action::ReportFailure,
        ),
        (Stage::ParseResponse(body), Event::Proceed) => {
            match query.parse_response(body.as_str()) {
                Ok(quote) => {
                    let shown = quote_display(&quote);
                    (Stage::Done(quote), Action::ShowOutputs(shown))
                },
                Err(error) => (Stage::Failed(QueryError::from_parse(error)), Action::ReportFailure),
            }
        },
        (stage, _) => (stage, Action::Nothing),
    }
}

} // verus!
