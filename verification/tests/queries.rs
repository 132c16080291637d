use crypto_price::error::{QueryError, TransportError};
use crypto_price::price_processor::{
    display_inputs, display_outputs, query_display, quote_display, step, Action, Event,
    InputDisplay, OutputDisplay, Stage,
};
use crypto_price::query::{AssetQuery, QueryMode};
use crypto_price::decimal::Decimal;
use crypto_price::quote::{ParseError, PriceQuoteResult};
use crypto_price::timestamp::Timestamp;

fn ts(y: i32, mo: u32, d: u32, h: u32, mi: u32, s: u32) -> Timestamp {
    Timestamp::new(y, mo, d, h, mi, s).expect("a valid timestamp")
}

fn dec(text: &str) -> Decimal {
    Decimal::parse(text).expect("a number")
}

fn timeout() -> TransportError {
    TransportError { message: "connection timed out".to_string() }
}

/// What a run of the steps did: the actions asked for, the addresses
/// fetched, and how the query ended.
struct Run {
    actions: Vec<Action>,
    fetched: Vec<String>,
    outcome: Result<PriceQuoteResult, QueryError>,
}

fn run(query: &AssetQuery, transport: &dyn Fn(&str) -> Result<String, TransportError>) -> Run {
    let mut stage = Stage::Start;
    let mut event = Event::Proceed;
    let mut actions = Vec::new();
    let mut fetched = Vec::new();
    for _ in 0..10 {
        let (next, action) = step(query, stage, event);
        event = Event::Proceed;
        if let Action::Get(url) = &action {
            fetched.push(url.clone());
            event = match transport(url) {
                Ok(body) => Event::Response(body),
                Err(cause) => Event::TransportFailure(cause),
            };
        }
        actions.push(action);
        stage = next;
        match stage {
            Stage::Done(quote) => return Run { actions, fetched, outcome: Ok(quote) },
            Stage::Failed(error) => return Run { actions, fetched, outcome: Err(error) },
            _ => {}
        }
    }
    panic!("the query did not end");
}

#[test]
fn scenario_current_price_of_bitcoin() {
    let query = AssetQuery::new("bitcoin", QueryMode::Current).unwrap();
    let done = run(&query, &|_| Ok(r#"{"bitcoin":{"usd":65000.5,"usd_24h_change":2.3}}"#.to_string()));
    match done.outcome {
        Ok(PriceQuoteResult::Current { price, change_24h }) => {
            assert_eq!(price.text().parse::<f64>().unwrap(), 65000.5);
            assert_eq!(change_24h.text().parse::<f64>().unwrap(), 2.3);
        }
        other => panic!("{:?}", other),
    }
    assert_eq!(
        done.fetched,
        vec!["https://api.coingecko.com/api/v3/simple/price?ids=bitcoin&vs_currencies=usd&include_24hr_change=true"]
    );
    assert_eq!(
        done.actions,
        vec![
            Action::ShowInputs(InputDisplay { asset: "bitcoin".to_string(), date_time: None }),
            Action::Get(done.fetched[0].clone()),
            Action::Nothing,
            Action::ShowOutputs(OutputDisplay { date_time: None, price: dec("65000.5"), change_24h: Some(dec("2.3")) }),
        ]
    );
}

#[test]
fn scenario_historical_price_of_bitcoin() {
    let at = ts(2021, 1, 1, 0, 0, 0);
    let query = AssetQuery::new("bitcoin", QueryMode::Historical(at)).unwrap();
    let done = run(&query, &|_| {
        Ok(r#"{"market_data":{"current_price":{"usd":29374.15}},"date":"01-01-2021"}"#.to_string())
    });
    match done.outcome {
        Ok(PriceQuoteResult::Historical { price, resolved_timestamp }) => {
            assert_eq!(price.text().parse::<f64>().unwrap(), 29374.15);
            assert_eq!(resolved_timestamp, ts(2021, 1, 1, 0, 0, 0));
        }
        other => panic!("{:?}", other),
    }
    assert_eq!(
        done.fetched,
        vec!["https://api.coingecko.com/api/v3/coins/bitcoin/history?date=01-01-2021&localization=false"]
    );
    assert_eq!(
        done.actions,
        vec![
            Action::ShowInputs(InputDisplay {
                asset: "bitcoin".to_string(),
                date_time: Some("2021-01-01 00:00:00".to_string()),
            }),
            Action::Get(done.fetched[0].clone()),
            Action::Nothing,
            Action::ShowOutputs(OutputDisplay {
                date_time: Some("2021-01-01 00:00:00".to_string()),
                price: dec("29374.15"),
                change_24h: None,
            }),
        ]
    );
}

#[test]
fn scenario_unknown_asset() {
    let query = AssetQuery::new("not-a-real-coin", QueryMode::Current).unwrap();
    let done = run(&query, &|_| Ok("{}".to_string()));
    assert_eq!(done.outcome, Err(QueryError::Lookup));
    assert_eq!(done.fetched.len(), 1);
    assert_eq!(done.actions.last(), Some(&Action::ReportFailure));
}

#[test]
fn scenario_connection_timeout() {
    for mode in [QueryMode::Current, QueryMode::Historical(ts(2021, 1, 1, 0, 0, 0))] {
        let query = AssetQuery::new("bitcoin", mode).unwrap();
        let done = run(&query, &|_| Err(timeout()));
        assert_eq!(done.outcome, Err(QueryError::Transport(timeout())));
        assert_eq!(done.fetched.len(), 1);
        // The query stops where the response was awaited: nothing is decoded.
        assert_eq!(done.actions.len(), 3);
        assert_eq!(done.actions[2], Action::ReportFailure);
    }
}

#[test]
fn a_malformed_response_ends_the_query() {
    let query = AssetQuery::new("bitcoin", QueryMode::Current).unwrap();
    let done = run(&query, &|_| Ok("<html>502</html>".to_string()));
    assert_eq!(done.outcome, Err(QueryError::Malformed));
    assert_eq!(done.fetched.len(), 1);
    let query = AssetQuery::new("bitcoin", QueryMode::Historical(ts(2030, 1, 1, 0, 0, 0))).unwrap();
    let done = run(&query, &|_| Ok(r#"{"id":"bitcoin"}"#.to_string()));
    assert_eq!(done.outcome, Err(QueryError::Lookup));
}

#[test]
fn each_step_goes_to_the_next_stage() {
    let query = AssetQuery::new("bitcoin", QueryMode::Current).unwrap();
    let (stage, action) = step(&query, Stage::Start, Event::Proceed);
    assert_eq!(stage, Stage::BuildRequest);
    assert!(matches!(action, Action::ShowInputs(_)));
    let (stage, action) = step(&query, stage, Event::Proceed);
    assert_eq!(stage, Stage::AwaitResponse);
    assert_eq!(action, Action::Get(query.build_url()));
    let (stage, action) = step(&query, stage, Event::Response("{}".to_string()));
    assert_eq!(stage, Stage::ParseResponse("{}".to_string()));
    assert_eq!(action, Action::Nothing);
    let (stage, action) = step(&query, stage, Event::Proceed);
    assert_eq!(stage, Stage::Failed(QueryError::Lookup));
    assert_eq!(action, Action::ReportFailure);
    assert!(stage.ended());
}

#[test]
fn an_event_that_is_not_awaited_changes_nothing() {
    let query = AssetQuery::new("bitcoin", QueryMode::Current).unwrap();
    let body = || r#"{"bitcoin":{"usd":1,"usd_24h_change":2}}"#.to_string();
    let quote = PriceQuoteResult::Current { price: dec("1"), change_24h: dec("2") };
    let cases: Vec<(Stage, Event)> = vec![
        (Stage::Start, Event::Response(body())),
        (Stage::Start, Event::TransportFailure(timeout())),
        (Stage::BuildRequest, Event::Response(body())),
        (Stage::BuildRequest, Event::TransportFailure(timeout())),
        (Stage::AwaitResponse, Event::Proceed),
        (Stage::ParseResponse(body()), Event::Response("{}".to_string())),
        (Stage::ParseResponse(body()), Event::TransportFailure(timeout())),
        (Stage::Done(quote.clone()), Event::Proceed),
        (Stage::Done(quote.clone()), Event::Response(body())),
        (Stage::Done(quote.clone()), Event::TransportFailure(timeout())),
        (Stage::Failed(QueryError::Lookup), Event::Proceed),
        (Stage::Failed(QueryError::Malformed), Event::Response(body())),
        (Stage::Failed(QueryError::Transport(timeout())), Event::TransportFailure(timeout())),
    ];
    for (stage, event) in cases {
        let before = format!("{:?}", stage);
        let (next, action) = step(&query, stage, event);
        assert_eq!(format!("{:?}", next), before);
        assert_eq!(action, Action::Nothing);
    }
}

#[test]
fn stages_end_at_done_and_failed() {
    assert!(!Stage::Start.ended());
    assert!(!Stage::BuildRequest.ended());
    assert!(!Stage::AwaitResponse.ended());
    assert!(!Stage::ParseResponse(String::new()).ended());
    assert!(Stage::Done(PriceQuoteResult::Current { price: dec("1"), change_24h: dec("2") }).ended());
    assert!(Stage::Failed(QueryError::Lookup).ended());
}

#[test]
fn a_query_needs_an_asset() {
    assert!(AssetQuery::new("", QueryMode::Current).is_none());
    assert!(AssetQuery::new("", QueryMode::Historical(ts(2021, 1, 1, 0, 0, 0))).is_none());
    let query = AssetQuery::new("btc", QueryMode::Historical(ts(2021, 1, 1, 2, 3, 4))).unwrap();
    assert_eq!(query.asset_symbol(), "btc");
    assert_eq!(query.mode(), QueryMode::Historical(ts(2021, 1, 1, 2, 3, 4)));
    assert_eq!(query.clone(), query);
}

#[test]
fn a_query_builds_the_url_of_its_mode() {
    let now = AssetQuery::new("bitcoin", QueryMode::Current).unwrap();
    assert_eq!(now.build_url(), crypto_price::current_api::build_url("bitcoin"));
    let at = ts(2020, 2, 29, 12, 0, 0);
    let then = AssetQuery::new("bitcoin", QueryMode::Historical(at)).unwrap();
    assert_eq!(then.build_url(), crypto_price::hist_api::build_url("bitcoin", &at));
    assert_eq!(
        then.build_url(),
        "https://api.coingecko.com/api/v3/coins/bitcoin/history?date=29-02-2020&localization=false"
    );
    // Built twice, the address is the same, byte for byte.
    assert_eq!(now.build_url().into_bytes(), now.clone().build_url().into_bytes());
    assert_eq!(then.build_url().into_bytes(), then.clone().build_url().into_bytes());
}

#[test]
fn a_query_decodes_the_response_of_its_mode() {
    let current_body = r#"{"bitcoin":{"usd":65000.5,"usd_24h_change":2.3}}"#;
    let past_body = r#"{"market_data":{"current_price":{"usd":29374.15}},"date":"01-01-2021"}"#;
    let now = AssetQuery::new("bitcoin", QueryMode::Current).unwrap();
    let then = AssetQuery::new("bitcoin", QueryMode::Historical(ts(2021, 1, 1, 0, 0, 0))).unwrap();
    assert_eq!(
        now.parse_response(current_body),
        Ok(PriceQuoteResult::Current { price: dec("65000.5"), change_24h: dec("2.3") })
    );
    assert_eq!(
        then.parse_response(past_body),
        Ok(PriceQuoteResult::Historical { price: dec("29374.15"), resolved_timestamp: ts(2021, 1, 1, 0, 0, 0) })
    );
    // A response of the other mode gives no quote of this one.
    assert_eq!(now.parse_response(past_body), Err(ParseError::Lookup));
    assert_eq!(then.parse_response(current_body), Err(ParseError::Lookup));
}

#[test]
fn inputs_show_the_asset_and_the_moment() {
    assert_eq!(
        display_inputs("bitcoin", None),
        InputDisplay { asset: "bitcoin".to_string(), date_time: None }
    );
    assert_eq!(
        display_inputs("bitcoin", Some(&ts(2021, 3, 4, 5, 6, 7))),
        InputDisplay { asset: "bitcoin".to_string(), date_time: Some("2021-03-04 05:06:07".to_string()) }
    );
    let query = AssetQuery::new("eth", QueryMode::Historical(ts(2021, 3, 4, 5, 6, 7))).unwrap();
    assert_eq!(query_display(&query), display_inputs("eth", Some(&ts(2021, 3, 4, 5, 6, 7))));
    let query = AssetQuery::new("eth", QueryMode::Current).unwrap();
    assert_eq!(query_display(&query), display_inputs("eth", None));
}

#[test]
fn outputs_show_the_price_with_moment_or_change() {
    assert_eq!(
        display_outputs(&dec("65000.5"), None, Some(&dec("2.3"))),
        OutputDisplay { date_time: None, price: dec("65000.5"), change_24h: Some(dec("2.3")) }
    );
    assert_eq!(
        display_outputs(&dec("29374.15"), Some(&ts(2021, 1, 1, 0, 0, 0)), None),
        OutputDisplay { date_time: Some("2021-01-01 00:00:00".to_string()), price: dec("29374.15"), change_24h: None }
    );
    let quote = PriceQuoteResult::Current { price: dec("1.5"), change_24h: dec("-0.5") };
    assert_eq!(quote_display(&quote), display_outputs(&dec("1.5"), None, Some(&dec("-0.5"))));
    assert_eq!(quote.price(), &dec("1.5"));
    let quote = PriceQuoteResult::Historical { price: dec("7"), resolved_timestamp: ts(2019, 9, 9, 0, 0, 0) };
    assert_eq!(quote_display(&quote), display_outputs(&dec("7"), Some(&ts(2019, 9, 9, 0, 0, 0)), None));
    assert_eq!(quote.price(), &dec("7"));
    assert_eq!(quote.clone(), quote);
}

#[test]
fn failures_describe_themselves() {
    assert_eq!(QueryError::Transport(timeout()).description(), "the request failed: connection timed out");
    assert_eq!(QueryError::Lookup.description(), "the service has no price for this asset or date");
    assert_eq!(QueryError::Malformed.description(), "the response did not have the expected shape");
    assert_eq!(QueryError::from_parse(ParseError::Lookup), QueryError::Lookup);
    assert_eq!(QueryError::from_parse(ParseError::Malformed), QueryError::Malformed);
    assert_eq!(QueryError::Transport(timeout()).clone(), QueryError::Transport(timeout()));
    assert_ne!(QueryError::Lookup, QueryError::Malformed);
}
