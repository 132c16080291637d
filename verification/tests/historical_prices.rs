use crypto_price::hist_api::{blank, build_url, parse_api_response, resolved_date};
use crypto_price::json::parser::parse_document;
use crypto_price::quote::{ParseError, PriceQuoteResult};
use crypto_price::timestamp::Timestamp;

fn ts(y: i32, mo: u32, d: u32, h: u32, mi: u32, s: u32) -> Timestamp {
    Timestamp::new(y, mo, d, h, mi, s).expect("a valid timestamp")
}

fn historical(found: Result<PriceQuoteResult, ParseError>) -> (String, Timestamp) {
    match found {
        Ok(PriceQuoteResult::Historical { price, resolved_timestamp }) => (price.text(), resolved_timestamp),
        other => panic!("no historical quote: {:?}", other),
    }
}

#[test]
fn historical_url_names_the_asset_and_the_day() {
    assert_eq!(
        build_url("bitcoin", &ts(2021, 1, 1, 0, 0, 0)),
        "https://api.coingecko.com/api/v3/coins/bitcoin/history?date=01-01-2021&localization=false"
    );
    assert_eq!(
        build_url("ethereum", &ts(2017, 12, 30, 13, 14, 15)),
        "https://api.coingecko.com/api/v3/coins/ethereum/history?date=30-12-2017&localization=false"
    );
}

#[test]
fn historical_url_ignores_the_time_of_day() {
    let morning = build_url("bitcoin", &ts(2021, 1, 1, 0, 0, 0));
    let night = build_url("bitcoin", &ts(2021, 1, 1, 23, 59, 59));
    assert_eq!(morning.into_bytes(), night.into_bytes());
    assert_ne!(build_url("bitcoin", &ts(2021, 1, 1, 0, 0, 0)), build_url("bitcoin", &ts(2021, 1, 2, 0, 0, 0)));
}

#[test]
fn historical_quote_holds_price_and_day() {
    let body = r#"{"market_data":{"current_price":{"usd":29374.15}},"date":"01-01-2021"}"#;
    let (price, day) = historical(parse_api_response(body));
    assert_eq!(price.parse::<f64>().unwrap(), 29374.15);
    assert_eq!(day, ts(2021, 1, 1, 0, 0, 0));
}

#[test]
fn historical_quote_is_found_among_other_fields() {
    let body = r#"
        {
          "id": "bitcoin", "symbol": "btc", "name": "Bitcoin",
          "date": "30-12-2017",
          "image": {"thumb": "https://example.org/t.png"},
          "market_data": {
            "market_cap": {"usd": 219774304130.68, "eur": 183009585808.37},
            "current_price": {"aud": 17046.09, "usd": 13620.36, "eur": 11345.89},
            "total_volume": {"usd": 3979832889.16}
          },
          "community_data": {"twitter_followers": null}
        }"#;
    assert_eq!(historical(parse_api_response(body)), ("13620.36".to_string(), ts(2017, 12, 30, 0, 0, 0)));
}

#[test]
fn historical_quote_is_not_rounded() {
    let body = r#"{"date":"01-01-2021","market_data":{"current_price":{"usd":29374.152000000001234567890123}}}"#;
    assert_eq!(historical(parse_api_response(body)).0, "29374.152000000001234567890123");
}

#[test]
fn no_market_data_fails_the_lookup() {
    for body in [
        r#"{}"#,
        r#"{"date":"01-01-2021"}"#,
        r#"{"id":"bitcoin","symbol":"btc","name":"Bitcoin","date":"01-01-2001"}"#,
        r#"{"market_data":{},"date":"01-01-2021"}"#,
        r#"{"market_data":{ }}"#,
        r#"{"market_data":null,"date":"01-01-2021"}"#,
        r#"{"error":"coin not found"}"#,
        r#"{"current_price":{"usd":29374.15},"date":"01-01-2021"}"#,
    ] {
        assert_eq!(parse_api_response(body), Err(ParseError::Lookup), "{}", body);
    }
}

#[test]
fn missing_or_mistyped_fields_in_history_are_malformed() {
    for body in [
        r#"{"market_data":{"current_price":{"usd":29374.15}}}"#,
        r#"{"market_data":{"current_price":{"usd":29374.15}},"date":null}"#,
        r#"{"market_data":{"current_price":{"usd":29374.15}},"date":20210101}"#,
        r#"{"market_data":{"current_price":{"usd":29374.15}},"date":"2021-01-01"}"#,
        r#"{"market_data":{"current_price":{"usd":29374.15}},"date":"31-02-2021"}"#,
        r#"{"market_data":{"current_price":{"usd":29374.15}},"date":"1-1-2021"}"#,
        r#"{"market_data":{"current_price":{"usd":"29374.15"}},"date":"01-01-2021"}"#,
        r#"{"market_data":{"current_price":{"eur":24000.1}},"date":"01-01-2021"}"#,
        r#"{"market_data":{"current_price":{}},"date":"01-01-2021"}"#,
        r#"{"market_data":{"current_price":29374.15},"date":"01-01-2021"}"#,
        r#"{"market_data":{"market_cap":{"usd":1}},"date":"01-01-2021"}"#,
        r#"{"market_data":{"usd":29374.15},"date":"01-01-2021"}"#,
        r#"{"market_data":[],"date":"01-01-2021"}"#,
        r#"{"market_data":"none","date":"01-01-2021"}"#,
        r#"{"market_data":0,"date":"01-01-2021"}"#,
    ] {
        assert_eq!(parse_api_response(body), Err(ParseError::Malformed), "{}", body);
    }
}

#[test]
fn what_is_no_json_object_in_history_is_malformed() {
    for body in [
        "",
        "Throttled",
        "[]",
        "null",
        r#"{"market_data":{"current_price":{"usd":29374.15}},"date":"01-01-2021""#,
        r#"{"market_data":{"current_price":{"usd":29374.15}},"date":"01-01-2021"}}"#,
        r#"{"market_data":{"current_price":{"usd":.5}},"date":"01-01-2021"}"#,
    ] {
        assert_eq!(parse_api_response(body), Err(ParseError::Malformed), "{}", body);
    }
}

#[test]
fn the_day_answered_for_is_taken_as_it_stands() {
    // The service may answer for another day than the one asked for.
    let asked = build_url("bitcoin", &ts(2021, 1, 3, 10, 0, 0));
    assert!(asked.contains("date=03-01-2021"));
    let body = r#"{"market_data":{"current_price":{"usd":29374.15}},"date":"01-01-2021"}"#;
    assert_eq!(historical(parse_api_response(body)).1, ts(2021, 1, 1, 0, 0, 0));
}

#[test]
fn blank_is_null_or_an_empty_object() {
    let blank_of = |text: &str| blank(&parse_document(text.as_bytes()).unwrap());
    assert!(blank_of("null"));
    assert!(blank_of("{}"));
    assert!(blank_of(" { } "));
    assert!(!blank_of("{\"a\":1}"));
    assert!(!blank_of("[]"));
    assert!(!blank_of("0"));
    assert!(!blank_of("\"\""));
    assert!(!blank_of("false"));
}

#[test]
fn resolved_date_reads_the_date_member() {
    let date_of = |text: &str| resolved_date(&parse_document(text.as_bytes()).unwrap());
    assert_eq!(date_of(r#"{"date":"29-02-2020"}"#), Some(ts(2020, 2, 29, 0, 0, 0)));
    assert_eq!(date_of(r#"{"date":"01-01-2020","date":"02-01-2020"}"#), Some(ts(2020, 1, 2, 0, 0, 0)));
    assert_eq!(date_of(r#"{"date":"29-02-2021"}"#), None);
    assert_eq!(date_of(r#"{"Date":"29-02-2020"}"#), None);
    assert_eq!(date_of(r#"["29-02-2020"]"#), None);
}

#[test]
fn the_plainest_history_decodes_to_its_number_and_day() {
    let numbers = ["0", "-0", "1", "29374.15", "-1e-9", "1E+300", "123456789012345678901234567890"];
    let days = [(2021, 1, 1), (2020, 2, 29), (0, 1, 1), (9999, 12, 31), (1970, 1, 1)];
    for price in numbers {
        for (year, month, day) in days {
            let at = ts(year, month, day, 9, 30, 0);
            let body = format!(
                "{{\"market_data\":{{\"current_price\":{{\"usd\":{}}}}},\"date\":\"{}\"}}",
                price,
                at.date_text()
            );
            assert_eq!(
                historical(parse_api_response(&body)),
                (price.to_string(), at.at_midnight()),
                "{}",
                body
            );
        }
    }
}
