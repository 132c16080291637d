use crypto_price::current_api::{build_url, parse_api_response};
use crypto_price::quote::{ParseError, PriceQuoteResult};

fn as_f64(text: String) -> f64 {
    text.parse().expect("a float")
}

fn current(found: Result<PriceQuoteResult, ParseError>) -> (String, String) {
    match found {
        Ok(PriceQuoteResult::Current { price, change_24h }) => (price.text(), change_24h.text()),
        other => panic!("no current quote: {:?}", other),
    }
}

#[test]
fn current_url_names_the_asset_and_asks_for_the_change() {
    assert_eq!(
        build_url("bitcoin"),
        "https://api.coingecko.com/api/v3/simple/price?ids=bitcoin&vs_currencies=usd&include_24hr_change=true"
    );
    assert_eq!(
        build_url("not-a-real-coin"),
        "https://api.coingecko.com/api/v3/simple/price?ids=not-a-real-coin&vs_currencies=usd&include_24hr_change=true"
    );
}

#[test]
fn current_url_is_the_same_each_time() {
    for asset in ["bitcoin", "ethereum", "x", "\u{20bf}", "a b&c"] {
        assert_eq!(build_url(asset).into_bytes(), build_url(asset).into_bytes());
    }
    assert_ne!(build_url("bitcoin"), build_url("ethereum"));
}

#[test]
fn current_quote_holds_price_and_change() {
    let found = parse_api_response(r#"{"bitcoin":{"usd":65000.5,"usd_24h_change":2.3}}"#, "bitcoin");
    let (price, change) = current(found);
    assert_eq!(as_f64(price), 65000.5);
    assert_eq!(as_f64(change), 2.3);
}

#[test]
fn current_quote_is_not_rounded() {
    let body = r#"{"bitcoin":{"usd":0.1000000000000000055511151231257827,"usd_24h_change":-1.23456789012345678901234567890e-5}}"#;
    let (price, change) = current(parse_api_response(body, "bitcoin"));
    assert_eq!(price, "0.1000000000000000055511151231257827");
    assert_eq!(change, "-1.23456789012345678901234567890e-5");
}

#[test]
fn current_quote_is_found_among_other_assets_and_fields() {
    let body = r#"
        {
          "ethereum": {"usd": 3500, "usd_24h_change": -0.75},
          "bitcoin": {"usd_market_cap": 1.2e12, "usd_24h_change": 2.3, "eur": 60000, "usd": 65000.5}
        }"#;
    assert_eq!(current(parse_api_response(body, "bitcoin")), ("65000.5".to_string(), "2.3".to_string()));
    assert_eq!(current(parse_api_response(body, "ethereum")), ("3500".to_string(), "-0.75".to_string()));
}

#[test]
fn unknown_asset_fails_the_lookup() {
    assert_eq!(parse_api_response("{}", "not-a-real-coin"), Err(ParseError::Lookup));
    assert_eq!(
        parse_api_response(r#"{"bitcoin":{"usd":65000.5,"usd_24h_change":2.3}}"#, "ethereum"),
        Err(ParseError::Lookup)
    );
    assert_eq!(
        parse_api_response(r#"{"Bitcoin":{"usd":65000.5,"usd_24h_change":2.3}}"#, "bitcoin"),
        Err(ParseError::Lookup)
    );
    assert_eq!(parse_api_response(r#"{"usd":1,"usd_24h_change":2}"#, "bitcoin"), Err(ParseError::Lookup));
}

#[test]
fn missing_or_mistyped_fields_are_malformed() {
    for body in [
        r#"{"bitcoin":{}}"#,
        r#"{"bitcoin":{"usd":65000.5}}"#,
        r#"{"bitcoin":{"usd_24h_change":2.3}}"#,
        r#"{"bitcoin":{"usd":"65000.5","usd_24h_change":2.3}}"#,
        r#"{"bitcoin":{"usd":65000.5,"usd_24h_change":null}}"#,
        r#"{"bitcoin":{"usd":[65000.5],"usd_24h_change":2.3}}"#,
        r#"{"bitcoin":{"usd":true,"usd_24h_change":false}}"#,
        r#"{"bitcoin":{"USD":65000.5,"usd_24h_change":2.3}}"#,
        r#"{"bitcoin":{"eur":65000.5,"eur_24h_change":2.3}}"#,
        r#"{"bitcoin":null}"#,
        r#"{"bitcoin":65000.5}"#,
        r#"{"bitcoin":[{"usd":65000.5,"usd_24h_change":2.3}]}"#,
    ] {
        assert_eq!(parse_api_response(body, "bitcoin"), Err(ParseError::Malformed), "{}", body);
    }
}

#[test]
fn what_is_no_json_object_is_malformed() {
    for body in [
        "",
        "not json",
        "<html></html>",
        "[]",
        "null",
        "42",
        "\"bitcoin\"",
        r#"[{"bitcoin":{"usd":65000.5,"usd_24h_change":2.3}}]"#,
        r#"{"bitcoin":{"usd":65000.5,"usd_24h_change":2.3}"#,
        r#"{"bitcoin":{"usd":65000.5,"usd_24h_change":2.3}} trailing"#,
        r#"{"bitcoin":{"usd":NaN,"usd_24h_change":2.3}}"#,
        r#"{"bitcoin":{"usd":Infinity,"usd_24h_change":2.3}}"#,
        r#"{"bitcoin":{"usd":65000.5,"usd_24h_change":2.3,}}"#,
        r#"{"other":01}"#,
    ] {
        assert_eq!(parse_api_response(body, "bitcoin"), Err(ParseError::Malformed), "{}", body);
    }
}

#[test]
fn a_repeated_field_counts_once_with_its_last_value() {
    let body = r#"{"bitcoin":{"usd":1,"usd_24h_change":2},"bitcoin":{"usd":3,"usd":4,"usd_24h_change":5}}"#;
    assert_eq!(current(parse_api_response(body, "bitcoin")), ("4".to_string(), "5".to_string()));
}

#[test]
fn the_asset_may_be_any_text() {
    let body = "{\"\u{20bf} coin\":{\"usd\":1,\"usd_24h_change\":2},\"a\\\"b\":{\"usd\":3,\"usd_24h_change\":4}}";
    assert_eq!(current(parse_api_response(body, "\u{20bf} coin")), ("1".to_string(), "2".to_string()));
    assert_eq!(current(parse_api_response(body, "a\"b")), ("3".to_string(), "4".to_string()));
    assert_eq!(parse_api_response(body, ""), Err(ParseError::Lookup));
}

#[test]
fn the_plainest_response_decodes_to_its_numbers() {
    let assets = ["bitcoin", "x", "a b", "\u{20bf}", "usd", "usd_24h_change", "{}", "[1,2]", ":", " "];
    let numbers = ["0", "-0", "1", "65000.5", "2.3", "-1e-9", "1E+300", "0.000001", "123456789012345678901234567890"];
    for asset in assets {
        for price in numbers {
            for change in numbers {
                let body = format!("{{\"{}\":{{\"usd\":{},\"usd_24h_change\":{}}}}}", asset, price, change);
                assert_eq!(
                    current(parse_api_response(&body, asset)),
                    (price.to_string(), change.to_string()),
                    "{}",
                    body
                );
            }
        }
    }
}
