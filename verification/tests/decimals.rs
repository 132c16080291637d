use crypto_price::decimal::Decimal;

#[test]
fn a_decimal_keeps_its_literal() {
    for text in ["0", "-0", "65000.5", "2.3", "1e-7", "29374.15", "0.1000000000000000055511151231257827"] {
        let d = Decimal::parse(text).expect(text);
        assert_eq!(d.text(), text);
        assert_eq!(d.as_bytes(), text.as_bytes());
        assert_eq!(d.clone(), d);
    }
}

#[test]
fn a_decimal_is_a_whole_number_literal() {
    for text in ["", " 1", "1 ", "01", "1,5", "abc", "NaN", "inf", "-", "1.", ".1", "+1", "0x1", "1e"] {
        assert!(Decimal::parse(text).is_none(), "{:?}", text);
        assert!(Decimal::from_bytes(text.as_bytes()).is_none(), "{:?}", text);
    }
}

#[test]
fn a_decimal_reads_as_the_float_it_writes() {
    let value: f64 = Decimal::parse("65000.5").unwrap().text().parse().unwrap();
    assert_eq!(value, 65000.5);
    let value: f64 = Decimal::parse("-2.5e-3").unwrap().text().parse().unwrap();
    assert_eq!(value, -0.0025);
}
