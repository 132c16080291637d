use crypto_price::json::grammar::MAX_DEPTH;
use crypto_price::json::parser::parse_document;
use crypto_price::json::scanner::{after_whitespace, scan_number, scan_string};
use crypto_price::json::value::{same_bytes, JsonValue};

fn number_text(value: &JsonValue) -> String {
    match value {
        JsonValue::Number(n) => n.text(),
        other => panic!("not a number: {:?}", other),
    }
}

fn text_of(value: &JsonValue) -> Vec<u8> {
    match value {
        JsonValue::Text(t) => t.clone(),
        other => panic!("not a text: {:?}", other),
    }
}

#[test]
fn reads_a_nested_document() {
    let doc = parse_document(
        b" {\"a\": [1, 2.5e3, \"x\\u00e9\\n\"], \"b\": {\"c\": null, \"d\": true, \"e\": false}} ",
    )
    .expect("a document");
    let a = doc.get(b"a").expect("member a");
    match a {
        JsonValue::Array(items) => {
            assert_eq!(items.len(), 3);
            assert_eq!(number_text(&items[0]), "1");
            assert_eq!(number_text(&items[1]), "2.5e3");
            assert_eq!(text_of(&items[2]), "x\u{e9}\n".as_bytes());
        }
        other => panic!("not an array: {:?}", other),
    }
    let b = doc.get(b"b").expect("member b");
    assert!(matches!(b.get(b"c"), Some(JsonValue::Null)));
    assert!(matches!(b.get(b"d"), Some(JsonValue::Bool(true))));
    assert!(matches!(b.get(b"e"), Some(JsonValue::Bool(false))));
    assert!(b.get(b"f").is_none());
}

#[test]
fn reads_scalars_at_the_top() {
    assert_eq!(parse_document(b"null"), Some(JsonValue::Null));
    assert_eq!(parse_document(b"\ttrue\r\n"), Some(JsonValue::Bool(true)));
    assert_eq!(parse_document(b"false"), Some(JsonValue::Bool(false)));
    assert_eq!(number_text(&parse_document(b" -0.5E-7 ").unwrap()), "-0.5E-7");
    assert_eq!(text_of(&parse_document(b"\"\"").unwrap()), b"");
    assert_eq!(parse_document(b"[]"), Some(JsonValue::Array(vec![])));
    assert_eq!(parse_document(b"{ }"), Some(JsonValue::Object(vec![])));
}

#[test]
fn refuses_what_is_no_document() {
    let bad: [&[u8]; 24] = [
        b"",
        b"  ",
        b"{",
        b"}",
        b"[1,]",
        b"[1 2]",
        b"[,1]",
        b"{\"a\"}",
        b"{\"a\":}",
        b"{\"a\":1,}",
        b"{a:1}",
        b"{\"a\":1} x",
        b"nul",
        b"truth",
        b"True",
        b"\"open",
        b"\"tab\there\"",
        b"\"\\x\"",
        b"'single'",
        b"1 2",
        b"[1]]",
        b"{\"a\":1}}",
        b"\x00",
        b"\"\\u12\"",
    ];
    for text in bad {
        assert!(parse_document(text).is_none(), "{:?}", String::from_utf8_lossy(text));
    }
}

#[test]
fn numbers_follow_the_grammar() {
    let good: [&[u8]; 10] =
        [b"0", b"-0", b"7", b"10", b"1.0", b"0.000", b"1e5", b"1E+5", b"12.34e-56", b"-9.9E0"];
    for text in good {
        assert_eq!(scan_number(text, 0), Some(text.len()), "{:?}", String::from_utf8_lossy(text));
        assert!(parse_document(text).is_some());
    }
    let bad: [&[u8]; 12] =
        [b"01", b"-", b"+1", b".5", b"1.", b"1.e5", b"1e", b"1e+", b"0x10", b"1.5.2", b"--1", b"1e5.5"];
    for text in bad {
        assert!(parse_document(text).is_none(), "{:?}", String::from_utf8_lossy(text));
    }
    // The number ends where the grammar says, whatever follows.
    assert_eq!(scan_number(b"x12.5,", 1), Some(5));
    assert_eq!(scan_number(b"01", 0), Some(1));
    assert_eq!(scan_number(b"1.e5", 0), None);
    assert_eq!(scan_number(b"abc", 0), None);
    assert_eq!(scan_number(b"", 0), None);
}

#[test]
fn strings_unescape_to_utf8() {
    assert_eq!(
        text_of(&parse_document(b"\"\\\"\\\\\\/\\b\\f\\n\\r\\t\"").unwrap()),
        b"\"\\/\x08\x0c\n\r\t"
    );
    assert_eq!(text_of(&parse_document(b"\"\\u0041\"").unwrap()), b"A");
    assert_eq!(text_of(&parse_document(b"\"\\u00E9\"").unwrap()), "\u{e9}".as_bytes());
    assert_eq!(text_of(&parse_document(b"\"\\u20ac\"").unwrap()), "\u{20ac}".as_bytes());
    assert_eq!(text_of(&parse_document(b"\"\\ud83d\\ude00\"").unwrap()), "\u{1f600}".as_bytes());
    assert_eq!(text_of(&parse_document(b"\"\\uDBFF\\uDFFF\"").unwrap()), "\u{10ffff}".as_bytes());
    assert_eq!(text_of(&parse_document(b"\"\\u0000\"").unwrap()), b"\x00");
    assert_eq!(text_of(&parse_document(b"\"\\u007f\\u0080\\u07ff\\u0800\\uffff\"").unwrap()),
        "\u{7f}\u{80}\u{7ff}\u{800}\u{ffff}".as_bytes());
    // Text that is not escaped is kept byte for byte.
    assert_eq!(
        text_of(&parse_document("\"gr\u{fc}n \u{1f600}\"".as_bytes()).unwrap()),
        "gr\u{fc}n \u{1f600}".as_bytes()
    );
}

#[test]
fn every_code_point_unescapes_as_std_encodes_it() {
    for cp in (0u32..0x110000).step_by(7).chain([0x7f, 0x80, 0x7ff, 0x800, 0xffff, 0x10000, 0x10ffff]) {
        let c = match char::from_u32(cp) {
            Some(c) => c,
            None => continue,
        };
        let mut utf16 = [0u16; 2];
        let units = c.encode_utf16(&mut utf16);
        let mut text = String::from("\"");
        for unit in units.iter() {
            text.push_str(&format!("\\u{:04x}", unit));
        }
        text.push('"');
        let mut utf8 = [0u8; 4];
        let expected = c.encode_utf8(&mut utf8).as_bytes();
        assert_eq!(text_of(&parse_document(text.as_bytes()).unwrap()), expected, "U+{:04X}", cp);
    }
}

#[test]
fn lone_surrogates_are_refused() {
    assert!(parse_document(b"\"\\ud800\"").is_none());
    assert!(parse_document(b"\"\\udc00\"").is_none());
    assert!(parse_document(b"\"\\ud800\\u0041\"").is_none());
    assert!(parse_document(b"\"\\ud800\\ud800\"").is_none());
    assert!(parse_document(b"\"\\ud800x\"").is_none());
    assert!(parse_document(b"\"\\udfff\\ud800\"").is_none());
}

#[test]
fn scan_string_gives_text_and_end() {
    assert_eq!(scan_string(b"xx\"ab\\n\"yy", 2), Some((b"ab\n".to_vec(), 8)));
    assert_eq!(scan_string(b"\"\"", 0), Some((vec![], 2)));
    assert_eq!(scan_string(b"ab", 0), None);
    assert_eq!(scan_string(b"\"ab", 0), None);
    assert_eq!(scan_string(b"\"ab\"", 9), None);
}

#[test]
fn whitespace_is_space_tab_and_line_ends() {
    assert_eq!(after_whitespace(b" \t\r\n x", 0), 5);
    assert_eq!(after_whitespace(b"x ", 0), 0);
    assert_eq!(after_whitespace(b"   ", 1), 3);
    assert_eq!(after_whitespace(b"\x0bx", 0), 0);
    assert!(parse_document(b"\x0c1").is_none());
    assert!(parse_document("\u{a0}1".as_bytes()).is_none());
}

#[test]
fn nesting_is_bounded() {
    let deep = |n: usize| {
        let mut text = Vec::new();
        text.extend(std::iter::repeat(b'[').take(n));
        text.extend(std::iter::repeat(b']').take(n));
        text
    };
    assert_eq!(MAX_DEPTH, 128);
    assert!(parse_document(&deep(1)).is_some());
    assert!(parse_document(&deep(128)).is_some());
    assert!(parse_document(&deep(129)).is_none());
    assert!(parse_document(&deep(100_000)).is_none());
    let mut objects = Vec::new();
    for _ in 0..128 {
        objects.extend_from_slice(b"{\"a\":");
    }
    objects.extend_from_slice(b"1");
    objects.extend(std::iter::repeat(b'}').take(128));
    assert!(parse_document(&objects).is_some());
    let mut more = b"[".to_vec();
    more.extend_from_slice(&objects);
    more.push(b']');
    assert!(parse_document(&more).is_none());
}

#[test]
fn a_later_member_overrides_an_earlier_one() {
    let doc = parse_document(b"{\"a\":1,\"b\":2,\"a\":3}").unwrap();
    assert_eq!(number_text(doc.get(b"a").unwrap()), "3");
    assert_eq!(number_text(doc.get(b"b").unwrap()), "2");
    assert!(doc.get(b"c").is_none());
    assert!(doc.get(b"").is_none());
}

#[test]
fn names_are_compared_after_unescaping() {
    let doc = parse_document(b"{\"\\u0062tc\":1,\"\":2}").unwrap();
    assert_eq!(number_text(doc.get(b"btc").unwrap()), "1");
    assert_eq!(number_text(doc.get(b"").unwrap()), "2");
    assert!(doc.get(b"\\u0062tc").is_none());
}

#[test]
fn only_objects_have_members() {
    assert!(parse_document(b"[1]").unwrap().get(b"0").is_none());
    assert!(parse_document(b"\"a\"").unwrap().get(b"a").is_none());
    assert!(parse_document(b"null").unwrap().get(b"a").is_none());
}

#[test]
fn same_bytes_compares_content() {
    assert!(same_bytes(b"", b""));
    assert!(same_bytes(b"abc", b"abc"));
    assert!(!same_bytes(b"abc", b"abd"));
    assert!(!same_bytes(b"abc", b"ab"));
    assert!(!same_bytes(b"", b"a"));
}
