use jasn::formatter::options::{BinaryEncoding, Options, QuoteStyle, TimestampPrecision};
use jasn::jaml::formatter::options as block_options;
use jasn::{jaml, parse, to_string_opts, Binary, Entries, Float, Timestamp, Value};

fn sample() -> Value {
    let mut inner = Entries::new();
    inner.insert("plain".to_string(), Value::Null);
    inner.insert("two words".to_string(), Value::Bool(true));
    inner.insert("null".to_string(), Value::Int(i64::MIN));
    inner.insert("it's \"x\"".to_string(), Value::Int(i64::MAX));
    inner.insert("caf\u{e9}".to_string(), Value::Int(0));
    let mut outer = Entries::new();
    outer.insert("map".to_string(), Value::Mapping(inner));
    outer.insert(
        "floats".to_string(),
        Value::List(vec![
            Value::Float(Float::from_text("2.5").unwrap()),
            Value::Float(Float::from_text("-1e-7").unwrap()),
            Value::Float(Float::from_text("3.0").unwrap()),
            Value::Float(Float::nan()),
            Value::Float(Float::infinity()),
            Value::Float(Float::neg_infinity()),
        ]),
    );
    outer.insert(
        "strings".to_string(),
        Value::List(vec![
            Value::String(String::new()),
            Value::String("say \"x\"".to_string()),
            Value::String("it's".to_string()),
            Value::String("a\\b/c\n\t\r\u{8}\u{c}\u{0}\u{7f}\u{9f}".to_string()),
            Value::String("\u{e9}\u{4e16}\u{1F600}\u{10FFFF} # not a comment // nor this".to_string()),
            Value::String("key: value".to_string()),
        ]),
    );
    outer.insert(
        "data".to_string(),
        Value::List(vec![
            Value::Binary(Binary(vec![])),
            Value::Binary(Binary(vec![0])),
            Value::Binary(Binary(vec![0xff, 0xfe])),
            Value::Binary(Binary((0u8..=255).collect())),
        ]),
    );
    outer.insert(
        "when".to_string(),
        Value::List(vec![
            Value::Timestamp(Timestamp::new(1_234_567_890_123_000_000, 0).unwrap()),
            Value::Timestamp(Timestamp::new(-1_000_000_000, 19_800).unwrap()),
        ]),
    );
    outer.insert(
        "nested".to_string(),
        Value::List(vec![Value::List(vec![Value::List(vec![Value::Int(1)])])]),
    );
    Value::Mapping(outer)
}

#[test]
fn every_configuration_round_trips() {
    let mut value = sample();
    if let Some(map) = value.as_map_mut() {
        map.insert("empty list".to_string(), Value::List(vec![]));
        map.insert("empty map".to_string(), Value::Mapping(Entries::new()));
    }
    let mut count = 0;
    for indent in ["", " ", "  ", "\t", " \t\n"] {
        for trailing in [false, true] {
            for quotes in [QuoteStyle::Double, QuoteStyle::Single, QuoteStyle::PreferDouble] {
                for binary in [BinaryEncoding::Base64, BinaryEncoding::Hex] {
                    for flags in 0..16u8 {
                        let opts = Options::compact()
                            .with_indent(indent)
                            .with_trailing_commas(trailing)
                            .with_quote_style(quotes)
                            .with_binary_encoding(binary)
                            .with_unquoted_keys(flags & 1 != 0)
                            .with_leading_plus(flags & 2 != 0)
                            .with_escape_unicode(flags & 4 != 0)
                            .with_use_zulu(flags & 8 != 0)
                            .with_sort_keys(trailing)
                            .with_timestamp_precision(if trailing {
                                TimestampPrecision::Auto
                            } else {
                                TimestampPrecision::Milliseconds
                            });
                        let text = to_string_opts(&value, &opts);
                        assert_eq!(parse(&text).as_ref(), Ok(&value), "{}", text);
                        assert_eq!(to_string_opts(&parse(&text).unwrap(), &opts), text);
                        count += 1;
                    }
                }
            }
        }
    }
    assert_eq!(count, 5 * 2 * 3 * 2 * 16);
}

#[test]
fn every_block_configuration_round_trips() {
    let value = sample();
    let mut count = 0;
    for quotes in [
        block_options::QuoteStyle::Double,
        block_options::QuoteStyle::Single,
        block_options::QuoteStyle::PreferDouble,
    ] {
        for binary in [block_options::BinaryEncoding::Base64, block_options::BinaryEncoding::Hex] {
            for flags in 0..32u8 {
                let opts = block_options::Options::new()
                    .with_quote_style(quotes)
                    .with_binary_encoding(binary)
                    .with_unquoted_keys(flags & 1 != 0)
                    .with_leading_plus(flags & 2 != 0)
                    .with_escape_unicode(flags & 4 != 0)
                    .with_use_zulu(flags & 8 != 0)
                    .with_sort_keys(flags & 16 != 0)
                    .with_timestamp_precision(if flags & 16 != 0 {
                        block_options::TimestampPrecision::Auto
                    } else {
                        block_options::TimestampPrecision::Microseconds
                    });
                let text = jaml::formatter::format_with_opts(&value, &opts);
                assert_eq!(jaml::parser::parse(&text).as_ref(), Ok(&value), "{}", text);
                assert_eq!(
                    jaml::formatter::format_with_opts(&jaml::parser::parse(&text).unwrap(), &opts),
                    text
                );
                count += 1;
            }
        }
    }
    assert_eq!(count, 3 * 2 * 32);
    for leaf in [
        Value::Null,
        Value::Bool(false),
        Value::Int(-5),
        Value::Float(Float::neg_infinity()),
        Value::Float(Float::nan()),
        Value::String("- not an item".to_string()),
        Value::String("key: value".to_string()),
        Value::Binary(Binary(vec![1, 2, 3])),
        Value::Timestamp(Timestamp::new(0, 0).unwrap()),
    ] {
        let text = jaml::formatter::format(&leaf);
        assert_eq!(jaml::parser::parse(&text).as_ref(), Ok(&leaf), "{}", text);
    }
}

#[test]
fn what_does_not_round_trip() {
    // an indent string that is no white space
    let dotted = Options::pretty().with_indent("..");
    let list = Value::List(vec![Value::Int(1)]);
    assert_eq!(to_string_opts(&list, &dotted), "[\n..1,\n]");
    assert!(parse(&to_string_opts(&list, &dotted)).is_err());
    // a precision that drops digits of the instant
    let seconds = Options::compact().with_timestamp_precision(TimestampPrecision::Seconds);
    let instant = Value::Timestamp(Timestamp::new(1_500_000_000, 0).unwrap());
    assert_ne!(parse(&to_string_opts(&instant, &seconds)), Ok(instant));
    // an empty list or map in the block syntax
    let mut map = Entries::new();
    map.insert("a".to_string(), Value::List(vec![]));
    let holder = Value::Mapping(map);
    assert_eq!(jaml::formatter::format(&holder), "a:\n");
    assert!(jaml::parser::parse(&jaml::formatter::format(&holder)).is_err());
    assert!(jaml::parser::parse(&jaml::formatter::format(&Value::List(vec![]))).is_err());
}

#[test]
fn timestamps_without_rfc3339_text_are_displayed() {
    let odd = Timestamp::new(0, 3601).unwrap();
    let shown = odd.to_rfc3339();
    assert!(shown.starts_with("1970-01-01"), "{}", shown);
    assert!(shown.ends_with("+01:00:01"), "{}", shown);
    assert_eq!(odd.to_described("[year]"), "1970");
    assert_eq!(odd.to_described("[nonsense"), shown);
}
