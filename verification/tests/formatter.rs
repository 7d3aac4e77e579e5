use jasn::formatter::options::{BinaryEncoding, Options, QuoteStyle, TimestampPrecision};
use jasn::formatter::{format_int, to_string, to_string_opts, to_string_pretty};
use jasn::jaml;
use jasn::scalar::{can_be_unquoted, format_string};
use jasn::{parse, Binary, Entries, Float, Timestamp, Value};

fn float(text: &str) -> Value {
    Value::Float(Float::from_text(text).unwrap())
}

#[test]
fn test_format_primitives() {
    assert_eq!(to_string(&Value::Null), "null");
    assert_eq!(to_string(&Value::Bool(true)), "true");
    assert_eq!(to_string(&Value::Bool(false)), "false");
    assert_eq!(to_string(&Value::Int(42)), "42");
    assert_eq!(to_string(&Value::Int(-123)), "-123");
}

#[test]
fn test_format_float() {
    assert_eq!(to_string(&float("3.0")), "3.0");
    assert_eq!(to_string(&float("2.5")), "2.5");
    assert_eq!(to_string(&Value::Float(Float::infinity())), "inf");
    assert_eq!(to_string(&Value::Float(Float::neg_infinity())), "-inf");
}

#[test]
fn test_format_float_nan() {
    assert!(to_string(&Value::Float(Float::nan())).contains("nan"));
}

#[test]
fn test_format_string() {
    assert_eq!(to_string(&Value::String("hello".to_string())), "\"hello\"");
    assert_eq!(
        to_string(&Value::String("hello\nworld".to_string())),
        "\"hello\\nworld\""
    );
    assert_eq!(
        to_string(&Value::String("tab\there".to_string())),
        "\"tab\\there\""
    );
}

#[test]
fn test_format_binary() {
    let binary = Binary(vec![72, 101, 108, 108, 111]); // "Hello"
    assert_eq!(to_string(&Value::Binary(binary)), "b64\"SGVsbG8=\"");
}

#[test]
fn formatter_test_format_list() {
    let list = vec![Value::Int(1), Value::Int(2), Value::Int(3)];
    assert_eq!(to_string(&Value::List(list)), "[1,2,3]");

    assert_eq!(to_string(&Value::List(vec![])), "[]");

    let list = Value::List(vec![Value::Int(1), Value::Int(2), Value::Int(3)]);
    let result = jaml::formatter::format(&list);
    assert_eq!(result, "- 1\n- 2\n- 3\n");
}

#[test]
fn formatter_test_format_map() {
    let mut map = Entries::new();
    map.insert("name".to_string(), Value::String("Alice".to_string()));
    map.insert("age".to_string(), Value::Int(30));

    let formatted = to_string(&Value::Mapping(map));
    // Compact format uses unquoted keys to save bytes
    assert!(formatted.contains("age:30"));
    assert!(formatted.contains("name:\"Alice\""));
    assert_eq!(formatted, "{age:30,name:\"Alice\"}");

    let mut map = Entries::new();
    map.insert("age".to_string(), Value::Int(30));
    map.insert("name".to_string(), Value::String("Alice".to_string()));

    let result = jaml::formatter::format(&Value::Mapping(map));
    assert_eq!(result, "age: 30\nname: \"Alice\"\n");
}

#[test]
fn formatter_test_round_trip() {
    // Null
    let null = Value::Null;
    assert_eq!(parse(&to_string(&null)).unwrap(), null);

    // Bool
    let bool_val = Value::Bool(true);
    assert_eq!(parse(&to_string(&bool_val)).unwrap(), bool_val);

    // Int
    let int_val = Value::Int(42);
    assert_eq!(parse(&to_string(&int_val)).unwrap(), int_val);

    // Float
    let float_val = float("2.5");
    assert_eq!(parse(&to_string(&float_val)).unwrap(), float_val);

    // String
    let string_val = Value::String("hello world".to_string());
    assert_eq!(parse(&to_string(&string_val)).unwrap(), string_val);

    // List
    let list_val = Value::List(vec![Value::Int(1), Value::Int(2)]);
    assert_eq!(parse(&to_string(&list_val)).unwrap(), list_val);

    // Map
    let mut map = Entries::new();
    map.insert("key".to_string(), Value::Int(42));
    let map_val = Value::Mapping(map);
    assert_eq!(parse(&to_string(&map_val)).unwrap(), map_val);

    // The block syntax
    let input = "name: \"Alice\"\nage: 30\n";
    let value = jaml::parser::parse(input).unwrap();
    let formatted = jaml::formatter::format(&value);
    let reparsed = jaml::parser::parse(&formatted).unwrap();
    assert_eq!(value, reparsed);
}

#[test]
fn formatter_test_pretty_format() {
    let mut map = Entries::new();
    map.insert("name".to_string(), Value::String("Alice".to_string()));
    map.insert("age".to_string(), Value::Int(30));

    let pretty = to_string_pretty(&Value::Mapping(map));
    assert!(pretty.contains('\n'));
    assert!(pretty.contains("  "));
    assert_eq!(pretty, "{\n  age: 30,\n  name: \"Alice\",\n}");
}

#[test]
fn test_can_be_unquoted() {
    let cases = [
        ("hello", true),
        ("_private", true),
        ("key123", true),
        ("_", true),
        ("", false),
        ("123", false),
        ("null", false),
        ("true", false),
        ("false", false),
        ("kebab-case", false),
        ("inf", false),
        ("nan", false),
        ("Null", true),
        ("a b", false),
        ("caf\u{e9}", false),
    ];
    for (input, expected) in cases {
        assert_eq!(can_be_unquoted(input), expected, "{:?}", input);
    }
}

#[test]
fn test_leading_plus() {
    let opts = Options::compact().with_leading_plus(true);
    let cases = vec![
        (Value::Int(42), "+42"),
        (Value::Int(0), "+0"),
        (Value::Int(-42), "-42"),
        (float("2.5"), "+2.5"),
        (float("-2.5"), "-2.5"),
        (Value::Float(Float::infinity()), "+inf"),
        (Value::Float(Float::neg_infinity()), "-inf"),
        (Value::Float(Float::nan()), "nan"),
    ];
    for (value, expected) in cases {
        assert_eq!(to_string_opts(&value, &opts), expected);
    }
}

#[test]
fn test_no_leading_plus() {
    let opts = Options::compact();
    assert_eq!(to_string_opts(&Value::Int(42), &opts), "42");
    assert_eq!(to_string_opts(&float("2.5"), &opts), "2.5");
}

#[test]
fn test_sort_keys() {
    let mut map = Entries::new();
    map.insert("zebra".to_string(), Value::Int(1));
    map.insert("apple".to_string(), Value::Int(2));
    map.insert("banana".to_string(), Value::Int(3));

    // With sort_keys enabled
    let sorted_opts = Options::compact().with_sort_keys(true);
    let sorted = to_string_opts(&Value::Mapping(map), &sorted_opts);

    // Should be alphabetically ordered
    assert_eq!(sorted, "{apple:2,banana:3,zebra:1}");

    // Pretty mode with sort_keys
    let pretty_sorted = Options::pretty().with_sort_keys(true);
    let mut map2 = Entries::new();
    map2.insert("z".to_string(), Value::Int(1));
    map2.insert("a".to_string(), Value::Int(2));
    let result = to_string_opts(&Value::Mapping(map2), &pretty_sorted);
    assert!(result.find("a").unwrap() < result.find("z").unwrap());
}

#[test]
fn test_escape_unicode() {
    let opts = Options::compact().with_escape_unicode(true);

    // ASCII characters should not be escaped
    let ascii = Value::String("hello".to_string());
    assert_eq!(to_string_opts(&ascii, &opts), "\"hello\"");

    // Non-ASCII characters should be escaped
    let unicode = Value::String("caf\u{e9}".to_string());
    assert_eq!(to_string_opts(&unicode, &opts), "\"caf\\u00e9\"");

    // Emoji should be escaped using UTF-16 surrogate pairs (U+1F30D => D83C DF0D)
    let emoji = Value::String("Hello \u{1F30D}".to_string());
    assert_eq!(to_string_opts(&emoji, &opts), "\"Hello \\ud83c\\udf0d\"");

    // Chinese characters
    let chinese = Value::String("\u{4f60}\u{597d}".to_string());
    assert_eq!(to_string_opts(&chinese, &opts), "\"\\u4f60\\u597d\"");

    // Without escape_unicode should keep Unicode literal
    let no_escape = Options::compact().with_escape_unicode(false);
    let result = to_string_opts(&unicode, &no_escape);
    assert_eq!(result, "\"caf\u{e9}\"");
}

#[test]
fn test_surrogate_pair_encoding() {
    let cases = [
        ("\u{1F600}", "\"\\ud83d\\ude00\""),
        ("\u{1F44D}", "\"\\ud83d\\udc4d\""),
        ("\u{1D11E}", "\"\\ud834\\udd1e\""),
        (
            "\u{1F600}\u{1F601}\u{1F602}",
            "\"\\ud83d\\ude00\\ud83d\\ude01\\ud83d\\ude02\"",
        ),
        ("Hello \u{1F600} World", "\"Hello \\ud83d\\ude00 World\""),
        ("\u{4e2d}\u{6587}", "\"\\u4e2d\\u6587\""),
        ("\u{10000}", "\"\\ud800\\udc00\""),
        ("\u{10FFFF}", "\"\\udbff\\udfff\""),
        ("\u{FFFF}", "\"\\uffff\""),
    ];
    let opts = Options::compact().with_escape_unicode(true);
    for (input, expected) in cases {
        let value = Value::String(input.to_string());
        assert_eq!(to_string_opts(&value, &opts), expected);
    }
}

#[test]
fn test_surrogate_pair_round_trip() {
    let cases = [
        "\u{1F600}",
        "\u{1F30D}",
        "\u{1F44D}",
        "\u{1D11E}",
        "Hello \u{1F600} World",
        "\u{1F600}\u{1F601}\u{1F602}",
        "\u{10000}\u{10FFFF}\u{FFFF}\u{E000}\u{D7FF}",
    ];
    let opts = Options::compact().with_escape_unicode(true);
    for plain in cases {
        let value = Value::String(plain.to_string());
        let formatted = to_string_opts(&value, &opts);
        assert!(formatted.is_ascii());
        let parsed = parse(&formatted).expect("Failed to parse");

        if let Value::String(s) = parsed {
            assert_eq!(s, plain, "Round-trip failed for: {}", plain);
        } else {
            panic!("Expected String value");
        }
    }
}

#[test]
fn test_format_timestamp_default() {
    let ts = Timestamp::from_unix_timestamp(1234567890).unwrap();
    let value = Value::Timestamp(ts);

    // Default (use_zulu = true) - should use Z notation
    let result = to_string(&value);
    assert_eq!(result, "ts\"2009-02-13T23:31:30Z\"");
}

#[test]
fn test_format_timestamp_zulu() {
    for (use_zulu, expected) in [
        (true, "ts\"2009-02-13T23:31:30Z\""),
        (false, "ts\"2009-02-13T23:31:30+00:00\""),
    ] {
        let ts = Timestamp::from_unix_timestamp(1234567890).unwrap();
        let value = Value::Timestamp(ts);
        let opts = Options::compact().with_use_zulu(use_zulu);
        let result = to_string_opts(&value, &opts);
        assert_eq!(result, expected);
    }
}

#[test]
fn test_format_timestamp_fractional_zulu() {
    for (use_zulu, expected) in [
        (true, "ts\"2009-02-13T23:31:30.123456789Z\""),
        (false, "ts\"2009-02-13T23:31:30.123456789+00:00\""),
    ] {
        let ts = Timestamp::from_unix_timestamp_nanos(1234567890123456789).unwrap();
        let value = Value::Timestamp(ts);
        let opts = Options::compact().with_use_zulu(use_zulu);
        let result = to_string_opts(&value, &opts);
        assert_eq!(result, expected);
    }
}

#[test]
fn test_format_timestamp_precision() {
    for (precision, expected) in [
        (TimestampPrecision::Auto, "ts\"2009-02-13T23:31:30.123456789Z\""),
        (TimestampPrecision::Seconds, "ts\"2009-02-13T23:31:30Z\""),
        (TimestampPrecision::Milliseconds, "ts\"2009-02-13T23:31:30.123Z\""),
        (TimestampPrecision::Microseconds, "ts\"2009-02-13T23:31:30.123456Z\""),
        (TimestampPrecision::Nanoseconds, "ts\"2009-02-13T23:31:30.123456789Z\""),
    ] {
        let ts = Timestamp::from_unix_timestamp_nanos(1234567890123456789).unwrap();
        let value = Value::Timestamp(ts);
        let opts = Options::compact().with_timestamp_precision(precision);
        let result = to_string_opts(&value, &opts);
        assert_eq!(result, expected);
    }
}

#[test]
fn test_format_timestamp_precision_with_offset() {
    let ts = Timestamp::from_unix_timestamp_nanos(1234567890123456789).unwrap();
    let value = Value::Timestamp(ts);
    let opts = Options::compact()
        .with_timestamp_precision(TimestampPrecision::Milliseconds)
        .with_use_zulu(false);
    let result = to_string_opts(&value, &opts);
    assert_eq!(result, "ts\"2009-02-13T23:31:30.123+00:00\"");
}

#[test]
fn test_format_timestamp_precision_padding() {
    // Test precision padding (timestamp without fractional seconds)
    // When formatted with higher precision, should add zeros
    let ts = Timestamp::from_unix_timestamp(1234567890).unwrap();
    let value = Value::Timestamp(ts);
    let opts = Options::compact().with_timestamp_precision(TimestampPrecision::Milliseconds);
    let result = to_string_opts(&value, &opts);
    assert_eq!(result, "ts\"2009-02-13T23:31:30.000Z\"");
}

#[test]
fn timestamps_with_an_offset_keep_it() {
    let ts = Timestamp::new(1234567890123456789, -5 * 3600).unwrap();
    let value = Value::Timestamp(ts);
    assert_eq!(to_string(&value), "ts\"2009-02-13T18:31:30.123456789-05:00\"");
    let opts = Options::compact().with_timestamp_precision(TimestampPrecision::Seconds);
    assert_eq!(to_string_opts(&value, &opts), "ts\"2009-02-13T18:31:30-05:00\"");
    assert_eq!(parse(&to_string(&value)).unwrap(), value);
}

#[test]
fn integers_at_the_edges() {
    let opts = Options::compact();
    assert_eq!(format_int(i64::MAX, &opts), "9223372036854775807");
    assert_eq!(format_int(i64::MIN, &opts), "-9223372036854775808");
    assert_eq!(format_int(0, &opts), "0");
    assert_eq!(format_int(-1, &opts), "-1");
    assert_eq!(format_int(10, &opts), "10");
    assert_eq!(format_int(1000000, &opts.clone().with_leading_plus(true)), "+1000000");
    assert_eq!(parse("9223372036854775807").unwrap(), Value::Int(i64::MAX));
    assert_eq!(parse("-9223372036854775808").unwrap(), Value::Int(i64::MIN));
}

#[test]
fn strings_escape_what_must_be_escaped() {
    assert_eq!(format_string("a\"b'c", '"', false), "\"a\\\"b'c\"");
    assert_eq!(format_string("a\"b'c", '\'', false), "'a\"b\\'c'");
    assert_eq!(format_string("\\ / \r \u{8} \u{c}", '"', false), "\"\\\\ \\/ \\r \\b \\f\"");
    assert_eq!(format_string("\u{0}\u{1f}\u{7f}\u{9f}", '"', false), "\"\\u0000\\u001f\\u007f\\u009f\"");
    assert_eq!(format_string("\u{a0}\u{e9}", '"', false), "\"\u{a0}\u{e9}\"");
    assert_eq!(format_string("\u{a0}", '"', true), "\"\\u00a0\"");
    assert_eq!(format_string("", '"', true), "\"\"");
}

#[test]
fn quote_styles() {
    let both = Value::String("it's \"x\"".to_string());
    let double_only = Value::String("say \"x\"".to_string());
    let plain = Value::String("plain".to_string());
    let double = Options::compact().with_quote_style(QuoteStyle::Double);
    let single = Options::compact().with_quote_style(QuoteStyle::Single);
    let prefer = Options::compact().with_quote_style(QuoteStyle::PreferDouble);
    assert_eq!(to_string_opts(&double_only, &double), "\"say \\\"x\\\"\"");
    assert_eq!(to_string_opts(&double_only, &single), "'say \"x\"'");
    assert_eq!(to_string_opts(&double_only, &prefer), "'say \"x\"'");
    assert_eq!(to_string_opts(&both, &prefer), "\"it's \\\"x\\\"\"");
    assert_eq!(to_string_opts(&plain, &prefer), "\"plain\"");
    assert_eq!(to_string_opts(&plain, &single), "'plain'");
    for opts in [&double, &single, &prefer] {
        for value in [&both, &double_only, &plain] {
            assert_eq!(&parse(&to_string_opts(value, opts)).unwrap(), value);
        }
    }
}

#[test]
fn binary_encodings() {
    let value = Value::Binary(Binary(vec![0x00, 0x0f, 0xf0, 0xff, 0x48]));
    let hex = Options::compact().with_binary_encoding(BinaryEncoding::Hex);
    assert_eq!(to_string_opts(&value, &hex), "h\"000ff0ff48\"");
    assert_eq!(to_string(&value), "b64\"AA/w/0g=\"");
    assert_eq!(to_string(&Value::Binary(Binary::new())), "b64\"\"");
    assert_eq!(to_string_opts(&Value::Binary(Binary::new()), &hex), "h\"\"");
    assert_eq!(parse(&to_string_opts(&value, &hex)).unwrap(), value);
    assert_eq!(parse(&to_string(&value)).unwrap(), value);
}

#[test]
fn keys_are_quoted_where_they_must_be() {
    let mut map = Entries::new();
    map.insert("plain".to_string(), Value::Int(1));
    map.insert("null".to_string(), Value::Int(2));
    map.insert("two words".to_string(), Value::Int(3));
    map.insert("".to_string(), Value::Int(4));
    let value = Value::Mapping(map);
    assert_eq!(
        to_string(&value),
        "{\"\":4,\"null\":2,plain:1,\"two words\":3}"
    );
    let quoted = Options::compact().with_unquoted_keys(false);
    assert_eq!(
        to_string_opts(&value, &quoted),
        "{\"\":4,\"null\":2,\"plain\":1,\"two words\":3}"
    );
    assert_eq!(parse(&to_string(&value)).unwrap(), value);
    assert_eq!(parse(&to_string_opts(&value, &quoted)).unwrap(), value);
}

#[test]
fn pretty_output_nests_by_the_indent_string() {
    let mut inner = Entries::new();
    inner.insert("b".to_string(), Value::List(vec![]));
    inner.insert("a".to_string(), Value::List(vec![Value::Int(1), Value::Null]));
    let mut outer = Entries::new();
    outer.insert("m".to_string(), Value::Mapping(inner));
    outer.insert("e".to_string(), Value::Mapping(Entries::new()));
    let value = Value::List(vec![Value::Mapping(outer), Value::Bool(false)]);
    assert_eq!(
        to_string_pretty(&value),
        "[\n  {\n    e: {},\n    m: {\n      a: [\n        1,\n        null,\n      ],\n      b: [],\n    },\n  },\n  false,\n]"
    );
    let tabs = Options::pretty().with_indent("\t").with_trailing_commas(false);
    assert_eq!(
        to_string_opts(&value, &tabs),
        "[\n\t{\n\t\te: {},\n\t\tm: {\n\t\t\ta: [\n\t\t\t\t1,\n\t\t\t\tnull\n\t\t\t],\n\t\t\tb: []\n\t\t}\n\t},\n\tfalse\n]"
    );
    assert_eq!(to_string(&value), "[{e:{},m:{a:[1,null],b:[]}},false]");
    assert_eq!(parse(&to_string_pretty(&value)).unwrap(), value);
    assert_eq!(parse(&to_string_opts(&value, &tabs)).unwrap(), value);
    assert_eq!(parse(&to_string(&value)).unwrap(), value);
}

#[test]
fn formatting_is_idempotent_through_a_parse() {
    let text = "{b: [1, 2.50, 'x'], a: {z: h\"ff\", y: ts\"2024-01-15T12:30:45Z\"}}";
    let value = parse(text).unwrap();
    for opts in [Options::compact(), Options::pretty(), Options::pretty().with_leading_plus(true)] {
        let once = to_string_opts(&value, &opts);
        let twice = to_string_opts(&parse(&once).unwrap(), &opts);
        assert_eq!(once, twice);
    }
}

#[test]
fn reformatting_reads_and_writes() {
    let opts = jasn::tool::build_format_options(
        false,
        "\t",
        QuoteStyle::Single,
        BinaryEncoding::Hex,
        true,
        true,
        true,
        true,
    );
    assert_eq!(opts.indent, "\t");
    assert!(!opts.trailing_commas);
    assert_eq!(opts.quote_style, QuoteStyle::Single);
    assert_eq!(opts.binary_encoding, BinaryEncoding::Hex);
    assert!(!opts.unquoted_keys);
    assert!(!opts.sort_keys);
    assert!(opts.escape_unicode);
    assert!(!opts.leading_plus);
    let compact = jasn::tool::build_format_options(
        true,
        "    ",
        QuoteStyle::Double,
        BinaryEncoding::Base64,
        false,
        false,
        false,
        false,
    );
    assert_eq!(compact.indent, "");
    assert!(compact.trailing_commas);
    assert!(compact.unquoted_keys);
    assert!(!compact.escape_unicode);
    let text = "{b: [1, 2,], /* c */ a: b64\"/w==\"}";
    assert_eq!(
        jasn::tool::reformat(text, &opts),
        Ok("{\n\t'a': h\"ff\",\n\t'b': [\n\t\t1,\n\t\t2\n\t]\n}".to_string())
    );
    assert_eq!(jasn::tool::reformat(text, &compact), Ok("{a:b64\"/w==\",b:[1,2]}".to_string()));
    assert_eq!(jasn::tool::reformat("[1, 2", &compact), Err(jasn::Error::Syntax(5)));
}
