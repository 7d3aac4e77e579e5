use jasn::parser::JasnParser;
use jasn::{parse, to_string, to_string_pretty, Binary, Entries, Error, Float, Timestamp, Value};

fn as_f64(value: &Value) -> f64 {
    value.as_float().unwrap().as_str().parse().unwrap()
}

// Helper to compare values, treating NaN as equal to NaN
fn assert_values_equal(left: &Value, right: &Value, context: &str) {
    match (left, right) {
        (Value::Float(l), Value::Float(r)) if l.is_nan() && r.is_nan() => {
            // Both NaN, consider them equal
        }
        (Value::List(l), Value::List(r)) => {
            assert_eq!(l.len(), r.len(), "List length mismatch in {}", context);
            for (i, (lv, rv)) in l.iter().zip(r.iter()).enumerate() {
                assert_values_equal(lv, rv, &format!("{}[{}]", context, i));
            }
        }
        (Value::Mapping(l), Value::Mapping(r)) => {
            assert_eq!(l.len(), r.len(), "Map length mismatch in {}", context);
            for i in 0..l.len() {
                let key = l.key_at(i);
                let rv = r
                    .get(key)
                    .expect(&format!("Missing key '{}' in {}", key, context));
                assert_values_equal(l.value_at(i), rv, &format!("{}.{}", context, key));
            }
        }
        _ => {
            assert_eq!(left, right, "Value mismatch in {}", context);
        }
    }
}

#[test]
fn test_parse_null() {
    assert_eq!(parse("null").unwrap(), Value::Null);
}

#[test]
fn test_parse_bool() {
    assert_eq!(parse("true").unwrap(), Value::Bool(true));
    assert_eq!(parse("false").unwrap(), Value::Bool(false));
}

#[test]
fn test_parse_integer() {
    assert_eq!(parse("42").unwrap(), Value::Int(42));
    assert_eq!(parse("-123").unwrap(), Value::Int(-123));
    assert_eq!(parse("0xFF").unwrap(), Value::Int(255));
    assert_eq!(parse("0b1010").unwrap(), Value::Int(10));
    assert_eq!(parse("0o755").unwrap(), Value::Int(493));
}

#[test]
fn test_parse_float() {
    assert_eq!(as_f64(&parse("3.14").unwrap()), 3.14);
    assert_eq!(as_f64(&parse("1e10").unwrap()), 1e10);
    assert!(
        matches!(parse("inf").unwrap(), Value::Float(f) if f.is_infinite() && !f.is_sign_negative())
    );
    assert!(
        matches!(parse("-inf").unwrap(), Value::Float(f) if f.is_infinite() && f.is_sign_negative())
    );
    assert!(matches!(parse("nan").unwrap(), Value::Float(f) if f.is_nan()));
}

#[test]
fn test_parse_string() {
    assert_eq!(
        parse("\"hello\"").unwrap(),
        Value::String("hello".to_string())
    );
    assert_eq!(
        parse("'world'").unwrap(),
        Value::String("world".to_string())
    );
}

#[test]
fn test_parse_list() {
    let result = parse("[1, 2, 3]").unwrap();
    assert!(matches!(result, Value::List(ref v) if v.len() == 3));
}

#[test]
fn test_parse_map() {
    let result = parse("{\"key\": \"value\"}").unwrap();
    assert!(matches!(result, Value::Mapping(_)));
}

#[test]
fn test_double_underscore() {
    assert!(parse("1__000").is_err());
}

#[test]
fn test_trailing_underscore() {
    assert!(parse("1000_").is_err());
}

#[test]
fn test_leading_underscore_number() {
    assert!(parse("_1000").is_err());
}

#[test]
fn test_unquoted_keyword_key() {
    assert!(parse("{null: 1}").is_err());
    assert!(parse("{true: 1}").is_err());
    assert!(parse("{false: 1}").is_err());
}

#[test]
fn test_invalid_escape() {
    assert!(parse(r#""\x""#).is_err());
}

#[test]
fn test_unterminated_string() {
    assert!(parse(r#""unterminated"#).is_err());
}

#[test]
fn test_missing_comma() {
    assert!(parse("[1, 2 3]").is_err());
}

#[test]
fn test_odd_hex_binary() {
    assert!(parse(r#"h"ABC""#).is_err());
}

#[test]
fn test_invalid_base64() {
    assert!(parse(r#"b64"Hello!""#).is_err());
}

#[test]
fn test_bare_decimal_point() {
    assert!(parse(".").is_err());
}

#[test]
fn test_unquoted_dash_key() {
    assert!(parse("{kebab-case: 1}").is_err());
}

#[test]
fn test_unterminated_comment() {
    assert!(parse("/* unterminated").is_err());
}

#[test]
fn test_integer_overflow() {
    // Beyond i64::MAX
    assert!(parse("9223372036854775808").is_err());
    // Below i64::MIN
    assert!(parse("-9223372036854775809").is_err());
}

#[test]
fn test_format_preserve_exact_values() {
    // Test that specific values format and parse exactly
    let test_cases = vec![
        (r#"null"#, "null"),
        (r#"true"#, "true"),
        (r#"false"#, "false"),
        (r#"42"#, "42"),
        (r#"-123"#, "-123"),
        (r#"0x10"#, "16"),   // Hex parses to decimal
        (r#"0b1010"#, "10"), // Binary parses to decimal
        (r#"inf"#, "inf"),
        (r#"-inf"#, "-inf"),
        (r#"3.0"#, "3.0"), // Float with .0
        (r#"[]"#, "[]"),
        (r#"{}"#, "{}"),
    ];

    for (input, expected_compact) in test_cases {
        let value = parse(input).expect("Parse failed");
        let formatted = to_string(&value);
        assert_eq!(
            formatted, expected_compact,
            "Format mismatch for input: {}",
            input
        );

        // Ensure round-trip
        let reparsed = parse(&formatted).expect("Reparse failed");
        assert_values_equal(&value, &reparsed, &format!("round-trip of {}", input));
    }

    // Special case for NaN (can't compare with ==)
    let nan_value = parse("nan").expect("Parse failed");
    let formatted_nan = to_string(&nan_value);
    assert_eq!(formatted_nan, "nan");
    let reparsed_nan = parse(&formatted_nan).expect("Reparse failed");
    assert!(
        matches!(reparsed_nan, Value::Float(f) if f.is_nan()),
        "NaN round-trip failed"
    );
}

#[test]
fn test_string_escaping() {
    // Test various string escapes
    let test_strings = vec![
        ("hello", r#""hello""#),
        ("hello\nworld", r#""hello\nworld""#),
        ("tab\there", r#""tab\there""#),
        ("quote\"test", r#""quote\"test""#),
        ("slash\\test", r#""slash\\test""#),
    ];

    for (plain, expected) in test_strings {
        let value = parse(&format!(
            r#""{}""#,
            plain
                .replace("\\", "\\\\")
                .replace("\"", "\\\"")
                .replace("\n", "\\n")
                .replace("\t", "\\t")
        ))
        .unwrap();
        let formatted = to_string(&value);
        assert_eq!(formatted, expected);
    }
}

#[test]
fn valid_examples_test_minimal() {
    let result = parse("null").unwrap();
    assert!(matches!(result, Value::Null));
    let result = jasn::jaml::parser::parse("null").unwrap();
    assert!(matches!(result, Value::Null));
}

#[test]
fn valid_examples_test_integers() {
    assert!(matches!(parse("42").unwrap(), Value::Int(42)));
    assert!(matches!(parse("-123").unwrap(), Value::Int(-123)));
    assert!(matches!(parse("0xFF").unwrap(), Value::Int(255)));
    assert!(matches!(parse("0b1010").unwrap(), Value::Int(10)));
    assert!(matches!(parse("0o755").unwrap(), Value::Int(493)));
    assert!(matches!(parse("1_000_000").unwrap(), Value::Int(1_000_000)));
    let parse = jasn::jaml::parser::parse;
    assert!(matches!(parse("42").unwrap(), Value::Int(42)));
    assert!(matches!(parse("-123").unwrap(), Value::Int(-123)));
    assert!(matches!(parse("0xFF").unwrap(), Value::Int(255)));
    assert!(matches!(parse("0b1010").unwrap(), Value::Int(10)));
    assert!(matches!(parse("0o755").unwrap(), Value::Int(493)));
    assert!(matches!(parse("1_000_000").unwrap(), Value::Int(1_000_000)));
}

#[test]
fn valid_examples_test_floats() {
    for parse in [parse, jasn::jaml::parser::parse] {
        assert!(matches!(parse("3.14").unwrap(), Value::Float(_)));
        assert!(matches!(parse("1e10").unwrap(), Value::Float(_)));
        assert!(matches!(parse("inf").unwrap(), Value::Float(f) if f.is_infinite()));
        assert!(
            matches!(parse("-inf").unwrap(), Value::Float(f) if f.is_infinite() && f.is_sign_negative())
        );
        assert!(matches!(parse("nan").unwrap(), Value::Float(f) if f.is_nan()));
    }
}

#[test]
fn valid_examples_test_strings() {
    for parse in [parse, jasn::jaml::parser::parse] {
        assert!(matches!(parse(r#""hello""#).unwrap(), Value::String(s) if s == "hello"));
        assert!(matches!(parse(r#"'world'"#).unwrap(), Value::String(s) if s == "world"));
    }
}

#[test]
fn valid_examples_test_binary() {
    let result = parse(r#"b64"SGVsbG8=""#).unwrap();
    assert!(matches!(result, Value::Binary(_)));
    assert_eq!(result, Value::Binary(Binary(b"Hello".to_vec())));

    let result = parse(r#"h"48656c6c6f""#).unwrap();
    assert!(matches!(result, Value::Binary(_)));
    assert_eq!(result, Value::Binary(Binary(b"Hello".to_vec())));

    let result = jasn::jaml::parser::parse(r#"b64"SGVsbG8=""#).unwrap();
    assert!(matches!(result, Value::Binary(_)));

    let result = jasn::jaml::parser::parse(r#"hex"48656c6c6f""#).unwrap();
    assert!(matches!(result, Value::Binary(_)));
    assert_eq!(result, Value::Binary(Binary(b"Hello".to_vec())));
}

#[test]
fn valid_examples_test_lists() {
    let result = parse("[1, 2, 3]").unwrap();
    assert!(matches!(result, Value::List(ref v) if v.len() == 3));

    let result = parse("[1, 2, 3,]").unwrap();
    assert!(matches!(result, Value::List(ref v) if v.len() == 3));

    let result = jasn::jaml::parser::parse("items:\n  - 1\n  - 2\n  - 3").unwrap();
    assert!(matches!(result, Value::Mapping(ref m) if m.len() == 1));

    // Simple inline list items
    let result = jasn::jaml::parser::parse("- 1\n- 2\n- 3").unwrap();
    assert!(matches!(result, Value::List(ref v) if v.len() == 3));
}

#[test]
fn valid_examples_test_maps() {
    let result = parse(r#"{"key": "value"}"#).unwrap();
    assert!(matches!(result, Value::Mapping(ref m) if m.len() == 1));

    let result = parse(r#"{unquoted: "value"}"#).unwrap();
    assert!(matches!(result, Value::Mapping(ref m) if m.len() == 1));

    let result = jasn::jaml::parser::parse(r#"key: "value""#).unwrap();
    assert!(matches!(result, Value::Mapping(ref m) if m.len() == 1));

    let result = jasn::jaml::parser::parse(r#"unquoted: "value""#).unwrap();
    assert!(matches!(result, Value::Mapping(ref m) if m.len() == 1));
}

#[test]
fn valid_examples_test_comments() {
    let result = parse("// comment\n42").unwrap();
    assert!(matches!(result, Value::Int(42)));

    let result = parse("/* block comment */ 42").unwrap();
    assert!(matches!(result, Value::Int(42)));

    let result = jasn::jaml::parser::parse("# comment\n42").unwrap();
    assert!(matches!(result, Value::Int(42)));

    let result = jasn::jaml::parser::parse("key: 42 # inline comment").unwrap();
    assert!(matches!(result, Value::Mapping(_)));
}

#[test]
fn duplicate_keys_are_rejected_and_named() {
    assert_eq!(parse("{a: 1, a: 2}"), Err(Error::DuplicateKey("a".to_string())));
    assert_eq!(parse("{a: 1, \"a\": 2}"), Err(Error::DuplicateKey("a".to_string())));
    assert_eq!(parse("{'a': 1, \"a\": 2}"), Err(Error::DuplicateKey("a".to_string())));
    assert_eq!(parse("{b: 1, a: {x: 1, x: 2}}"), Err(Error::DuplicateKey("x".to_string())));
    assert!(parse("{a: {x: 1}, b: {x: 2}}").is_ok());
}

#[test]
fn numeric_edge_cases() {
    assert_eq!(parse("0xFF"), Ok(Value::Int(255)));
    assert_eq!(parse("0Xff"), Ok(Value::Int(255)));
    assert_eq!(parse("0b1010"), Ok(Value::Int(10)));
    assert_eq!(parse("1_000_000"), Ok(Value::Int(1000000)));
    assert_eq!(parse("0xFF_FF"), Ok(Value::Int(65535)));
    assert_eq!(parse("+7"), Ok(Value::Int(7)));
    assert_eq!(parse("-0x10"), Ok(Value::Int(-16)));
    assert_eq!(parse("-0x8000000000000000"), Ok(Value::Int(i64::MIN)));
    assert_eq!(parse("0x7FFFFFFFFFFFFFFF"), Ok(Value::Int(i64::MAX)));
    assert_eq!(parse("007"), Ok(Value::Int(7)));
    assert_eq!(parse("9223372036854775808"), Err(Error::IntegerOverflow));
    assert_eq!(parse("-9223372036854775809"), Err(Error::IntegerOverflow));
    assert_eq!(parse("0x8000000000000000"), Err(Error::IntegerOverflow));
    assert_eq!(parse("99999999999999999999999999999999999999999999"), Err(Error::IntegerOverflow));
    assert_eq!(parse("1__000"), Err(Error::InvalidFloat));
    assert_eq!(parse("1000_"), Err(Error::InvalidFloat));
    assert_eq!(parse("_1000"), Err(Error::Syntax(0)));
    assert_eq!(parse("0x"), Err(Error::InvalidFloat));
    assert_eq!(parse("0b102"), Err(Error::InvalidFloat));
    assert_eq!(parse("0o8"), Err(Error::InvalidFloat));
    assert_eq!(parse("."), Err(Error::InvalidFloat));
    assert_eq!(parse("+5.5"), Ok(Value::Float(Float::from_text("5.5").unwrap())));
}

#[test]
fn binary_edge_cases() {
    assert_eq!(parse(r#"h"ABC""#), Err(Error::OddHexDigits));
    assert_eq!(parse(r#"h"ABCG""#), Err(Error::InvalidHexDigit('G')));
    assert_eq!(parse(r#"hex"abcd""#), Ok(Value::Binary(Binary(vec![0xab, 0xcd]))));
    assert_eq!(parse(r#"h"""#), Ok(Value::Binary(Binary(vec![]))));
    assert_eq!(parse(r#"b64"Hello!""#), Err(Error::InvalidBase64));
    assert_eq!(parse(r#"b64"SGVsbG8""#), Err(Error::InvalidBase64));
    assert_eq!(parse(r#"b64"""#), Ok(Value::Binary(Binary(vec![]))));
    assert_eq!(parse(r#"b64"SGVsbG8="#), Err(Error::Syntax(12)));
}

#[test]
fn string_escapes() {
    assert_eq!(
        parse(r#""\"\'\\\/\n\t\r\b\f""#),
        Ok(Value::String("\"'\\/\n\t\r\u{8}\u{c}".to_string()))
    );
    assert_eq!(parse(r#""\u0041\u00e9\u4E16""#), Ok(Value::String("A\u{e9}\u{4e16}".to_string())));
    assert_eq!(parse(r#""\ud83d\ude00""#), Ok(Value::String("\u{1F600}".to_string())));
    assert_eq!(parse(r#""\ud83d""#), Err(Error::InvalidUnicodeCodepoint(0xd83d)));
    assert_eq!(parse(r#""\ud83dx""#), Err(Error::InvalidUnicodeCodepoint(0xd83d)));
    assert_eq!(parse(r#""\ud83d\u0041""#), Err(Error::InvalidUnicodeCodepoint(0xd83d)));
    assert_eq!(parse(r#""\ude00""#), Err(Error::InvalidUnicodeCodepoint(0xde00)));
    assert_eq!(parse(r#""\u12""#), Err(Error::InvalidUnicodeEscape("12\"".to_string())));
    assert_eq!(parse(r#""\u12G4""#), Err(Error::InvalidUnicodeEscape("12G4".to_string())));
    assert_eq!(parse(r#""\x""#), Err(Error::InvalidEscapeChar('x')));
    assert_eq!(parse(r#""abc"#), Err(Error::Syntax(4)));
    assert_eq!(parse(r#""abc\"#), Err(Error::Syntax(5)));
    assert_eq!(parse(r#"'it''s'"#), Err(Error::Syntax(4)));
    assert_eq!(parse("'a\"b'"), Ok(Value::String("a\"b".to_string())));
    assert_eq!(parse("\"caf\u{e9} \u{1F600}\""), Ok(Value::String("caf\u{e9} \u{1F600}".to_string())));
}

#[test]
fn timestamps_are_read_as_rfc3339() {
    let expected = Timestamp::new(1_705_321_845_000_000_000, 0).unwrap();
    assert_eq!(parse(r#"ts"2024-01-15T12:30:45Z""#), Ok(Value::Timestamp(expected)));
    let with_offset = Timestamp::new(1_705_339_845_500_000_000, -5 * 3600).unwrap();
    assert_eq!(
        parse(r#"ts"2024-01-15T12:30:45.5-05:00""#),
        Ok(Value::Timestamp(with_offset))
    );
    match parse(r#"ts"yesterday""#) {
        Err(Error::InvalidTimestamp(text, reason)) => {
            assert_eq!(text, "yesterday");
            assert!(!reason.is_empty());
        }
        other => panic!("{:?}", other),
    }
    assert!(matches!(parse(r#"ts"2024-01-15T12:30:45""#), Err(Error::InvalidTimestamp(_, _))));
}

#[test]
fn literal_prefixes_are_keys_before_a_colon() {
    let value = parse(r#"{ts: "x", b64: 1, h: 2, hex: 3}"#).unwrap();
    let map = value.as_map().unwrap();
    assert_eq!(map.get("ts"), Some(&Value::String("x".to_string())));
    assert_eq!(map.get("hex"), Some(&Value::Int(3)));
    let value = parse(r#"{ts: ts"2024-01-01T00:00:00Z"}"#).unwrap();
    assert!(value.as_map().unwrap().get("ts").unwrap().is_timestamp());
    assert_eq!(parse("ts"), Err(Error::Syntax(0)));
    assert_eq!(parse("x\"1\""), Err(Error::Syntax(0)));
}

#[test]
fn structure_errors_carry_a_position() {
    assert_eq!(parse(""), Err(Error::Syntax(0)));
    assert_eq!(parse("   "), Err(Error::Syntax(3)));
    assert_eq!(parse("[1, 2 3]"), Err(Error::Syntax(6)));
    assert_eq!(parse("[1, 2"), Err(Error::Syntax(5)));
    assert_eq!(parse("[1,,2]"), Err(Error::Syntax(3)));
    assert_eq!(parse("[,]"), Err(Error::Syntax(1)));
    assert_eq!(parse("{a 1}"), Err(Error::Syntax(3)));
    assert_eq!(parse("{a: 1"), Err(Error::Syntax(5)));
    assert_eq!(parse("{a: 1 b: 2}"), Err(Error::Syntax(6)));
    assert_eq!(parse("{1: 2}"), Err(Error::Syntax(1)));
    assert_eq!(parse("{kebab-case: 1}"), Err(Error::Syntax(6)));
    assert_eq!(parse("{null: 1}"), Err(Error::Syntax(1)));
    assert_eq!(parse("1 2"), Err(Error::Syntax(2)));
    assert_eq!(parse("null null"), Err(Error::Syntax(5)));
    assert_eq!(parse("/* unterminated"), Err(Error::Syntax(0)));
    assert_eq!(parse("1 /* x"), Err(Error::Syntax(2)));
    assert_eq!(parse("]"), Err(Error::Syntax(0)));
    assert_eq!(parse("nul"), Err(Error::Syntax(0)));
    assert_eq!(parse("True"), Err(Error::Syntax(0)));
}

#[test]
fn white_space_and_comments_are_skipped_between_tokens() {
    let text = " // lead\n{ /* a */ a /* b */ : /* c */ [ 1 , // one\n 2 , ] , // tail\n 'b' : {} , }\n/* end */ ";
    let value = parse(text).unwrap();
    let mut expected = Entries::new();
    expected.insert("a".to_string(), Value::List(vec![Value::Int(1), Value::Int(2)]));
    expected.insert("b".to_string(), Value::Mapping(Entries::new()));
    assert_eq!(value, Value::Mapping(expected));
    assert_eq!(parse("[[], [[]], {},]").unwrap(), Value::List(vec![
        Value::List(vec![]),
        Value::List(vec![Value::List(vec![])]),
        Value::Mapping(Entries::new()),
    ]));
    assert_eq!(parse("\t\r\n42\r\n").unwrap(), Value::Int(42));
}

#[test]
fn compact_bracketed_round_trip() {
    let value = parse("{\"test\": 123}").unwrap();
    let compact = to_string(&value);
    assert_eq!(compact, "{test:123}");
    let again = parse(&compact).unwrap();
    let mut expected = Entries::new();
    expected.insert("test".to_string(), Value::Int(123));
    assert_eq!(again, Value::Mapping(expected));
    assert_eq!(parse(&to_string_pretty(&value)).unwrap(), again);
}

#[test]
fn the_parser_type_reads_like_the_function() {
    assert_eq!(JasnParser::parse("[1]"), parse("[1]"));
    assert_eq!(JasnParser::parse("[1"), parse("[1"));
}
