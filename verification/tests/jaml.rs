use jasn::jaml::formatter::options::{BinaryEncoding, Options, QuoteStyle};
use jasn::jaml::formatter;
use jasn::jaml::parser::indent::{Style, Tracker};
use jasn::jaml::parser::parse;
use jasn::{Binary, Entries, Error, Float, Timestamp, Value};

#[test]
fn test_format_simple_values() {
    assert_eq!(formatter::format(&Value::Null), "null");
    assert_eq!(formatter::format(&Value::Bool(true)), "true");
    assert_eq!(formatter::format(&Value::Int(42)), "42");
    assert_eq!(formatter::format(&Value::String("hello".to_string())), "\"hello\"");
}

#[test]
fn test_format_nested() {
    let mut inner = Entries::new();
    inner.insert("count".to_string(), Value::Int(5));
    inner.insert("enabled".to_string(), Value::Bool(true));

    let mut outer = Entries::new();
    outer.insert("config".to_string(), Value::Mapping(inner));

    let result = formatter::format(&Value::Mapping(outer));
    assert!(result.contains("config:\n"));
    assert!(result.contains("  count: 5\n"));
    assert!(result.contains("  enabled: true\n"));
    assert_eq!(result, "config:\n  count: 5\n  enabled: true\n");
}

#[test]
fn test_nested_structures() {
    let result = parse("outer:\n  inner: \"value\"").unwrap();
    assert!(matches!(result, Value::Mapping(_)));

    let map = result.as_map().unwrap();
    assert!(map.contains_key("outer"));
    assert!(matches!(map.get("outer"), Some(Value::Mapping(_))));

    let mut inner = Entries::new();
    inner.insert("inner".to_string(), Value::String("value".to_string()));
    let mut outer = Entries::new();
    outer.insert("outer".to_string(), Value::Mapping(inner));
    assert_eq!(result, Value::Mapping(outer));
}

#[test]
fn test_mixed_list() {
    let result = parse("- 42\n- \"hello\"\n- true\n- null").unwrap();
    assert!(matches!(result, Value::List(ref v) if v.len() == 4));
    assert_eq!(
        result,
        Value::List(vec![
            Value::Int(42),
            Value::String("hello".to_string()),
            Value::Bool(true),
            Value::Null,
        ])
    );
}

#[test]
fn tracker_first_indent_sets_the_unit() {
    let mut tracker = Tracker::new();
    assert_eq!(tracker.validate(""), Ok(0));
    assert_eq!(tracker.validate("    "), Ok(1));
    assert_eq!(tracker.validate(""), Ok(0));
    assert_eq!(tracker.validate("    "), Ok(1));
    assert_eq!(tracker.validate("        "), Ok(2));
    assert_eq!(tracker.validate("            "), Ok(3));
    assert_eq!(
        tracker.validate("      "),
        Err(Error::InvalidIndentCount(Style::Spaces(4), 6))
    );
    assert_eq!(
        tracker.validate("\t"),
        Err(Error::InconsistentIndentStyle(Style::Spaces(4), Style::Tabs(1)))
    );
    assert_eq!(
        tracker.validate("  \t"),
        Err(Error::MixedIndent("  \t".to_string()))
    );
    assert_eq!(tracker.validate("    "), Ok(1));
}

#[test]
fn tracker_with_tabs() {
    let mut tracker = Tracker::new();
    assert_eq!(tracker.validate(" \t"), Err(Error::MixedIndent(" \t".to_string())));
    assert_eq!(tracker.validate("\t\t"), Ok(1));
    assert_eq!(tracker.validate("\t\t\t\t"), Ok(2));
    assert_eq!(
        tracker.validate("\t\t\t"),
        Err(Error::InvalidIndentCount(Style::Tabs(2), 3))
    );
    assert_eq!(
        tracker.validate("  "),
        Err(Error::InconsistentIndentStyle(Style::Tabs(2), Style::Spaces(2)))
    );
}

#[test]
fn indentation_consistency() {
    assert_eq!(
        parse("a:\n  b: 1\n   c: 2"),
        Err(Error::InvalidIndentCount(Style::Spaces(2), 3))
    );
    assert_eq!(
        parse("a:\n  b: 1\n\tc: 2"),
        Err(Error::InconsistentIndentStyle(Style::Spaces(2), Style::Tabs(1)))
    );
    assert_eq!(parse("a:\n \tb: 1"), Err(Error::MixedIndent(" \t".to_string())));
    assert_eq!(parse("a:\n  b:\n      c: 1"), Err(Error::UnexpectedIndent(2, 3)));
    assert_eq!(parse("a: 1\n  b: 2"), Err(Error::UnexpectedIndent(0, 1)));
    assert_eq!(parse("  a: 1"), Err(Error::UnexpectedIndent(0, 1)));
    assert_eq!(parse("- 1\n  - 2"), Err(Error::UnexpectedIndent(0, 1)));
    assert_eq!(parse("a:\n    b: 1\n    c: 2\nd: 3").map(|v| v.as_map().unwrap().len()), Ok(2));
    assert_eq!(parse("a:\n\tb:\n\t\tc: 1\n\td: 2").map(|v| v.as_map().unwrap().len()), Ok(1));
}

#[test]
fn missing_values_name_their_line() {
    assert_eq!(parse("a:"), Err(Error::MissingValue(1)));
    assert_eq!(parse("a: 1\nb:\nc: 3"), Err(Error::MissingValue(2)));
    assert_eq!(parse("# lead\n\n- 1\n-\n- 3"), Err(Error::MissingValue(4)));
    assert_eq!(parse("-"), Err(Error::MissingValue(1)));
    assert_eq!(parse("a:\n  b: # nothing\n"), Err(Error::MissingValue(2)));
}

#[test]
fn empty_documents() {
    assert_eq!(parse(""), Err(Error::EmptyDocument));
    assert_eq!(parse("\n\n"), Err(Error::EmptyDocument));
    assert_eq!(parse("# only a comment\n   \n\t# another"), Err(Error::EmptyDocument));
}

#[test]
fn block_duplicate_keys() {
    assert_eq!(parse("a: 1\na: 2"), Err(Error::DuplicateKey("a".to_string())));
    assert_eq!(parse("a: 1\n\"a\": 2"), Err(Error::DuplicateKey("a".to_string())));
    assert_eq!(parse("x:\n  a: 1\n  b: 2\n  a: 3"), Err(Error::DuplicateKey("a".to_string())));
    assert!(parse("x:\n  a: 1\ny:\n  a: 3").is_ok());
}

#[test]
fn block_documents() {
    let text = "# people\nname: \"Alice\"   # inline\nage: 30\n\ntags:\n  - \"rust\"\n  - 'yaml'\n  -\n    - 1\n    - 2\nnested:\n  flow: [1, {a: 2}, 'x']   # flow collection\n  data: hex\"ff00\"\n  when: ts\"2024-01-15T12:30:45Z\"\n\"quoted key\" : -1.5e3\n";
    let value = parse(text).unwrap();
    let map = value.as_map().unwrap();
    assert_eq!(map.len(), 5);
    assert_eq!(map.get("name"), Some(&Value::String("Alice".to_string())));
    assert_eq!(map.get("age"), Some(&Value::Int(30)));
    assert_eq!(
        map.get("tags"),
        Some(&Value::List(vec![
            Value::String("rust".to_string()),
            Value::String("yaml".to_string()),
            Value::List(vec![Value::Int(1), Value::Int(2)]),
        ]))
    );
    let nested = map.get("nested").unwrap().as_map().unwrap();
    let mut inner = Entries::new();
    inner.insert("a".to_string(), Value::Int(2));
    assert_eq!(
        nested.get("flow"),
        Some(&Value::List(vec![
            Value::Int(1),
            Value::Mapping(inner),
            Value::String("x".to_string()),
        ]))
    );
    assert_eq!(nested.get("data"), Some(&Value::Binary(Binary(vec![0xff, 0]))));
    assert_eq!(
        nested.get("when"),
        Some(&Value::Timestamp(Timestamp::new(1_705_321_845_000_000_000, 0).unwrap()))
    );
    assert_eq!(
        map.get("quoted key"),
        Some(&Value::Float(Float::from_text("-1.5e3").unwrap()))
    );
}

#[test]
fn block_scalars_and_their_errors() {
    assert_eq!(parse("-5"), Ok(Value::Int(-5)));
    assert_eq!(parse("-inf"), Ok(Value::Float(Float::neg_infinity())));
    assert_eq!(parse("\"a: b\""), Ok(Value::String("a: b".to_string())));
    assert_eq!(parse("\"#\" # comment"), Ok(Value::String("#".to_string())));
    assert_eq!(parse("42\r\n"), Ok(Value::Int(42)));
    assert_eq!(parse("a: 1\r\nb: 2\r\n").map(|v| v.as_map().unwrap().len()), Ok(2));
    assert_eq!(parse("42 43"), Err(Error::Syntax(3)));
    assert_eq!(parse("42\n43"), Err(Error::Syntax(3)));
    assert_eq!(parse("null: 1"), Err(Error::Syntax(4)));
    assert_eq!(parse("a: 1\n- 2"), Err(Error::Syntax(5)));
    assert_eq!(parse("- 1\na: 2"), Err(Error::Syntax(4)));
    assert_eq!(parse("key: [1, 2"), Err(Error::Syntax(10)));
    assert_eq!(parse("a:\n  b: 1 2"), Err(Error::Syntax(10)));
    assert_eq!(parse("a: 9223372036854775808"), Err(Error::IntegerOverflow));
    assert_eq!(parse("- h\"abc\""), Err(Error::OddHexDigits));
    assert_eq!(parse("k:\n  7"), parse("k: 7"));
}

#[test]
fn block_formatting() {
    let mut inner = Entries::new();
    inner.insert("b".to_string(), Value::Binary(Binary(vec![0xde, 0xad])));
    inner.insert("two words".to_string(), Value::List(vec![Value::Int(1), Value::List(vec![Value::Null])]));
    let mut outer = Entries::new();
    outer.insert("m".to_string(), Value::Mapping(inner));
    outer.insert("s".to_string(), Value::String("it's".to_string()));
    let value = Value::List(vec![Value::Mapping(outer), Value::Int(-3)]);
    assert_eq!(
        formatter::format(&value),
        "- \n  m:\n    b: b64\"3q0=\"\n    \"two words\":\n      - 1\n      - \n        - null\n  s: \"it's\"\n- -3\n"
    );
    let opts = Options::new()
        .with_binary_encoding(BinaryEncoding::Hex)
        .with_quote_style(QuoteStyle::Single)
        .with_unquoted_keys(false)
        .with_leading_plus(true);
    assert_eq!(
        formatter::format_with_opts(&value, &opts),
        "- \n  'm':\n    'b': hex\"dead\"\n    'two words':\n      - +1\n      - \n        - null\n  's': 'it\\'s'\n- -3\n"
    );
    assert_eq!(parse(&formatter::format(&value)).unwrap(), value);
    assert_eq!(parse(&formatter::format_with_opts(&value, &opts)).unwrap(), value);
    assert_eq!(formatter::format(&Value::List(vec![])), "");
    assert_eq!(formatter::format(&Value::Mapping(Entries::new())), "");
}

#[test]
fn styles_are_shown_between_quotes() {
    assert_eq!(Style::Spaces(2).describe(), "\"  \"");
    assert_eq!(Style::Spaces(0).describe(), "\"\"");
    assert_eq!(Style::Tabs(2).describe(), "\"\\t\\t\"");
    assert_eq!(Style::Spaces(3).describe(), format!("{:?}", " ".repeat(3)));
    assert_eq!(Style::Tabs(1).describe(), format!("{:?}", "\t".repeat(1)));
}

#[test]
fn block_reformatting_reads_and_writes() {
    let opts = jasn::jaml::tool::build_format_options(
        QuoteStyle::Single,
        BinaryEncoding::Hex,
        true,
        true,
        false,
        true,
        true,
        jasn::jaml::formatter::options::TimestampPrecision::Milliseconds,
    );
    assert_eq!(opts.quote_style, QuoteStyle::Single);
    assert_eq!(opts.binary_encoding, BinaryEncoding::Hex);
    assert!(!opts.unquoted_keys);
    assert!(opts.leading_plus);
    assert!(opts.sort_keys);
    assert!(opts.escape_unicode);
    assert!(!opts.use_zulu);
    assert_eq!(
        opts.timestamp_precision,
        jasn::jaml::formatter::options::TimestampPrecision::Milliseconds
    );
    let text = "b: 1   # one\na:\n    - \"caf\u{e9}\"\n    - ts\"2024-01-15T12:30:45Z\"\n";
    assert_eq!(
        jasn::jaml::tool::reformat(text, &opts),
        Ok("'a':\n  - 'caf\\u00e9'\n  - ts\"2024-01-15T12:30:45.000+00:00\"\n'b': +1\n".to_string())
    );
    assert_eq!(
        jasn::jaml::tool::reformat("a: 1\na: 2", &opts),
        Err(Error::DuplicateKey("a".to_string()))
    );
    let defaults = Options::new();
    let once = jasn::jaml::tool::reformat(text, &defaults).unwrap();
    assert_eq!(jasn::jaml::tool::reformat(&once, &defaults), Ok(once.clone()));
}
