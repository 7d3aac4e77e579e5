use jasn::formatter::options::{BinaryEncoding, Options, QuoteStyle, TimestampPrecision};
use jasn::jaml::formatter::options as jaml_options;

#[test]
fn test_compact_options() {
    let opts = Options::compact();
    assert!(opts.indent.is_empty());
    assert!(!opts.trailing_commas);
    assert!(opts.unquoted_keys);
}

#[test]
fn test_pretty_options() {
    let opts = Options::pretty();
    assert_eq!(opts.indent, "  ");
    assert!(opts.trailing_commas);
    assert!(opts.unquoted_keys);
}

#[test]
fn options_test_builder_pattern() {
    let opts = Options::compact()
        .with_indent("\t")
        .with_trailing_commas(true)
        .with_quote_style(QuoteStyle::Single);

    assert_eq!(opts.indent, "\t");
    assert!(opts.trailing_commas);
    assert_eq!(opts.quote_style, QuoteStyle::Single);

    let opts = jaml_options::Options::new()
        .with_quote_style(jaml_options::QuoteStyle::Single)
        .with_binary_encoding(jaml_options::BinaryEncoding::Hex)
        .with_unquoted_keys(false)
        .with_sort_keys(false);

    assert_eq!(opts.quote_style, jaml_options::QuoteStyle::Single);
    assert_eq!(opts.binary_encoding, jaml_options::BinaryEncoding::Hex);
    assert!(!opts.unquoted_keys);
    assert!(!opts.sort_keys);
}

#[test]
fn test_builder_pattern() {
    let opts = jaml_options::Options::new()
        .with_quote_style(jaml_options::QuoteStyle::Single)
        .with_binary_encoding(jaml_options::BinaryEncoding::Hex)
        .with_unquoted_keys(false)
        .with_sort_keys(false);

    assert_eq!(opts.quote_style, jaml_options::QuoteStyle::Single);
    assert_eq!(opts.binary_encoding, jaml_options::BinaryEncoding::Hex);
    assert!(!opts.unquoted_keys);
    assert!(!opts.sort_keys);
}

#[test]
fn test_default_options() {
    let opts = jaml_options::Options::default();
    assert_eq!(opts.quote_style, jaml_options::QuoteStyle::Double);
    assert_eq!(opts.binary_encoding, jaml_options::BinaryEncoding::Base64);
    assert!(opts.unquoted_keys);
    assert!(!opts.leading_plus);
    assert!(opts.sort_keys);
    assert!(!opts.escape_unicode);
    assert!(opts.use_zulu);
    assert_eq!(opts.timestamp_precision, jaml_options::TimestampPrecision::Auto);
}

#[test]
fn every_builder_sets_its_own_field() {
    let opts = Options::pretty()
        .with_binary_encoding(BinaryEncoding::Hex)
        .with_unquoted_keys(false)
        .with_leading_plus(true)
        .with_sort_keys(false)
        .with_escape_unicode(true)
        .with_use_zulu(false)
        .with_timestamp_precision(TimestampPrecision::Microseconds);
    assert_eq!(opts.indent, "  ");
    assert!(opts.trailing_commas);
    assert_eq!(opts.quote_style, QuoteStyle::Double);
    assert_eq!(opts.binary_encoding, BinaryEncoding::Hex);
    assert!(!opts.unquoted_keys);
    assert!(opts.leading_plus);
    assert!(!opts.sort_keys);
    assert!(opts.escape_unicode);
    assert!(!opts.use_zulu);
    assert_eq!(opts.timestamp_precision, TimestampPrecision::Microseconds);

    let opts = jaml_options::Options::new()
        .with_leading_plus(true)
        .with_escape_unicode(true)
        .with_use_zulu(false)
        .with_timestamp_precision(jaml_options::TimestampPrecision::Seconds);
    assert!(opts.leading_plus);
    assert!(opts.escape_unicode);
    assert!(!opts.use_zulu);
    assert_eq!(opts.timestamp_precision, jaml_options::TimestampPrecision::Seconds);
    assert!(opts.unquoted_keys);

    let defaults = Options::default();
    assert_eq!(defaults.indent, "  ");
    assert!(defaults.sort_keys);
}
