//! The style options of the JAML formatter.

use vstd::prelude::*;

verus! {

/// Which quotes strings and quoted keys are written in.
#[derive(Debug, Clone, Copy, PartialEq, Eq, Structural)]
pub enum QuoteStyle {
    /// Always `"`.
    Double,
    /// Always `'`.
    Single,
    /// `"`, unless the string holds `"` and no `'`.
    PreferDouble,
}

/// How binary data is written.
#[derive(Debug, Clone, Copy, PartialEq, Eq, Structural)]
pub enum BinaryEncoding {
    /// `b64"..."`.
    Base64,
    /// `hex"..."`.
    Hex,
}

/// How many fractional digits of the second a timestamp is written with.
#[derive(Debug, Clone, Copy, PartialEq, Eq, Structural)]
pub enum TimestampPrecision {
    /// As many as the instant needs.
    Auto,
    /// None.
    Seconds,
    /// Three.
    Milliseconds,
    /// Six.
    Microseconds,
    /// Nine.
    Nanoseconds,
}

/// The style that a value is written in. JAML is always written on several
/// lines, two spaces per level, so there is no indentation option.
#[derive(Debug, Clone, Copy, PartialEq, Eq, Structural)]
pub struct Options {
    /// Which quotes strings are written in.
    pub quote_style: QuoteStyle,
    /// How binary data is written.
    pub binary_encoding: BinaryEncoding,
    /// Whether keys shaped like identifiers are written bare.
    pub unquoted_keys: bool,
    /// Whether non-negative numbers get a `+` in front.
    pub leading_plus: bool,
    /// Whether map entries are written in key order. Maps keep their
    /// entries in key order, so the output is the same either way.
    pub sort_keys: bool,
    /// Whether characters outside ASCII are written as `\uXXXX`.
    pub escape_unicode: bool,
    /// Whether a UTC offset is written `Z` rather than `+00:00`.
    pub use_zulu: bool,
    /// How many fractional digits timestamps are written with.
    pub timestamp_precision: TimestampPrecision,
}

/// The default options.
pub open spec fn default_options() -> Options {
    Options {
        quote_style: QuoteStyle::Double,
        binary_encoding: BinaryEncoding::Base64,
        unquoted_keys: true,
        leading_plus: false,
        sort_keys: true,
        escape_unicode: false,
        use_zulu: true,
        timestamp_precision: TimestampPrecision::Auto,
    }
}

impl Default for Options {
    fn default() -> (r: Self)
        ensures
            r == default_options(),
    {
        Options {
            quote_style: QuoteStyle::Double,
            binary_encoding: BinaryEncoding::Base64,
            unquoted_keys: true,
            leading_plus: false,
            sort_keys: true,
            escape_unicode: false,
            use_zulu: true,
            timestamp_precision: TimestampPrecision::Auto,
        }
    }
}

impl Options {
    /// The default options: double quotes, base64, bare keys, no leading
    /// plus, characters outside ASCII as they are, `Z` for UTC.
    pub fn new() -> (r: Self)
        ensures
            r == default_options(),
    {
        Options {
            quote_style: QuoteStyle::Double,
            binary_encoding: BinaryEncoding::Base64,
            unquoted_keys: true,
            leading_plus: false,
            sort_keys: true,
            escape_unicode: false,
            use_zulu: true,
            timestamp_precision: TimestampPrecision::Auto,
        }
    }

    /// Sets the quote style.
    pub fn with_quote_style(self, style: QuoteStyle) -> (r: Self)
        ensures
            r == (Options { quote_style: style, ..self }),
    {
        let mut o = self;
        o.quote_style = style;
        o
    }

    /// Sets how binary data is written.
    pub fn with_binary_encoding(self, encoding: BinaryEncoding) -> (r: Self)
        ensures
            r == (Options { binary_encoding: encoding, ..self }),
    {
        let mut o = self;
        o.binary_encoding = encoding;
        o
    }

    /// Sets whether keys shaped like identifiers are written bare.
    pub fn with_unquoted_keys(self, enable: bool) -> (r: Self)
        ensures
            r == (Options { unquoted_keys: enable, ..self }),
    {
        let mut o = self;
        o.unquoted_keys = enable;
        o
    }

    /// Sets whether non-negative numbers get a `+` in front.
    pub fn with_leading_plus(self, enable: bool) -> (r: Self)
        ensures
            r == (Options { leading_plus: enable, ..self }),
    {
        let mut o = self;
        o.leading_plus = enable;
        o
    }

    /// Sets whether map entries are written in key order.
    pub fn with_sort_keys(self, enable: bool) -> (r: Self)
        ensures
            r == (Options { sort_keys: enable, ..self }),
    {
        let mut o = self;
        o.sort_keys = enable;
        o
    }

    /// Sets whether characters outside ASCII are written as `\uXXXX`.
    pub fn with_escape_unicode(self, enable: bool) -> (r: Self)
        ensures
            r == (Options { escape_unicode: enable, ..self }),
    {
        let mut o = self;
        o.escape_unicode = enable;
        o
    }

    /// Sets whether a UTC offset is written `Z` rather than `+00:00`.
    pub fn with_use_zulu(self, enable: bool) -> (r: Self)
        ensures
            r == (Options { use_zulu: enable, ..self }),
    {
        let mut o = self;
        o.use_zulu = enable;
        o
    }

    /// Sets how many fractional digits timestamps are written with.
    pub fn with_timestamp_precision(self, precision: TimestampPrecision) -> (r: Self)
        ensures
            r == (Options { timestamp_precision: precision, ..self }),
    {
        let mut o = self;
        o.timestamp_precision = precision;
        o
    }
}

} // verus!
