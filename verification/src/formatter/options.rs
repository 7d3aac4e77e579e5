//! The style options of the JASN formatter.

use vstd::prelude::*;

verus! {

/// Which quotes strings and quoted keys are written in.
#[derive(Debug, Clone, Copy, PartialEq, Eq, Structural)]
pub enum QuoteStyle {
    /// Always `"`.
    Double,
    /// Always `'`.
    Single,
    /// `"`, unless the string holds `"` and no `'`.
    PreferDouble,
}

/// How binary data is written.
#[derive(Debug, Clone, Copy, PartialEq, Eq, Structural)]
pub enum BinaryEncoding {
    /// `b64"..."`.
    Base64,
    /// `h"..."`.
    Hex,
}

/// How many fractional digits of the second a timestamp is written with.
#[derive(Debug, Clone, Copy, PartialEq, Eq, Structural)]
pub enum TimestampPrecision {
    /// As many as the instant needs.
    Auto,
    /// None.
    Seconds,
    /// Three.
    Milliseconds,
    /// Six.
    Microseconds,
    /// Nine.
    Nanoseconds,
}

/// The style that a value is written in.
#[derive(Debug, Clone)]
pub struct Options {
    /// One level of indentation. The empty string selects compact output on
    /// one line.
    pub indent: String,
    /// Whether the last item of a list or map is followed by a comma too
    /// (pretty output only).
    pub trailing_commas: bool,
    /// Which quotes strings are written in.
    pub quote_style: QuoteStyle,
    /// How binary data is written.
    pub binary_encoding: BinaryEncoding,
    /// Whether keys shaped like identifiers are written bare.
    pub unquoted_keys: bool,
    /// Whether non-negative numbers get a `+` in front.
    pub leading_plus: bool,
    /// Whether map entries are written in key order. Maps keep their
    /// entries in key order, so the output is the same either way.
    pub sort_keys: bool,
    /// Whether characters outside ASCII are written as `\uXXXX`.
    pub escape_unicode: bool,
    /// Whether a UTC offset is written `Z` rather than `+00:00`.
    pub use_zulu: bool,
    /// How many fractional digits timestamps are written with.
    pub timestamp_precision: TimestampPrecision,
}

/// The mathematical content of [`Options`].
pub struct OptionsModel {
    pub indent: Seq<char>,
    pub trailing_commas: bool,
    pub quote_style: QuoteStyle,
    pub binary_encoding: BinaryEncoding,
    pub unquoted_keys: bool,
    pub leading_plus: bool,
    pub sort_keys: bool,
    pub escape_unicode: bool,
    pub use_zulu: bool,
    pub timestamp_precision: TimestampPrecision,
}

impl View for Options {
    type V = OptionsModel;

    open spec fn view(&self) -> OptionsModel {
        OptionsModel {
            indent: self.indent@,
            trailing_commas: self.trailing_commas,
            quote_style: self.quote_style,
            binary_encoding: self.binary_encoding,
            unquoted_keys: self.unquoted_keys,
            leading_plus: self.leading_plus,
            sort_keys: self.sort_keys,
            escape_unicode: self.escape_unicode,
            use_zulu: self.use_zulu,
            timestamp_precision: self.timestamp_precision,
        }
    }
}

/// The options for compact output.
pub open spec fn compact_model() -> OptionsModel {
    OptionsModel {
        indent: Seq::empty(),
        trailing_commas: false,
        quote_style: QuoteStyle::Double,
        binary_encoding: BinaryEncoding::Base64,
        unquoted_keys: true,
        leading_plus: false,
        sort_keys: false,
        escape_unicode: true,
        use_zulu: true,
        timestamp_precision: TimestampPrecision::Auto,
    }
}

/// The options for pretty output.
pub open spec fn pretty_model() -> OptionsModel {
    OptionsModel {
        indent: seq![' ', ' '],
        trailing_commas: true,
        quote_style: QuoteStyle::Double,
        binary_encoding: BinaryEncoding::Base64,
        unquoted_keys: true,
        leading_plus: false,
        sort_keys: true,
        escape_unicode: false,
        use_zulu: true,
        timestamp_precision: TimestampPrecision::Auto,
    }
}

impl Default for Options {
    fn default() -> (r: Self)
        ensures
            r@ == pretty_model(),
    {
        Options::pretty()
    }
}

impl Options {
    /// Compact output: one line, no trailing commas, bare keys, characters
    /// outside ASCII escaped.
    pub fn compact() -> (r: Self)
        ensures
            r@ == compact_model(),
    {
        Options {
            indent: String::new(),
            trailing_commas: false,
            quote_style: QuoteStyle::Double,
            binary_encoding: BinaryEncoding::Base64,
            unquoted_keys: true,
            leading_plus: false,
            sort_keys: false,
            escape_unicode: true,
            use_zulu: true,
            timestamp_precision: TimestampPrecision::Auto,
        }
    }

    /// Pretty output: two spaces per level, trailing commas, bare keys.
    pub fn pretty() -> (r: Self)
        ensures
            r@ == pretty_model(),
    {
        let two: Vec<char> = vec![' ', ' '];
        assert(two@ =~= seq![' ', ' ']);
        Options {
            indent: crate::text::string_of(&two),
            trailing_commas: true,
            quote_style: QuoteStyle::Double,
            binary_encoding: BinaryEncoding::Base64,
            unquoted_keys: true,
            leading_plus: false,
            sort_keys: true,
            escape_unicode: false,
            use_zulu: true,
            timestamp_precision: TimestampPrecision::Auto,
        }
    }

    /// Sets one level of indentation.
    pub fn with_indent(self, indent: &str) -> (r: Self)
        ensures
            r@ == (OptionsModel { indent: indent@, ..self@ }),
    {
        let mut o = self;
        o.indent = indent.to_string();
        o
    }

    /// Sets whether the last item is followed by a comma.
    pub fn with_trailing_commas(self, enable: bool) -> (r: Self)
        ensures
            r@ == (OptionsModel { trailing_commas: enable, ..self@ }),
    {
        let mut o = self;
        o.trailing_commas = enable;
        o
    }

    /// Sets the quote style.
    pub fn with_quote_style(self, style: QuoteStyle) -> (r: Self)
        ensures
            r@ == (OptionsModel { quote_style: style, ..self@ }),
    {
        let mut o = self;
        o.quote_style = style;
        o
    }

    /// Sets how binary data is written.
    pub fn with_binary_encoding(self, encoding: BinaryEncoding) -> (r: Self)
        ensures
            r@ == (OptionsModel { binary_encoding: encoding, ..self@ }),
    {
        let mut o = self;
        o.binary_encoding = encoding;
        o
    }

    /// Sets whether keys shaped like identifiers are written bare.
    pub fn with_unquoted_keys(self, enable: bool) -> (r: Self)
        ensures
            r@ == (OptionsModel { unquoted_keys: enable, ..self@ }),
    {
        let mut o = self;
        o.unquoted_keys = enable;
        o
    }

    /// Sets whether non-negative numbers get a `+` in front.
    pub fn with_leading_plus(self, enable: bool) -> (r: Self)
        ensures
            r@ == (OptionsModel { leading_plus: enable, ..self@ }),
    {
        let mut o = self;
        o.leading_plus = enable;
        o
    }

    /// Sets whether map entries are written in key order.
    pub fn with_sort_keys(self, enable: bool) -> (r: Self)
        ensures
            r@ == (OptionsModel { sort_keys: enable, ..self@ }),
    {
        let mut o = self;
        o.sort_keys = enable;
        o
    }

    /// Sets whether characters outside ASCII are written as `\uXXXX`.
    pub fn with_escape_unicode(self, enable: bool) -> (r: Self)
        ensures
            r@ == (OptionsModel { escape_unicode: enable, ..self@ }),
    {
        let mut o = self;
        o.escape_unicode = enable;
        o
    }

    /// Sets whether a UTC offset is written `Z` rather than `+00:00`.
    pub fn with_use_zulu(self, enable: bool) -> (r: Self)
        ensures
            r@ == (OptionsModel { use_zulu: enable, ..self@ }),
    {
        let mut o = self;
        o.use_zulu = enable;
        o
    }

    /// Sets how many fractional digits timestamps are written with.
    pub fn with_timestamp_precision(self, precision: TimestampPrecision) -> (r: Self)
        ensures
            r@ == (OptionsModel { timestamp_precision: precision, ..self@ }),
    {
        let mut o = self;
        o.timestamp_precision = precision;
        o
    }
}

} // verus!
