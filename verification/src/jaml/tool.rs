//! What the JAML command-line tool computes: the options that its flags
//! select, and the formatted text of a document.

use vstd::prelude::*;
use crate::error::{Error, ErrorModel};
use crate::jaml::formatter::options::{BinaryEncoding, Options, QuoteStyle, TimestampPrecision};
use crate::jaml::formatter::{block, format_with_opts};
use crate::jaml::parser::{document, parse};

verus! {

/// The options that the flags of the formatting command select: the given
/// quote style, binary encoding and timestamp precision, bare keys unless
/// keys are to be quoted, sorted keys unless switched off, `Z` for UTC
/// unless switched off, and a leading plus and escaping of characters
/// outside ASCII as asked for.
pub open spec fn selected_options(
    quotes: QuoteStyle,
    binary: BinaryEncoding,
    quote_keys: bool,
    leading_plus: bool,
    no_sort_keys: bool,
    escape_unicode: bool,
    no_zulu: bool,
    timestamp_precision: TimestampPrecision,
) -> Options {
    Options {
        quote_style: quotes,
        binary_encoding: binary,
        unquoted_keys: !quote_keys,
        leading_plus: leading_plus,
        sort_keys: !no_sort_keys,
        escape_unicode: escape_unicode,
        use_zulu: !no_zulu,
        timestamp_precision: timestamp_precision,
    }
}

/// The options that the flags of the formatting command select.
pub fn build_format_options(
    quotes: QuoteStyle,
    binary: BinaryEncoding,
    quote_keys: bool,
    leading_plus: bool,
    no_sort_keys: bool,
    escape_unicode: bool,
    no_zulu: bool,
    timestamp_precision: TimestampPrecision,
) -> (r: Options)
    ensures
        r == selected_options(
            quotes,
            binary,
            quote_keys,
            leading_plus,
            no_sort_keys,
            escape_unicode,
            no_zulu,
            timestamp_precision,
        ),
{
    Options::new().with_quote_style(quotes).with_binary_encoding(binary).with_unquoted_keys(
        !quote_keys,
    ).with_leading_plus(leading_plus).with_sort_keys(!no_sort_keys).with_escape_unicode(
        escape_unicode,
    ).with_use_zulu(!no_zulu).with_timestamp_precision(timestamp_precision)
}

/// What formatting a document yields: the text of its value under the
/// options, or the error that reading it ends in.
pub open spec fn reformatted(input: Seq<char>, o: Options) -> Result<Seq<char>, ErrorModel> {
    match document(input) {
        Ok(v) => Ok(block(v, o, Seq::empty())),
        Err(e) => Err(e),
    }
}

/// The view of the outcome of formatting a document.
pub open spec fn text_result(r: Result<String, Error>) -> Result<Seq<char>, ErrorModel> {
    match r {
        Ok(text) => Ok(text@),
        Err(e) => Err(e@),
    }
}

/// Reads a JAML document and writes it again under the given options.
pub fn reformat(input: &str, opts: &Options) -> (r: Result<String, Error>)
    ensures
        text_result(r) == reformatted(input@, *opts),
{
    match parse(input) {
        Ok(value) => Ok(format_with_opts(&value, opts)),
        Err(e) => Err(e),
    }
}

} // verus!
