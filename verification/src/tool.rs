//! What the JASN command-line tool computes: the options that its flags
//! select, and the formatted text of a document.

use vstd::prelude::*;
use crate::error::{Error, ErrorModel};
use crate::formatter::options::{
    compact_model, pretty_model, BinaryEncoding, Options, OptionsModel, QuoteStyle,
};
use crate::formatter::{render, to_string_opts};
use crate::parser::{document, parse};

verus! {

/// The options that the flags of the formatting command select: compact
/// output, or pretty output with the given indent string, and on top of
/// either the given quote style and binary encoding, trailing commas unless
/// switched off, bare keys unless keys are to be quoted, sorted keys unless
/// switched off, and escaping of characters outside ASCII as asked for.
pub open spec fn selected_options(
    compact: bool,
    indent: Seq<char>,
    quotes: QuoteStyle,
    binary: BinaryEncoding,
    no_trailing_commas: bool,
    quote_keys: bool,
    no_sort_keys: bool,
    escape_unicode: bool,
) -> OptionsModel {
    let base = if compact {
        compact_model()
    } else {
        OptionsModel { indent: indent, ..pretty_model() }
    };
    OptionsModel {
        quote_style: quotes,
        binary_encoding: binary,
        trailing_commas: !no_trailing_commas,
        unquoted_keys: !quote_keys,
        sort_keys: !no_sort_keys,
        escape_unicode: escape_unicode,
        ..base
    }
}

/// The options that the flags of the formatting command select.
pub fn build_format_options(
    compact: bool,
    indent: &str,
    quotes: QuoteStyle,
    binary: BinaryEncoding,
    no_trailing_commas: bool,
    quote_keys: bool,
    no_sort_keys: bool,
    escape_unicode: bool,
) -> (r: Options)
    ensures
        r@ == selected_options(
            compact,
            indent@,
            quotes,
            binary,
            no_trailing_commas,
            quote_keys,
            no_sort_keys,
            escape_unicode,
        ),
{
    let base = if compact {
        Options::compact()
    } else {
        Options::pretty().with_indent(indent)
    };
    base.with_quote_style(quotes).with_binary_encoding(binary).with_trailing_commas(
        !no_trailing_commas,
    ).with_unquoted_keys(!quote_keys).with_sort_keys(!no_sort_keys).with_escape_unicode(
        escape_unicode,
    )
}

/// What formatting a document yields: the text of its value under the
/// options, or the error that reading it ends in.
pub open spec fn reformatted(input: Seq<char>, o: OptionsModel) -> Result<Seq<char>, ErrorModel> {
    match document(input) {
        Ok(v) => Ok(render(v, o, Seq::empty())),
        Err(e) => Err(e),
    }
}

/// The view of the outcome of formatting a document.
pub open spec fn text_result(r: Result<String, Error>) -> Result<Seq<char>, ErrorModel> {
    match r {
        Ok(text) => Ok(text@),
        Err(e) => Err(e@),
    }
}

/// Reads a JASN document and writes it again under the given options.
pub fn reformat(input: &str, opts: &Options) -> (r: Result<String, Error>)
    ensures
        text_result(r) == reformatted(input@, opts@),
{
    match parse(input) {
        Ok(value) => Ok(to_string_opts(&value, opts)),
        Err(e) => Err(e),
    }
}

} // verus!
