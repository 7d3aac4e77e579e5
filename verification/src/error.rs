//! The errors that reading a document can end in.

use vstd::prelude::*;
use crate::jaml::parser::indent::Style;

verus! {

/// Why a document could not be read. One error ends the whole reading.
#[derive(Debug, Clone, PartialEq, Eq)]
pub enum Error {
    /// The text does not follow the grammar at this character offset.
    Syntax(usize),
    /// An integer literal lies outside the 64-bit signed range.
    IntegerOverflow,
    /// A token looks like a number but is neither an integer nor a float.
    InvalidFloat,
    /// A backslash is followed by a character that names no escape.
    InvalidEscapeChar(char),
    /// `\u` is not followed by four hexadecimal digits; holds what follows.
    InvalidUnicodeEscape(String),
    /// A `\u` escape names a surrogate that has no partner.
    InvalidUnicodeCodepoint(u32),
    /// The content of a `b64"..."` literal is not padded standard base64.
    InvalidBase64,
    /// A hex binary literal holds an odd number of digits.
    OddHexDigits,
    /// A hex binary literal holds a character that is no hexadecimal digit.
    InvalidHexDigit(char),
    /// The content of a `ts"..."` literal is no RFC 3339 date-time; holds the
    /// content and the reason.
    InvalidTimestamp(String, String),
    /// A key occurs twice in one map.
    DuplicateKey(String),
    /// One line's indentation mixes spaces and tabs.
    MixedIndent(String),
    /// A line is indented with the other character than the document's
    /// first indented line; holds the established style and the one found.
    InconsistentIndentStyle(Style, Style),
    /// A line's indentation is no multiple of the document's unit; holds the
    /// established style and the length found.
    InvalidIndentCount(Style, usize),
    /// A line sits at a level that no open block has; holds the level
    /// expected and the one found.
    UnexpectedIndent(usize, usize),
    /// The document holds nothing but blank lines and comments.
    EmptyDocument,
    /// A list dash or a map colon is followed by no value; holds the number
    /// of its line, counted from one.
    MissingValue(usize),
}

/// The mathematical content of an [`Error`].
pub enum ErrorModel {
    Syntax(int),
    IntegerOverflow,
    InvalidFloat,
    InvalidEscapeChar(char),
    InvalidUnicodeEscape(Seq<char>),
    InvalidUnicodeCodepoint(int),
    InvalidBase64,
    OddHexDigits,
    InvalidHexDigit(char),
    InvalidTimestamp(Seq<char>, Seq<char>),
    DuplicateKey(Seq<char>),
    MixedIndent(Seq<char>),
    InconsistentIndentStyle(Style, Style),
    InvalidIndentCount(Style, int),
    UnexpectedIndent(int, int),
    EmptyDocument,
    MissingValue(int),
}

impl Error {
    /// Whether the error, if it is a syntax error, points into a text of the
    /// given length or at its end.
    pub open spec fn within(&self, len: usize) -> bool {
        self matches Error::Syntax(p) ==> *p <= len
    }
}

impl View for Error {
    type V = ErrorModel;

    open spec fn view(&self) -> ErrorModel {
        match self {
            Error::Syntax(p) => ErrorModel::Syntax(*p as int),
            Error::IntegerOverflow => ErrorModel::IntegerOverflow,
            Error::InvalidFloat => ErrorModel::InvalidFloat,
            Error::InvalidEscapeChar(c) => ErrorModel::InvalidEscapeChar(*c),
            Error::InvalidUnicodeEscape(s) => ErrorModel::InvalidUnicodeEscape(s@),
            Error::InvalidUnicodeCodepoint(n) => ErrorModel::InvalidUnicodeCodepoint(*n as int),
            Error::InvalidBase64 => ErrorModel::InvalidBase64,
            Error::OddHexDigits => ErrorModel::OddHexDigits,
            Error::InvalidHexDigit(c) => ErrorModel::InvalidHexDigit(*c),
            Error::InvalidTimestamp(t, r) => ErrorModel::InvalidTimestamp(t@, r@),
            Error::DuplicateKey(k) => ErrorModel::DuplicateKey(k@),
            Error::MixedIndent(s) => ErrorModel::MixedIndent(s@),
            Error::InconsistentIndentStyle(a, b) => ErrorModel::InconsistentIndentStyle(*a, *b),
            Error::InvalidIndentCount(s, n) => ErrorModel::InvalidIndentCount(*s, *n as int),
            Error::UnexpectedIndent(a, b) => ErrorModel::UnexpectedIndent(*a as int, *b as int),
            Error::EmptyDocument => ErrorModel::EmptyDocument,
            Error::MissingValue(n) => ErrorModel::MissingValue(*n as int),
        }
    }
}

} // verus!
