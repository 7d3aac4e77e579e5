//! JASN and JAML: two textual notations over one value model.
//!
//! JASN is a bracketed, JSON5-like syntax; JAML is an indentation-based,
//! YAML-like syntax. Both read into the same [`Value`] tree and are written
//! back from it under configurable style options. Every function of this
//! crate carries a contract that Verus proves against its body.
//!
//! - [`value`], [`binary`], [`float`] and [`timestamp`] hold the data.
//! - [`lexer`] reads scalar tokens; [`parser`] reads JASN and
//!   [`jaml::parser`] reads JAML.
//! - [`scalar`] writes leaves; [`formatter`] writes JASN and
//!   [`jaml::formatter`] writes JAML.
//! - [`laws`] and [`jaml::laws`] prove that what was written reads back as
//!   itself.
//!
//! Integers are 64-bit. Floats are held as the exact text of their
//! literal, so the library never rounds. Base64 text is read and written
//! by the `base64` crate and RFC 3339 date-times by the `time` crate; the
//! contracts name what those crates return and prove everything around it.

pub mod binary;
pub mod error;
pub mod float;
pub mod formatter;
pub mod jaml;
pub mod laws;
pub mod lexer;
pub mod parser;
pub mod scalar;
pub mod text;
pub mod timestamp;
pub mod tool;
pub mod value;

pub use binary::Binary;
pub use error::Error;
pub use float::Float;
pub use formatter::{to_string, to_string_opts, to_string_pretty};
pub use parser::parse;
pub use timestamp::Timestamp;
pub use value::{Entries, Value};
