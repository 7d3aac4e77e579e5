//! JAML, the indentation-based syntax.

pub mod formatter;
pub mod laws;
pub mod parser;
pub mod tool;

pub use parser::parse;
