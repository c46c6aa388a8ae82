//! A reader for GEDCOM genealogy files.
//!
//! The text is cut into tokens by [`tokenizer::Tokenizer`], and
//! [`parser::Parser`] turns the tokens into a [`tree::GedcomData`]: a header,
//! the individuals and the families, in the order of the file.

pub mod text;
pub mod token;
pub mod tokenizer;
pub mod types;
pub mod tree;
pub mod diagnostic;
pub mod state;
pub mod grammar;
pub mod laws;
pub mod parser;

pub use parser::{parse, parse_text};
pub use tree::GedcomData;
