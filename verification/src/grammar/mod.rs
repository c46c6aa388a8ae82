//! The grammar as mathematical functions from the state of a parse to what
//! was read and the state after it. The parser computes these functions.
//!
//! Every part of a record is read inside the scope of its line: from the
//! line's tag to the first token that closes the scope, which is a level
//! that is not deeper than that of the line, or the end of the text.

pub mod fields;
pub mod records;
pub mod sources;
