//! The records of a GEDCOM file and what they are made of.

pub mod address;
pub mod event;
pub mod family;
pub mod header;
pub mod individual;
pub mod source;
