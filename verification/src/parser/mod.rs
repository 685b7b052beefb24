//! The parsers: executable functions that compute what the grammar defines.
//!
//! Each construct has a function that reads it from a buffer of characters
//! at a position, and the public constructs also one that reads it from the
//! start of a string slice and hands back the rest of the slice.

pub mod buffer;
pub mod element;
pub mod identifier;
pub mod number;
pub mod quoted_string;
pub mod string;
pub mod values;
pub mod whitespace;
