//! A reader and writer for the nested, line-oriented project files of a
//! digital audio workstation.
//!
//! The text is read into an ordered tree of elements, attributes and values,
//! and a tree is written back as text that reads as the same tree.

pub mod builders;
pub mod charset;
pub mod error;
pub mod grammar;
pub mod order;
pub mod parser;
pub mod query;
pub mod reaper;
pub mod render;
pub mod roundtrip;
pub mod serialize;
pub mod tree;
pub mod wellformed;

pub use builders::RValues;
pub use error::{ParseError, ParseErrorKind};
pub use parser::element::parse_element;
pub use reaper::{Item, Project, Track};
pub use tree::{RElement, RFragment, RFragmentId, RValue};
