//! Metadata of the configuration parameters of a lint tool, read from their
//! documentation comments and rendered as Markdown.
//!
//! Text is modelled as `Seq<char>`: every executable function states its result
//! as a specification function of the views of its arguments.

pub mod chars;
pub mod lines;
pub mod metadata;
pub mod pattern;
pub mod strings;
pub mod trim;
