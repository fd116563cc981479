//! `opmark` is a markup language focused on presentation making.
//!
//! A document is a plain-text buffer in a slide-oriented markup dialect.
//! The [`Parser`] turns it into a flat stream of [`mark::Mark`] values
//! (structural marks such as pages and transitions, and inline marks such
//! as styled text runs), and [`Parser::into_pages`] regroups that flat
//! stream into pages, each carrying its ordered transitions.
//!
//! Malformed constructs never fail: anything that does not match a
//! production is absorbed as literal text.

pub mod laws;
pub mod mark;
pub mod pages;
pub mod parser;
pub mod scan;
pub mod text;

pub use crate::parser::Parser;
