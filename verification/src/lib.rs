//! A parser for the value syntax that a debugger prints inside its
//! machine-interface records: scalars, `{ }` lists and `{ }` maps.
//!
//! [`grammar`] says what a text means, [`parser`] reads it, and every method
//! of [`Parser`] is proved to give what the grammar says.

pub mod chars;
pub mod error;
pub mod grammar;
pub mod laws;
pub mod locality;
pub mod parser;
pub mod value;

pub use crate::error::{ParseError, Separator};
pub use crate::parser::Parser;
pub use crate::value::Value;
