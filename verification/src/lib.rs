//! A small line-oriented text search library.
//!
//! Given a query string and a block of text, the library splits the text
//! into lines and returns, in source order, every line that contains the
//! query as a contiguous substring.  A case-insensitive variant lowercases
//! both the query and each candidate line before the containment test, but
//! always returns the lines with their original casing.

pub mod config;
pub mod search;
pub mod text;

pub use config::Config;
pub use search::{contains_substring, run, search, search_case_insensitive, split_lines};
