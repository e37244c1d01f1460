//! A small line-oriented text search library.
//!
//! A [`Matcher`] is built once, by [`build_matcher`], from a [`Grep`]
//! configuration and a query: a plain substring, a substring compared
//! without regard to letter case, or a regular expression. It is then applied
//! to every line of a text by [`search`] or [`Matcher::search`], which return
//! the matching lines with their one-based line numbers, and by
//! [`search_in_text`], which lays them out for printing.
//!
//! The library reads no files and prints nothing. Paths and file contents are
//! handed to it as values, and [`get_paths`] and [`get_files`] pick the files
//! to scan among the entries that a glob pattern expanded to.
//!
//! Contracts speak of a text as a sequence of characters. What the lines of a
//! text are is defined in [`text`], what a matcher accepts in [`matcher`],
//! and which lines a search returns in [`search`](mod@search). Two things
//! are taken on trust and only named: the meaning of regular expressions
//! ([`engine`]) and the Unicode lowercase mapping ([`casefold`]).

pub mod casefold;
pub mod config;
pub mod encoding;
pub mod engine;
pub mod matcher;
pub mod paths;
pub mod report;
pub mod search;
pub mod substring;
pub mod text;

pub use config::{ConfigError, Grep};
pub use engine::Compiled;
pub use matcher::{build_matcher, Matcher, MatcherError};
pub use paths::{get_files, get_paths};
pub use report::{format_match, search_in_text};
pub use search::search;
