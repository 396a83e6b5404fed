//! Layout arithmetic, text checks and command-line logic of a Rust source
//! formatter, with the behaviour of each operation stated in its contract and
//! proved.
//!
//! - `shape`: indentation and the width left for text.
//! - `config`: the options, the lines to format, and reading `key=value` options.
//! - `text`, `utils`: measurements and searches on text.
//! - `pattern`: the regular expressions of the `regex` crate.
//! - `string`: breaking string literals and comments into lines that fit.
//! - `rustfmt_diff`: mismatches between an expected and an actual text.
//! - `report`, `buffer`: the line checks on formatted text, and the report of the
//!   errors they find, file by file.
//! - `formatting`: the line checks that know comments, string literals and
//!   skipped ranges, and the bookkeeping of a run.
//! - `changes`: the formatted text of each file, the simple line checks on it,
//!   and how it is written out.
//! - `macros`, `ast`: the parts of macro invocations and syntax trees that the
//!   layout reads, and the text written for them.
//! - `cli`, `cargo_fmt`, `ignore_path`: the command lines of `rustfmt` and
//!   `cargo fmt`, and the paths left alone.

pub mod config;
pub mod shape;
pub mod text;
pub mod pattern;
pub mod utils;
pub mod string;
pub mod rustfmt_diff;
pub mod report;
pub mod buffer;
pub mod formatting;
pub mod cli;
pub mod cargo_fmt;
pub mod macros;
pub mod changes;
pub mod ignore_path;
pub mod ast;
