//! A command-line client for a media-extraction service, built around a
//! verified JSON parser.
//!
//! - `json`: decoded values, their model, the narrowing accessors, `parse`.
//! - `parser`: the parser as a state machine; `parse` follows its `step`.
//! - `render`: the text of a value, and the law that parsing reads it back.
//! - `args`: the command line (`args::get` reads the words of `get`).
//! - `config`: the words and hosts that the configuration file adds.
//! - `strings`: sections of the help and information texts.
//! - `process`: the request body, and the URL to fetch from an answer.
//! - `text`: character-level helpers.

pub mod json;
pub mod parser;
pub mod args;
pub mod text;
pub mod strings;
pub mod render;
pub mod process;
pub mod config;
