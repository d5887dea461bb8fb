//! A small line-oriented text-search library.
//!
//! The matcher decides whether a single line satisfies a search pattern
//! (literal substring, inverted literal, or a regular expression, optionally
//! anchored or case-insensitive); the scanner splits text into lines, drives
//! the matcher over them, and formats the matching records.

pub mod matcher;
pub mod scanner;
