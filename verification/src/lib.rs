//! Typed lookup tables for INI-style configuration data.
//!
//! Raw key/value pairs (as produced by an INI reader) are classified by a
//! fixed precedence order — integer, then float, then boolean, then plain
//! string, with absent values kept apart — and filed into one typed mapping
//! per inferred type.

pub mod config;
pub mod value;
