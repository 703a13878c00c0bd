//! Extraction of secret-looking tokens from lines of text, with per-file
//! rule sets, layered filtering and a merged, ranked frequency table.

pub mod pattern;
pub mod rules;
pub mod extract;
pub mod table;
pub mod scan;
pub mod rank;
pub mod merge;
pub mod laws;
