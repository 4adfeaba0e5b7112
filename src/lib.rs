//! A normalizer for the lines of plain-text ledger journals: each line is
//! classified into a tagged value, and the tagged value is rendered back as text
//! with postings laid out in fixed columns.

pub mod common;
pub mod format;
pub mod laws;
pub mod parse;
pub mod text;
