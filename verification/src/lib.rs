//! Normalizer for broker fill reports.
//!
//! Takes a spreadsheet already decoded into a grid of string cells and
//! produces a strict six-column grid (Date, Time, Symbol, Quantity, Price,
//! Side) ready for CSV serialization.

pub mod laws;
pub mod num;
pub mod report;
pub mod text;
