//! Aggregation of per-entry facts gathered by a directory scan into a summary report.

pub mod classify;
pub mod laws;
pub mod report;
pub mod table;
