//! Summaries of duplicate-file reports: a line-oriented parser for the
//! report format, per-group waste metrics, a stable ranking, a size filter
//! and the aggregate statistics printed at the end of a summary.

pub mod text;
pub mod group;
pub mod parser;
pub mod rank;
pub mod summary;
pub mod laws;
pub mod tree;
