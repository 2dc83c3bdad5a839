//! Exact structural splitter-junction reporting without pairwise scans.

pub mod interval;
pub mod splitters;
pub mod sweep;
pub mod accumulate;
pub mod derive;
