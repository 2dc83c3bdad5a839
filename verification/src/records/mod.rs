//! Immutable presentation records grouped by semantic owner.

pub mod contained;
pub mod presentation;
pub mod tab;
pub mod splitter;
