//! Exact, renderer-neutral measurement requirements for scene compilation.

pub mod keys;
pub mod values;
pub mod requirements;
pub mod measurements;
pub mod aggregate;
