//! Diagnostics: source spans, located errors and the trace that stacks them.

pub mod error;
pub mod span;
pub mod trace;
