//! What the daemon is told by its files, and what it keeps while it runs.
pub mod persistent;
pub mod runtime;
