//! The daemon.
pub mod config;
pub mod engine;
pub mod fs;
pub mod util;
