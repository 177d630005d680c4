//! The client: what the arguments on the command line ask of the daemon.
pub mod arguments;
pub mod flags;
pub mod laws;
