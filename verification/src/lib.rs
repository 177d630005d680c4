//! Brightness control for displays driven through `xrandr`, and through `redshift` if
//! that is to show the nightlight.
//!
//! The crate holds what the daemon and the command-line client decide: which
//! monitors a request is meant for, what their brightness becomes, how a fade
//! proceeds, which external commands are run and what is answered. Sockets,
//! files, child processes, timers and floating point arithmetic belong to the
//! program around it.
pub mod client;
pub mod daemon;
pub mod level;
pub mod shared;
pub mod text;
