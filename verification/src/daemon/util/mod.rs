//! Building blocks of the daemon.
pub mod atomic;
pub mod io;
pub mod lock;
pub mod tables;
