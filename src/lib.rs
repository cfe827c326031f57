//! Splits a byte stream on a one-byte delimiter and, for each value, builds
//! a command line from a template by substituting a placeholder.
//!
//! The process work (reading standard input, spawning children) stays with
//! the caller; this library holds the decisions taken around it.

pub mod delimiter;
pub mod split;
pub mod substitute;
pub mod session;
