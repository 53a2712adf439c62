//! Inspection of a host's listening sockets and running processes.
//!
//! The library parses the textual tables produced by the host's
//! enumeration tools (socket table, process table, executable-path
//! query), correlates the three feeds by process identifier into
//! sorted port and process views, and decides termination requests
//! by port or by pid.  All parsing and correlation is verified; the
//! surrounding shell only runs the external tools and hands their
//! captured output in as plain strings.

pub mod chars;
pub mod correlate;
pub mod laws;
pub mod model;
pub mod ops;
pub mod render;
pub mod sorting;
pub mod split;
pub mod tables;
