//! On-demand rotation of a growing log file into a bounded chain of numbered
//! backups.
//!
//! The crate holds the decisions of the rotator and nothing that touches a
//! file: it counts what has been written, decides when a rotation is due and
//! says, as a list of file operations, what the caller has to do next.

pub mod disk;
pub mod laws;
pub mod naming;
pub mod plan;
pub mod rotator;
pub mod scan;
