//! A model of a parallel directory-mirroring tool: paths and their
//! root-prefix substitution, scan results, work partitioning across a
//! fixed worker count, per-file copy decisions, and progress counting.

pub mod fs_path;
pub mod partition;
pub mod progress;
pub mod replicate;
pub mod scan;
pub mod session;
pub mod worker;
