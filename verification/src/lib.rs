//! A library for mirroring a source directory tree into a destination tree,
//! transcoding each video file through an external encoder.
//!
//! The library holds the policy and protocol layer: deciding which files to
//! process, resolving the effective scaling parameter for a directory through
//! longest-prefix overrides, deriving the staging paths, and driving the
//! crash-safe stage/transform/rename protocol as a state machine. All
//! filesystem and process work is performed by the surrounding program, which
//! feeds the results back as plain events.

pub mod parse;
pub mod paths;
pub mod resolve;
pub mod walk;
pub mod writer;
