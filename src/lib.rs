//! Helpers for tests: sample-value generators and the decision logic of a
//! managed scratch directory.
pub mod samples;
pub mod scratch;
