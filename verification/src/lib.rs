//! Coordination rules for a multi-round proof-aggregation pipeline.
//!
//! The crate holds the parts of the pipeline that decide something: how
//! artifacts are addressed, how rounds follow each other, how the jobs of one
//! round are grouped into the jobs of the next, and how a job moves through
//! its life. Storage backends and the proving engine stay outside; every
//! function here works on plain values and carries a proved contract.

pub mod args;
pub mod artifacts;
pub mod builder;
pub mod completion;
pub mod format;
pub mod job;
pub mod key;
pub mod manager;
pub mod round;
pub mod wiring;
pub mod worker;

