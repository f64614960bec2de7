//! `solx keep`: renew the scratch directories that Sol has flagged for removal.
//!
//! Sol drops warning CSVs into a directory. The library reads the flagged
//! directories out of them, keeps those that the `[keep]` rules name, and
//! drives the renewal of their timestamps. It decides everything and touches
//! nothing: reading files, walking directories, stamping entries and talking to
//! the user are left to the program around it, which reports back in plain
//! values.
pub mod document;
pub mod execution;
pub mod flagged;
pub mod guarantees;
pub mod jobs;
pub mod plan;
pub mod pool;
pub mod renewal;
pub mod report;
pub mod rules;
pub mod schedule;
pub mod serial;
pub mod session;
pub mod shard;
pub mod stage;
pub mod text;
pub mod touch;
pub mod walk;
