//! Consensus core of a Raft-family replication protocol: leader election,
//! log replication, joint-configuration membership change and snapshot
//! compaction, written as verified state transitions.
pub mod config;
pub mod consensus;
pub mod error;
pub mod log;
pub mod peer;
pub mod state_machine;
pub mod timer;
