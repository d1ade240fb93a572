//! The control plane of a Raft replica: the log, the replica's state and its
//! transitions, the per-peer replication cursors, the election tally and the
//! inbound request handlers, each as a verified function of plain values.

pub mod log;
pub mod state;
pub mod peer;
pub mod handler;
pub mod server;
