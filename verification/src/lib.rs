//! Core of a leader-based replicated consensus engine in the Raft family.
//!
//! A fixed membership of nodes elects a leader per term, replicates a
//! totally-ordered log, and exposes a committed prefix to an applier.
//! The engine here is a pure state machine: every role transition and both
//! wire RPCs (`RequestVote`, `AppendEntries`) are handled by verified
//! functions whose contracts state exactly how the node's vote, log and
//! commit index change. Timers, networking and persistence live outside and
//! drive the engine through these functions.

pub mod config;
pub mod engine;
pub mod matching;
pub mod metrics;
pub mod quorum;
pub mod replication;
pub mod storage;
pub mod typeconf;
pub mod vote;
