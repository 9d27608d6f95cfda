//! Verified core of a blockchain validator monitor.
//!
//! The library reconstructs validator economic and liveness behaviour from a
//! stream of block notifications: quantity strings are decoded into
//! fixed-point coin amounts, block events are classified into typed domain
//! events, price votes are aggregated per vote period with abstention and
//! drift detection, and per-validator health records are maintained from the
//! resulting event flow.  A shared network-state aggregate with consistent
//! reverse indices can be checkpointed to bytes and restored.
//!
//! All I/O (the streaming feed, registry fetches, enrichment lookups, the
//! checkpoint file) lives outside the library; callers hand in plain values
//! and receive plain values and event lists back.

pub mod bus;
pub mod checkpoint;
pub mod coins;
pub mod discord;
pub mod enrich;
pub mod errors;
pub mod intake;
pub mod keymap;
pub mod messages;
pub mod oracle;
pub mod peers;
pub mod state;
pub mod text;
pub mod tracker;
pub mod types;
