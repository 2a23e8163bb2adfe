//! The consensus node: what it decides on each input, and the state it
//! decides from.

pub mod actions;
pub mod admission;
pub mod audit;
pub mod builder;
pub mod commit;
pub mod commit_laws;
pub mod config;
pub mod consensus_node;
pub mod dispatch;
pub mod driving;
pub mod error;
pub mod exchange_laws;
pub mod listing;
pub mod membership;
pub mod membership_laws;
pub mod persist;
pub mod qc_cache;
pub mod rebuild;
pub mod recovery;
pub mod restart_laws;
pub mod snapshot;
pub mod status;
pub mod timeout_laws;
pub mod timeouts;
pub mod trace;
