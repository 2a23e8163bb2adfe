//! The decision logic of a HotStuff replica: view management, leader
//! rotation, durable safety state, block building, commits, committee
//! changes and the wire codec. Everything here is free of I/O; an outer
//! driver performs the effects that these functions ask for.

pub mod bls_partial;
pub mod bytes;
pub mod codec;
pub mod counter;
pub mod decimal;
pub mod digests;
pub mod history_codec;
pub mod key_history;
pub mod key_laws;
pub mod layout_laws;
pub mod messages;
pub mod node;
pub mod pacemaker;
pub mod quorum;
pub mod replication;
pub mod state;
pub mod storage;
pub mod trusted;
pub mod types;
pub mod validator_history;
pub mod validator_set;
pub mod wire;
