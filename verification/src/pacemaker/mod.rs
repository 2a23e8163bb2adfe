//! View synchronisation and leader rotation: the liveness half of the
//! protocol. Everything here is free of I/O.

pub mod leader;
pub mod rotation_laws;
pub mod state_machine;
pub mod timeout;
pub mod view_laws;
