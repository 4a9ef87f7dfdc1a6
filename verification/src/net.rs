//! The connection-lifecycle layer: the per-connection state machine, the
//! timeout manager, and virtual-host selection. The readiness
//! demultiplexer itself lives outside the library; everything here takes
//! plain values — byte counts, clock readings, file descriptors.

pub mod conn;
pub mod multi_server;
pub mod timeout;
