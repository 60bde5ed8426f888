//! Fan-out of published pub/sub messages to any number of connected clients.
//!
//! The library holds the logic of the bridge: the message and its JSON wire
//! envelope, the bounded drop-oldest queue of each subscriber, the broadcast
//! bus that owns the registry of subscribers, and the per-connection
//! forwarder state machine. The network and the process around it live in
//! the application.

pub mod envelope;
pub mod queue;
pub mod bus;
pub mod delivery;
pub mod forwarder;
pub mod source;

