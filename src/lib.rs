//! A non-blocking, multi-connection WebSocket server core for a host that runs
//! its own periodic tick.
//!
//! The verified library holds the connection registry and its round-robin
//! cursor, the per-tick dispatch of decoded reads, the hand-off of newly
//! accepted connections, and the subprotocol negotiation that picks each
//! connection's mode. Sockets, threads and the host's event system stay with
//! the caller.
pub mod client;
pub mod events;
pub mod peer;
pub mod schedule;
pub mod server;
pub mod writer;

pub use tungstenite;
