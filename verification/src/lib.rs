//! Session lifecycle and room-membership engine of a real-time collaboration
//! server.
//!
//! The engine decides; it performs no I/O. Every operation that would send
//! bytes to a connection returns the deliveries to perform, and the transport
//! around the engine carries them out in the order given.

pub mod ids;
pub mod project;
pub mod registry;
pub mod client_handler;
pub mod server;
pub mod laws;
