//! A real-time chat relay: wire-level message decoding, attachment payloads,
//! the per-message ingest decisions and the registry of connected clients.

pub mod attachment;
pub mod catchers;
pub mod messages;
pub mod pipeline;
pub mod registry;
pub mod session;
