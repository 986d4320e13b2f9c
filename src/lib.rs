//! Core of a read-only block file-transfer server: wire frames, per-client
//! transfer sessions, the session table and the dispatcher that routes each
//! inbound datagram.

mod bytes;
pub mod path;
pub mod laws;
pub mod server;
pub mod stream;
pub mod wire;
