//! A small reverse tunnel: a server hands out public domains to clients over a
//! control channel and forwards each public request through a fresh data channel.
//!
//! This crate holds the protocol's logic: the packet codec, the server's domain
//! pool and channel table, the client's handshake decisions and the HTTP access
//! log that the client prints while it proxies.

pub mod wire;
pub mod packet;
pub mod text;
pub mod access_log;
pub mod server;
pub mod client;
pub mod router;
