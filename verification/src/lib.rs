//! Verified core of a chat relay: a connection registry with per-channel
//! publish/subscribe fan-out and inline emote enrichment of message text.
//!
//! The crate holds the relay's logic — the subscription indices and their
//! join/part policy, the registry and its delivery policies, enrichment
//! and serialization of messages, and the deterministic nickname color —
//! each behind a contract. The network transports and the HTTP/WebSocket
//! plumbing live outside and hand the library plain values.

pub mod chat;
pub mod color;
pub mod connection;
pub mod emote;
pub mod err;
pub mod ffz;
pub mod manager;
pub mod message;
pub mod text;
pub mod ws;
