//! Verified core of a small RPC layer for a distributed storage cluster:
//! request/response framing over a byte stream, a client-side connection
//! pool, server-side handler dispatch, and a heartbeat keep-alive protocol.
//!
//! All socket and timer work lives outside this crate; the library holds the
//! wire contract and the decision logic, stated and proved here.

pub mod client;
pub mod codec;
pub mod heartbeat;
pub mod server;
