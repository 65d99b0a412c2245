//! Wire-level core of a minimal DNS responder/forwarder: a verified codec for
//! single-question DNS messages over fixed 512-byte datagram buffers, and the
//! request/response correlation logic that merges an upstream answer into a
//! response for the original client.

pub mod laws;
pub mod message;
pub mod wire;
