//! Remote file streaming: the message schema, its binary wire form, the
//! reassembly of messages from stream fragments, and the two request/response
//! state machines (server session and client copy driver).

pub mod message;
pub mod wire;
pub mod wire_laws;
pub mod framing;
pub mod server;
pub mod client;
