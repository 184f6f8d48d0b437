//! What travels between peers: the messages, the compression of their inputs,
//! and the endpoint that speaks the protocol.
pub mod compression;
pub mod protocol;
pub mod udp_msg;
