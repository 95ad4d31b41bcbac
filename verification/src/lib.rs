//! A minimal client library for the Minecraft server-status ("ping")
//! protocol: VarInt and length-prefixed string codecs, packet framing,
//! host-resolution decisions, rich-text flattening of the status
//! description, and the ping state machine that sequences one request.
//!
//! All protocol logic is verified. Network I/O, DNS lookups and the JSON
//! parser are reached only through a thin layer of trusted declarations.

pub mod errors;
pub mod json;
pub mod packet;
pub mod status;
pub mod primitives;
pub mod resolve;
pub mod session;
pub mod strings;
pub mod varint;
