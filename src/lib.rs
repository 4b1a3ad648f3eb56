//! Protocol core of a Minecraft Java Edition (protocol 578) server: the wire
//! data types, packet framing, the packet registry and the per-connection
//! login state machine.

pub mod buffer;
pub mod data_types;
pub mod varint;
pub mod text;
pub mod arrays;
pub mod packets;
pub mod codec;
pub mod auth;
pub mod connection;
