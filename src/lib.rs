//! Protocol engine and chunk meshing core of a block-world game client
//! speaking protocol version 47.

pub mod chat;
pub mod chunk_cons;
pub mod chunk_packets;
pub mod coding;
pub mod distance;
pub mod error;
pub mod handler;
pub mod login;
pub mod network;
pub mod nibble;
pub mod packet;
pub mod packets;
pub mod proto;
pub mod smp;
pub mod varint;
pub mod world;
pub mod zlib;
