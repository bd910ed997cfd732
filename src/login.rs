use vstd::prelude::*;

use crate::packets::{Handshake, PingPong};
use crate::varint::VarInt;

verus! {

/// The protocol version this client speaks.
pub const PROTOCOL_VERSION: i32 = 47;

impl Handshake {
    /// Opens a connection that goes on to the status query.
    pub fn status_handshake(server_address: &str, server_port: u16) -> (r: Handshake)
        ensures
            r.protocol_version.0 == 47,
            r.server_address@ == server_address@,
            r.server_port == server_port,
            r.next_state.0 == 1,
    {
        Handshake {
            protocol_version: VarInt(PROTOCOL_VERSION),
            server_address: server_address.to_string(),
            server_port,
            next_state: VarInt(1),
        }
    }

    /// Opens a connection that goes on to log in.
    pub fn login_handshake(server_address: &str, server_port: u16) -> (r: Handshake)
        ensures
            r.protocol_version.0 == 47,
            r.server_address@ == server_address@,
            r.server_port == server_port,
            r.next_state.0 == 2,
    {
        Handshake {
            protocol_version: VarInt(PROTOCOL_VERSION),
            server_address: server_address.to_string(),
            server_port,
            next_state: VarInt(2),
        }
    }
}

impl PingPong {
    pub fn new(payload: i64) -> (r: PingPong)
        ensures
            r.payload == payload,
    {
        PingPong { payload }
    }
}

/// What a status query found out about a server.
#[derive(Debug, Clone)]
pub struct QueryStatus {
    /// Round trip of the ping, in milliseconds.
    pub latency: u64,
    /// The status document the server sent.
    pub server_info: String,
}

/// A byte source that counts what was read from it.
pub struct TrackedReader<R> {
    pub reader: R,
    pub bytes_read: u64,
}

impl<R> TrackedReader<R> {
    pub fn new(reader: R) -> (r: TrackedReader<R>)
        ensures
            r.reader == reader,
            r.bytes_read == 0,
    {
        TrackedReader { reader, bytes_read: 0 }
    }

    /// Records `n` more bytes read; the count stops at its maximum.
    pub fn record(&mut self, n: usize)
        ensures
            final(self).reader == old(self).reader,
            final(self).bytes_read == if old(self).bytes_read + n > u64::MAX {
                u64::MAX as int
            } else {
                old(self).bytes_read + n
            },
    {
        self.bytes_read = self.bytes_read.saturating_add(n as u64);
    }
}

} // verus!
