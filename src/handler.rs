use vstd::prelude::*;

use crate::chunk_packets::{ChunkData, MapChunkBulk};
use crate::error::CodecError;
use crate::packet::When;
use crate::packets::{JoinGame, PlayerLook, PlayerPosition, SendChatMessage, ServerKeepAlive};
use crate::proto::Proto;
use crate::smp::{slots_view, ChunkColumn, ColumnView};
use crate::varint::unsigned_of;

verus! {

/// Inbound packets handled per fixed tick at most; the rest waits for the
/// next tick.
pub const MAX_PACKETS_PER_TICK: usize = 200;

/// Whether the receive loop of a tick may take another packet after
/// `received` of them.
pub fn may_receive(received: usize) -> (r: bool)
    ensures
        r == (received < MAX_PACKETS_PER_TICK),
{
    received < MAX_PACKETS_PER_TICK
}

/// What the receive loop of a tick does after a decoding error.
#[derive(Debug, Clone, Copy, PartialEq, Eq, Structural)]
pub enum ReceiveAction {
    /// The frame is not complete yet: wait for more bytes.
    Wait,
    /// The packet is unknown in this phase: drop it and go on.
    Drop,
    /// A field of the packet did not parse: report it and stop receiving
    /// for this tick.
    EndTick,
    /// Any other error: the connection is lost.
    Disconnect,
}

/// The action for an error met while cutting a frame from the stream.
pub fn on_frame_error(e: &CodecError) -> (r: ReceiveAction)
    ensures
        r == (if *e is UnexpectedEof {
            ReceiveAction::Wait
        } else {
            ReceiveAction::Disconnect
        }),
{
    match e {
        CodecError::UnexpectedEof => ReceiveAction::Wait,
        _ => ReceiveAction::Disconnect,
    }
}

/// The action for an error met while decoding the packet of a complete frame.
pub fn on_packet_error(e: &CodecError) -> (r: ReceiveAction)
    ensures
        r == (if *e is IllegalPacket {
            ReceiveAction::Drop
        } else if *e is CantParseField {
            ReceiveAction::EndTick
        } else {
            ReceiveAction::Disconnect
        }),
{
    match e {
        CodecError::IllegalPacket(_, _) => ReceiveAction::Drop,
        CodecError::CantParseField { .. } => ReceiveAction::EndTick,
        _ => ReceiveAction::Disconnect,
    }
}

/// What the connection knows between packets.
#[derive(Debug, Clone, Copy, PartialEq, Eq, Structural)]
pub struct Session {
    pub state: When,
    /// Size from which outbound packets are compressed; `None` until the
    /// server enables compression.
    pub threshold: Option<u32>,
}

/// An event for the rest of the client.
#[derive(Debug, Clone, PartialEq)]
pub enum ServerMessage {
    GameReady { base: JoinGame },
    Disconnected { why: String },
    DisconnectedOnLogin { why: String },
    ChatMessage { message: String },
    NewChunk { chunk: ChunkColumn },
    /// Authoritative position and look; coordinates as `f64` bits, angles as
    /// `f32` bits.
    PlayerPositionAndLook { x: u64, y: u64, z: u64, yaw: u32, pitch: u32 },
}

/// The column a `ChunkData` packet carries; biomes default to zero when the
/// packet does not send them.
pub open spec fn data_column(d: ChunkData) -> ColumnView {
    ColumnView {
        sections: slots_view(d.sections@),
        biomes: if d.full_chunk {
            d.biomes@
        } else {
            Seq::new(256, |i: int| 0u8)
        },
        x: d.x,
        z: d.z,
    }
}

impl Session {
    pub fn new() -> (r: Session)
        ensures
            r.state == When::Handshake,
            r.threshold is None,
    {
        Session { state: When::Handshake, threshold: None }
    }

    /// Handles one packet from the server: updates the session, queues
    /// events for the client and packets to send back.
    ///
    /// A keep-alive is echoed with the same id; `SetCompression` sets the
    /// threshold; `LoginSuccess` enters Play; joining, chat, disconnects,
    /// position and chunk packets become events; anything else is dropped.
    pub fn handle(
        &mut self,
        packet: Proto,
        events: &mut Vec<ServerMessage>,
        outgoing: &mut Vec<Proto>,
    )
        ensures
            match packet {
                Proto::KeepAlive(k) => final(outgoing)@ == old(outgoing)@.push(
                    Proto::ServerKeepAlive(ServerKeepAlive { id: k.id }),
                ),
                _ => final(outgoing)@ == old(outgoing)@,
            },
            match packet {
                Proto::SetCompression(c) => final(self).threshold == Some(unsigned_of(c.threshold.0))
                    && final(self).state == old(self).state,
                Proto::LoginSuccess(_) => final(self).state == When::Play && final(self).threshold
                    == old(self).threshold,
                _ => *final(self) == *old(self),
            },
            match packet {
                Proto::JoinGame(j) => final(events)@ == old(events)@.push(
                    ServerMessage::GameReady { base: j },
                ),
                Proto::ChatMessage(m) => final(events)@ == old(events)@.push(
                    ServerMessage::ChatMessage { message: m.content },
                ),
                Proto::Disconnect(d) => final(events)@ == old(events)@.push(
                    ServerMessage::Disconnected { why: d.reason },
                ),
                Proto::LoginDisconnect(d) => final(events)@ == old(events)@.push(
                    ServerMessage::DisconnectedOnLogin { why: d.reason },
                ),
                Proto::PlayerPositionAndLook(p) => final(events)@ == old(events)@.push(
                    ServerMessage::PlayerPositionAndLook {
                        x: p.x,
                        y: p.y,
                        z: p.z,
                        yaw: p.yaw,
                        pitch: p.pitch,
                    },
                ),
                Proto::ChunkData(d) => final(events)@.len() == old(events)@.len() + 1
                    && final(events)@.take(old(events)@.len() as int) == old(events)@
                    && match final(events)@.last() {
                    ServerMessage::NewChunk { chunk } => chunk@ == data_column(d),
                    _ => false,
                },
                Proto::MapChunkBulk(b) => final(events)@ == old(events)@ + Seq::new(
                    b.columns@.len(),
                    |i: int| ServerMessage::NewChunk { chunk: b.columns@[i] },
                ),
                _ => final(events)@ == old(events)@,
            },
    {
        match packet {
            Proto::KeepAlive(k) => {
                outgoing.push(Proto::ServerKeepAlive(ServerKeepAlive { id: k.id }));
            },
            Proto::SetCompression(c) => {
                self.threshold = Some(c.threshold.to_u32());
            },
            Proto::LoginSuccess(_) => {
                self.state = When::Play;
            },
            Proto::JoinGame(j) => {
                events.push(ServerMessage::GameReady { base: j });
            },
            Proto::ChatMessage(m) => {
                events.push(ServerMessage::ChatMessage { message: m.content });
            },
            Proto::Disconnect(d) => {
                events.push(ServerMessage::Disconnected { why: d.reason });
            },
            Proto::LoginDisconnect(d) => {
                events.push(ServerMessage::DisconnectedOnLogin { why: d.reason });
            },
            Proto::PlayerPositionAndLook(p) => {
                events.push(
                    ServerMessage::PlayerPositionAndLook {
                        x: p.x,
                        y: p.y,
                        z: p.z,
                        yaw: p.yaw,
                        pitch: p.pitch,
                    },
                );
            },
            Proto::ChunkData(d) => {
                let chunk = column_of_data(d);
                events.push(ServerMessage::NewChunk { chunk });
            },
            Proto::MapChunkBulk(b) => {
                let ghost cols = b.columns@;
                let ghost start = events@;
                let mut rest = b.columns;
                let mut i: usize = 0;
                let n = rest.len();
                while i < n
                    invariant
                        n == cols.len(),
                        i <= n,
                        rest@ == cols.skip(i as int),
                        events@ == start + Seq::new(
                            i as nat,
                            |j: int| ServerMessage::NewChunk { chunk: cols[j] },
                        ),
                    decreases n - i,
                {
                    let c = rest.remove(0);
                    assert(c == cols[i as int]);
                    let ghost prev = events@;
                    events.push(ServerMessage::NewChunk { chunk: c });
                    i = i + 1;
                    assert(rest@ =~= cols.skip(i as int));
                    assert(events@ =~= start + Seq::new(
                        i as nat,
                        |j: int| ServerMessage::NewChunk { chunk: cols[j] },
                    ));
                }
            },
            _ => {},
        }
    }
}

fn zero_biomes() -> (r: Vec<u8>)
    ensures
        r@ == Seq::new(256, |i: int| 0u8),
{
    let mut r: Vec<u8> = Vec::new();
    let mut i: usize = 0;
    while i < 256
        invariant
            i <= 256,
            r@ == Seq::new(i as nat, |j: int| 0u8),
        decreases 256 - i,
    {
        r.push(0);
        i = i + 1;
        assert(r@ =~= Seq::new(i as nat, |j: int| 0u8));
    }
    r
}

/// The column that a `ChunkData` packet carries.
pub fn column_of_data(d: ChunkData) -> (r: ChunkColumn)
    ensures
        r@ == data_column(d),
{
    let biomes = if d.full_chunk {
        d.biomes
    } else {
        zero_biomes()
    };
    ChunkColumn { sections: d.sections, biomes, x: d.x, z: d.z }
}

/// A message from the player to be sent to the server; positions as `f64`
/// bits, angles as `f32` bits.
#[derive(Debug, Clone, PartialEq)]
pub enum ClientMessage {
    ChatMessage { message: String },
    Moved { x: u64, feet_y: u64, z: u64, on_ground: bool },
    Look { yaw: u32, pitch: u32, on_ground: bool },
}

/// Whether `c` is white space as `char::is_whitespace` has it (the Unicode
/// White_Space property).
pub open spec fn is_space(c: char) -> bool {
    let u = c as u32;
    (0x09 <= u <= 0x0D) || u == 0x20 || u == 0x85 || u == 0xA0 || u == 0x1680 || (0x2000 <= u
        <= 0x200A) || u == 0x2028 || u == 0x2029 || u == 0x202F || u == 0x205F || u == 0x3000
}

fn space(c: char) -> (r: bool)
    ensures
        r == is_space(c),
{
    let u = c as u32;
    (0x09 <= u && u <= 0x0D) || u == 0x20 || u == 0x85 || u == 0xA0 || u == 0x1680 || (0x2000 <= u
        && u <= 0x200A) || u == 0x2028 || u == 0x2029 || u == 0x202F || u == 0x205F || u == 0x3000
}

/// Where the text of `s` starts once leading white space is skipped.
pub open spec fn trim_start_at(s: Seq<char>, i: int) -> int
    decreases s.len() - i,
{
    if i < s.len() && is_space(s[i]) {
        trim_start_at(s, i + 1)
    } else {
        i
    }
}

/// Where the text of `s` ends once trailing white space down to `lo` is
/// dropped.
pub open spec fn trim_end_at(s: Seq<char>, lo: int, j: int) -> int
    decreases j - lo,
{
    if j > lo && is_space(s[j - 1]) {
        trim_end_at(s, lo, j - 1)
    } else {
        j
    }
}

/// `s` without leading and trailing white space.
pub open spec fn trimmed(s: Seq<char>) -> Seq<char> {
    let lo = trim_start_at(s, 0);
    s.subrange(lo, trim_end_at(s, lo, s.len() as int))
}

/// The chat line sent for `s`: trimmed, then cut to its first 100
/// characters.
pub open spec fn chat_line(s: Seq<char>) -> Seq<char> {
    let t = trimmed(s);
    if t.len() > 100 {
        t.take(100)
    } else {
        t
    }
}

proof fn lemma_trim_bounds(s: Seq<char>, i: int)
    requires
        0 <= i <= s.len(),
    ensures
        i <= trim_start_at(s, i) <= s.len(),
    decreases s.len() - i,
{
    if i < s.len() && is_space(s[i]) {
        lemma_trim_bounds(s, i + 1);
    }
}

proof fn lemma_trim_end_bounds(s: Seq<char>, lo: int, j: int)
    requires
        lo <= j,
    ensures
        lo <= trim_end_at(s, lo, j) <= j,
    decreases j - lo,
{
    if j > lo && is_space(s[j - 1]) {
        lemma_trim_end_bounds(s, lo, j - 1);
    }
}

/// The chat line for `message`: surrounding white space removed and at most
/// 100 characters kept, never cutting a character apart.
pub fn chat_text(message: &str) -> (r: String)
    ensures
        r@ == chat_line(message@),
{
    let n = message.unicode_len();
    let mut lo: usize = 0;
    while lo < n && space(message.get_char(lo))
        invariant
            lo <= n,
            n == message@.len(),
            trim_start_at(message@, lo as int) == trim_start_at(message@, 0),
        decreases n - lo,
    {
        lo = lo + 1;
    }
    let mut hi: usize = n;
    while hi > lo && space(message.get_char(hi - 1))
        invariant
            lo <= hi <= n,
            n == message@.len(),
            lo == trim_start_at(message@, 0),
            trim_end_at(message@, lo as int, hi as int) == trim_end_at(message@, lo as int, n as int),
        decreases hi - lo,
    {
        hi = hi - 1;
    }
    let end = if hi - lo > 100 {
        lo + 100
    } else {
        hi
    };
    let part = message.substring_char(lo, end);
    let r = part.to_string();
    assert(r@ =~= chat_line(message@));
    r
}

/// The packet that carries a message from the player.
pub fn client_packet(message: &ClientMessage) -> (r: Proto)
    ensures
        match *message {
            ClientMessage::ChatMessage { message } => r matches Proto::SendChatMessage(p) && p.content@
                == chat_line(message@),
            ClientMessage::Moved { x, feet_y, z, on_ground } => r == Proto::PlayerPosition(
                PlayerPosition { x, feet_y, z, on_ground },
            ),
            ClientMessage::Look { yaw, pitch, on_ground } => r == Proto::PlayerLook(
                PlayerLook { yaw, pitch, on_ground },
            ),
        },
{
    match message {
        ClientMessage::ChatMessage { message } => {
            Proto::SendChatMessage(SendChatMessage { content: chat_text(message.as_str()) })
        },
        ClientMessage::Moved { x, feet_y, z, on_ground } => {
            Proto::PlayerPosition(PlayerPosition { x: *x, feet_y: *feet_y, z: *z, on_ground: *on_ground })
        },
        ClientMessage::Look { yaw, pitch, on_ground } => {
            Proto::PlayerLook(PlayerLook { yaw: *yaw, pitch: *pitch, on_ground: *on_ground })
        },
    }
}

} // verus!
