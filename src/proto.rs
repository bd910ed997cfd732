use vstd::prelude::*;

use crate::chunk_packets::{ChunkData, ChunkDataView, MapChunkBulk, MapChunkBulkView};
use crate::coding::{decode_result, Codec, Decoder, Encoder};
use crate::error::CodecError;
use crate::packet::{Direction, Packet, When};
use crate::packets::{
    PingPong, StatusRequest, StatusResponse, Handshake, LoginStart, LoginSuccess, ServerKeepAlive, SetCompression, KeepAlive, JoinGame, ChatMessage, EntityRelativeMove, Entity, Disconnect, LoginDisconnect, SendChatMessage, PlayerLook, PlayerPositionAndLook, PlayerPosition,
};

verus! {

/// Every packet this client knows, as one tagged value.
#[derive(Debug, Clone, PartialEq)]
pub enum Proto {
    PingPong(PingPong),
    StatusRequest(StatusRequest),
    StatusResponse(StatusResponse),
    Handshake(Handshake),
    LoginStart(LoginStart),
    LoginSuccess(LoginSuccess),
    ServerKeepAlive(ServerKeepAlive),
    SetCompression(SetCompression),
    KeepAlive(KeepAlive),
    JoinGame(JoinGame),
    ChatMessage(ChatMessage),
    EntityRelativeMove(EntityRelativeMove),
    Entity(Entity),
    Disconnect(Disconnect),
    LoginDisconnect(LoginDisconnect),
    SendChatMessage(SendChatMessage),
    PlayerLook(PlayerLook),
    ChunkData(ChunkData),
    MapChunkBulk(MapChunkBulk),
    PlayerPositionAndLook(PlayerPositionAndLook),
    PlayerPosition(PlayerPosition),
}

/// What a packet holds, as the contracts see it.
pub enum ProtoView {
    PingPong(i64),
    StatusRequest(()),
    StatusResponse(Seq<char>),
    Handshake((i32, Seq<char>, u16, i32)),
    LoginStart(Seq<char>),
    LoginSuccess((Seq<char>, Seq<char>)),
    ServerKeepAlive(i32),
    SetCompression(i32),
    KeepAlive(i32),
    JoinGame((i32, u8, i8, u8, u8, Seq<char>, bool)),
    ChatMessage((Seq<char>, u8)),
    EntityRelativeMove((i32, i8, i8, i8, bool)),
    Entity(i32),
    Disconnect(Seq<char>),
    LoginDisconnect(Seq<char>),
    SendChatMessage(Seq<char>),
    PlayerLook((u32, u32, bool)),
    ChunkData(ChunkDataView),
    MapChunkBulk(MapChunkBulkView),
    PlayerPositionAndLook((u64, u64, u64, u32, u32, u8)),
    PlayerPosition((u64, u64, u64, bool)),
}

impl View for Proto {
    type V = ProtoView;

    open spec fn view(&self) -> ProtoView {
        match self {
            Proto::PingPong(p) => ProtoView::PingPong(p@),
            Proto::StatusRequest(p) => ProtoView::StatusRequest(p@),
            Proto::StatusResponse(p) => ProtoView::StatusResponse(p@),
            Proto::Handshake(p) => ProtoView::Handshake(p@),
            Proto::LoginStart(p) => ProtoView::LoginStart(p@),
            Proto::LoginSuccess(p) => ProtoView::LoginSuccess(p@),
            Proto::ServerKeepAlive(p) => ProtoView::ServerKeepAlive(p@),
            Proto::SetCompression(p) => ProtoView::SetCompression(p@),
            Proto::KeepAlive(p) => ProtoView::KeepAlive(p@),
            Proto::JoinGame(p) => ProtoView::JoinGame(p@),
            Proto::ChatMessage(p) => ProtoView::ChatMessage(p@),
            Proto::EntityRelativeMove(p) => ProtoView::EntityRelativeMove(p@),
            Proto::Entity(p) => ProtoView::Entity(p@),
            Proto::Disconnect(p) => ProtoView::Disconnect(p@),
            Proto::LoginDisconnect(p) => ProtoView::LoginDisconnect(p@),
            Proto::SendChatMessage(p) => ProtoView::SendChatMessage(p@),
            Proto::PlayerLook(p) => ProtoView::PlayerLook(p@),
            Proto::ChunkData(p) => ProtoView::ChunkData(p@),
            Proto::MapChunkBulk(p) => ProtoView::MapChunkBulk(p@),
            Proto::PlayerPositionAndLook(p) => ProtoView::PlayerPositionAndLook(p@),
            Proto::PlayerPosition(p) => ProtoView::PlayerPosition(p@),
        }
    }
}

/// Id, phase and direction under which a packet travels.
pub open spec fn view_key(v: ProtoView) -> (u32, When, Direction) {
    match v {
        ProtoView::PingPong(_) => PingPong::key(),
        ProtoView::StatusRequest(_) => StatusRequest::key(),
        ProtoView::StatusResponse(_) => StatusResponse::key(),
        ProtoView::Handshake(_) => Handshake::key(),
        ProtoView::LoginStart(_) => LoginStart::key(),
        ProtoView::LoginSuccess(_) => LoginSuccess::key(),
        ProtoView::ServerKeepAlive(_) => ServerKeepAlive::key(),
        ProtoView::SetCompression(_) => SetCompression::key(),
        ProtoView::KeepAlive(_) => KeepAlive::key(),
        ProtoView::JoinGame(_) => JoinGame::key(),
        ProtoView::ChatMessage(_) => ChatMessage::key(),
        ProtoView::EntityRelativeMove(_) => EntityRelativeMove::key(),
        ProtoView::Entity(_) => Entity::key(),
        ProtoView::Disconnect(_) => Disconnect::key(),
        ProtoView::LoginDisconnect(_) => LoginDisconnect::key(),
        ProtoView::SendChatMessage(_) => SendChatMessage::key(),
        ProtoView::PlayerLook(_) => PlayerLook::key(),
        ProtoView::ChunkData(_) => ChunkData::key(),
        ProtoView::MapChunkBulk(_) => MapChunkBulk::key(),
        ProtoView::PlayerPositionAndLook(_) => PlayerPositionAndLook::key(),
        ProtoView::PlayerPosition(_) => PlayerPosition::key(),
    }
}

/// The body bytes of a packet, `None` for the packets only a server sends.
pub open spec fn proto_wire(v: ProtoView) -> Option<Seq<u8>> {
    match v {
        ProtoView::PingPong(p) => Some(<PingPong as Encoder>::wire(p)),
        ProtoView::StatusRequest(p) => Some(<StatusRequest as Encoder>::wire(p)),
        ProtoView::StatusResponse(p) => Some(<StatusResponse as Encoder>::wire(p)),
        ProtoView::Handshake(p) => Some(<Handshake as Encoder>::wire(p)),
        ProtoView::LoginStart(p) => Some(<LoginStart as Encoder>::wire(p)),
        ProtoView::LoginSuccess(p) => Some(<LoginSuccess as Encoder>::wire(p)),
        ProtoView::ServerKeepAlive(p) => Some(<ServerKeepAlive as Encoder>::wire(p)),
        ProtoView::SetCompression(p) => Some(<SetCompression as Encoder>::wire(p)),
        ProtoView::KeepAlive(p) => Some(<KeepAlive as Encoder>::wire(p)),
        ProtoView::JoinGame(p) => Some(<JoinGame as Encoder>::wire(p)),
        ProtoView::ChatMessage(p) => Some(<ChatMessage as Encoder>::wire(p)),
        ProtoView::EntityRelativeMove(p) => Some(<EntityRelativeMove as Encoder>::wire(p)),
        ProtoView::Entity(p) => Some(<Entity as Encoder>::wire(p)),
        ProtoView::Disconnect(p) => Some(<Disconnect as Encoder>::wire(p)),
        ProtoView::LoginDisconnect(p) => Some(<LoginDisconnect as Encoder>::wire(p)),
        ProtoView::SendChatMessage(p) => Some(<SendChatMessage as Encoder>::wire(p)),
        ProtoView::PlayerLook(p) => Some(<PlayerLook as Encoder>::wire(p)),
        ProtoView::ChunkData(_) => None,
        ProtoView::MapChunkBulk(_) => None,
        ProtoView::PlayerPositionAndLook(p) => Some(<PlayerPositionAndLook as Encoder>::wire(p)),
        ProtoView::PlayerPosition(p) => Some(<PlayerPosition as Encoder>::wire(p)),
    }
}

/// The packets whose encoding decodes back to them.
pub open spec fn proto_fits(v: ProtoView) -> bool {
    match v {
        ProtoView::PingPong(p) => <PingPong as Codec>::fits(p),
        ProtoView::StatusRequest(p) => <StatusRequest as Codec>::fits(p),
        ProtoView::StatusResponse(p) => <StatusResponse as Codec>::fits(p),
        ProtoView::Handshake(p) => <Handshake as Codec>::fits(p),
        ProtoView::LoginStart(p) => <LoginStart as Codec>::fits(p),
        ProtoView::LoginSuccess(p) => <LoginSuccess as Codec>::fits(p),
        ProtoView::ServerKeepAlive(p) => <ServerKeepAlive as Codec>::fits(p),
        ProtoView::SetCompression(p) => <SetCompression as Codec>::fits(p),
        ProtoView::KeepAlive(p) => <KeepAlive as Codec>::fits(p),
        ProtoView::JoinGame(p) => <JoinGame as Codec>::fits(p),
        ProtoView::ChatMessage(p) => <ChatMessage as Codec>::fits(p),
        ProtoView::EntityRelativeMove(p) => <EntityRelativeMove as Codec>::fits(p),
        ProtoView::Entity(p) => <Entity as Codec>::fits(p),
        ProtoView::Disconnect(p) => <Disconnect as Codec>::fits(p),
        ProtoView::LoginDisconnect(p) => <LoginDisconnect as Codec>::fits(p),
        ProtoView::SendChatMessage(p) => <SendChatMessage as Codec>::fits(p),
        ProtoView::PlayerLook(p) => <PlayerLook as Codec>::fits(p),
        ProtoView::ChunkData(_) => false,
        ProtoView::MapChunkBulk(_) => false,
        ProtoView::PlayerPositionAndLook(p) => <PlayerPositionAndLook as Codec>::fits(p),
        ProtoView::PlayerPosition(p) => <PlayerPosition as Codec>::fits(p),
    }
}

/// Decoding the body of the packet registered under `(id, when, direction)`.
pub open spec fn parse_proto(id: u32, when: When, direction: Direction, s: Seq<u8>) -> Result<
    (ProtoView, nat),
    CodecError,
> {
    if id == 0x01 && when == When::Status {
        match <PingPong as Decoder>::parse(s) {
            Ok((p, k)) => Ok((ProtoView::PingPong(p), k)),
            Err(e) => Err(e),
        }
    } else if id == 0x00 && when == When::Status && direction == Direction::ToServer {
        match <StatusRequest as Decoder>::parse(s) {
            Ok((p, k)) => Ok((ProtoView::StatusRequest(p), k)),
            Err(e) => Err(e),
        }
    } else if id == 0x00 && when == When::Status && direction == Direction::ToClient {
        match <StatusResponse as Decoder>::parse(s) {
            Ok((p, k)) => Ok((ProtoView::StatusResponse(p), k)),
            Err(e) => Err(e),
        }
    } else if id == 0x00 && when == When::Handshake {
        match <Handshake as Decoder>::parse(s) {
            Ok((p, k)) => Ok((ProtoView::Handshake(p), k)),
            Err(e) => Err(e),
        }
    } else if id == 0x00 && when == When::Login && direction == Direction::ToServer {
        match <LoginStart as Decoder>::parse(s) {
            Ok((p, k)) => Ok((ProtoView::LoginStart(p), k)),
            Err(e) => Err(e),
        }
    } else if id == 0x02 && when == When::Login && direction == Direction::ToClient {
        match <LoginSuccess as Decoder>::parse(s) {
            Ok((p, k)) => Ok((ProtoView::LoginSuccess(p), k)),
            Err(e) => Err(e),
        }
    } else if id == 0x00 && when == When::Play && direction == Direction::ToServer {
        match <ServerKeepAlive as Decoder>::parse(s) {
            Ok((p, k)) => Ok((ProtoView::ServerKeepAlive(p), k)),
            Err(e) => Err(e),
        }
    } else if id == 0x03 && when == When::Login && direction == Direction::ToClient {
        match <SetCompression as Decoder>::parse(s) {
            Ok((p, k)) => Ok((ProtoView::SetCompression(p), k)),
            Err(e) => Err(e),
        }
    } else if id == 0x00 && when == When::Play && direction == Direction::ToClient {
        match <KeepAlive as Decoder>::parse(s) {
            Ok((p, k)) => Ok((ProtoView::KeepAlive(p), k)),
            Err(e) => Err(e),
        }
    } else if id == 0x01 && when == When::Play && direction == Direction::ToClient {
        match <JoinGame as Decoder>::parse(s) {
            Ok((p, k)) => Ok((ProtoView::JoinGame(p), k)),
            Err(e) => Err(e),
        }
    } else if id == 0x02 && when == When::Play && direction == Direction::ToClient {
        match <ChatMessage as Decoder>::parse(s) {
            Ok((p, k)) => Ok((ProtoView::ChatMessage(p), k)),
            Err(e) => Err(e),
        }
    } else if id == 0x15 && when == When::Play && direction == Direction::ToClient {
        match <EntityRelativeMove as Decoder>::parse(s) {
            Ok((p, k)) => Ok((ProtoView::EntityRelativeMove(p), k)),
            Err(e) => Err(e),
        }
    } else if id == 0x14 && when == When::Play && direction == Direction::ToClient {
        match <Entity as Decoder>::parse(s) {
            Ok((p, k)) => Ok((ProtoView::Entity(p), k)),
            Err(e) => Err(e),
        }
    } else if id == 0x40 && when == When::Play && direction == Direction::ToClient {
        match <Disconnect as Decoder>::parse(s) {
            Ok((p, k)) => Ok((ProtoView::Disconnect(p), k)),
            Err(e) => Err(e),
        }
    } else if id == 0x00 && when == When::Login && direction == Direction::ToClient {
        match <LoginDisconnect as Decoder>::parse(s) {
            Ok((p, k)) => Ok((ProtoView::LoginDisconnect(p), k)),
            Err(e) => Err(e),
        }
    } else if id == 0x01 && when == When::Play && direction == Direction::ToServer {
        match <SendChatMessage as Decoder>::parse(s) {
            Ok((p, k)) => Ok((ProtoView::SendChatMessage(p), k)),
            Err(e) => Err(e),
        }
    } else if id == 0x05 && when == When::Play && direction == Direction::ToServer {
        match <PlayerLook as Decoder>::parse(s) {
            Ok((p, k)) => Ok((ProtoView::PlayerLook(p), k)),
            Err(e) => Err(e),
        }
    } else if id == 0x21 && when == When::Play && direction == Direction::ToClient {
        match <ChunkData as Decoder>::parse(s) {
            Ok((p, k)) => Ok((ProtoView::ChunkData(p), k)),
            Err(e) => Err(e),
        }
    } else if id == 0x26 && when == When::Play && direction == Direction::ToClient {
        match <MapChunkBulk as Decoder>::parse(s) {
            Ok((p, k)) => Ok((ProtoView::MapChunkBulk(p), k)),
            Err(e) => Err(e),
        }
    } else if id == 0x08 && when == When::Play && direction == Direction::ToClient {
        match <PlayerPositionAndLook as Decoder>::parse(s) {
            Ok((p, k)) => Ok((ProtoView::PlayerPositionAndLook(p), k)),
            Err(e) => Err(e),
        }
    } else if id == 0x04 && when == When::Play && direction == Direction::ToServer {
        match <PlayerPosition as Decoder>::parse(s) {
            Ok((p, k)) => Ok((ProtoView::PlayerPosition(p), k)),
            Err(e) => Err(e),
        }
    } else {
        Err(CodecError::IllegalPacket(id, when))
    }
}

impl Proto {
    /// Id, phase and direction of this packet.
    pub open spec fn key(&self) -> (u32, When, Direction) {
        view_key(self@)
    }

    pub fn id(&self) -> (r: u32)
        ensures
            r == self.key().0,
    {
        match self {
            Proto::PingPong(p) => p.id(),
            Proto::StatusRequest(p) => p.id(),
            Proto::StatusResponse(p) => p.id(),
            Proto::Handshake(p) => p.id(),
            Proto::LoginStart(p) => p.id(),
            Proto::LoginSuccess(p) => p.id(),
            Proto::ServerKeepAlive(p) => p.id(),
            Proto::SetCompression(p) => p.id(),
            Proto::KeepAlive(p) => p.id(),
            Proto::JoinGame(p) => p.id(),
            Proto::ChatMessage(p) => p.id(),
            Proto::EntityRelativeMove(p) => p.id(),
            Proto::Entity(p) => p.id(),
            Proto::Disconnect(p) => p.id(),
            Proto::LoginDisconnect(p) => p.id(),
            Proto::SendChatMessage(p) => p.id(),
            Proto::PlayerLook(p) => p.id(),
            Proto::ChunkData(p) => p.id(),
            Proto::MapChunkBulk(p) => p.id(),
            Proto::PlayerPositionAndLook(p) => p.id(),
            Proto::PlayerPosition(p) => p.id(),
        }
    }

    pub fn when(&self) -> (r: When)
        ensures
            r == self.key().1,
    {
        match self {
            Proto::PingPong(p) => p.when(),
            Proto::StatusRequest(p) => p.when(),
            Proto::StatusResponse(p) => p.when(),
            Proto::Handshake(p) => p.when(),
            Proto::LoginStart(p) => p.when(),
            Proto::LoginSuccess(p) => p.when(),
            Proto::ServerKeepAlive(p) => p.when(),
            Proto::SetCompression(p) => p.when(),
            Proto::KeepAlive(p) => p.when(),
            Proto::JoinGame(p) => p.when(),
            Proto::ChatMessage(p) => p.when(),
            Proto::EntityRelativeMove(p) => p.when(),
            Proto::Entity(p) => p.when(),
            Proto::Disconnect(p) => p.when(),
            Proto::LoginDisconnect(p) => p.when(),
            Proto::SendChatMessage(p) => p.when(),
            Proto::PlayerLook(p) => p.when(),
            Proto::ChunkData(p) => p.when(),
            Proto::MapChunkBulk(p) => p.when(),
            Proto::PlayerPositionAndLook(p) => p.when(),
            Proto::PlayerPosition(p) => p.when(),
        }
    }

    /// Decodes the body of the packet registered under `(packet_id, when,
    /// direction)` from `buf` at `*pos`.
    pub fn decode(packet_id: u32, when: When, direction: Direction, buf: &[u8], pos: &mut usize) -> (r:
        Result<Proto, CodecError>)
        requires
            *old(pos) <= buf@.len(),
        ensures
            decode_result::<Proto>(
                parse_proto(packet_id, when, direction, buf@.subrange(*old(pos) as int, buf@.len() as int)),
                r,
                *old(pos),
                *final(pos),
            ),
            r is Ok ==> *final(pos) <= buf@.len(),
    {
        if packet_id == 0x01 && when == When::Status {
            match PingPong::decode(buf, pos) {
                Ok(p) => Ok(Proto::PingPong(p)),
                Err(e) => Err(e),
            }
        } else if packet_id == 0x00 && when == When::Status && direction == Direction::ToServer {
            match StatusRequest::decode(buf, pos) {
                Ok(p) => Ok(Proto::StatusRequest(p)),
                Err(e) => Err(e),
            }
        } else if packet_id == 0x00 && when == When::Status && direction == Direction::ToClient {
            match StatusResponse::decode(buf, pos) {
                Ok(p) => Ok(Proto::StatusResponse(p)),
                Err(e) => Err(e),
            }
        } else if packet_id == 0x00 && when == When::Handshake {
            match Handshake::decode(buf, pos) {
                Ok(p) => Ok(Proto::Handshake(p)),
                Err(e) => Err(e),
            }
        } else if packet_id == 0x00 && when == When::Login && direction == Direction::ToServer {
            match LoginStart::decode(buf, pos) {
                Ok(p) => Ok(Proto::LoginStart(p)),
                Err(e) => Err(e),
            }
        } else if packet_id == 0x02 && when == When::Login && direction == Direction::ToClient {
            match LoginSuccess::decode(buf, pos) {
                Ok(p) => Ok(Proto::LoginSuccess(p)),
                Err(e) => Err(e),
            }
        } else if packet_id == 0x00 && when == When::Play && direction == Direction::ToServer {
            match ServerKeepAlive::decode(buf, pos) {
                Ok(p) => Ok(Proto::ServerKeepAlive(p)),
                Err(e) => Err(e),
            }
        } else if packet_id == 0x03 && when == When::Login && direction == Direction::ToClient {
            match SetCompression::decode(buf, pos) {
                Ok(p) => Ok(Proto::SetCompression(p)),
                Err(e) => Err(e),
            }
        } else if packet_id == 0x00 && when == When::Play && direction == Direction::ToClient {
            match KeepAlive::decode(buf, pos) {
                Ok(p) => Ok(Proto::KeepAlive(p)),
                Err(e) => Err(e),
            }
        } else if packet_id == 0x01 && when == When::Play && direction == Direction::ToClient {
            match JoinGame::decode(buf, pos) {
                Ok(p) => Ok(Proto::JoinGame(p)),
                Err(e) => Err(e),
            }
        } else if packet_id == 0x02 && when == When::Play && direction == Direction::ToClient {
            match ChatMessage::decode(buf, pos) {
                Ok(p) => Ok(Proto::ChatMessage(p)),
                Err(e) => Err(e),
            }
        } else if packet_id == 0x15 && when == When::Play && direction == Direction::ToClient {
            match EntityRelativeMove::decode(buf, pos) {
                Ok(p) => Ok(Proto::EntityRelativeMove(p)),
                Err(e) => Err(e),
            }
        } else if packet_id == 0x14 && when == When::Play && direction == Direction::ToClient {
            match Entity::decode(buf, pos) {
                Ok(p) => Ok(Proto::Entity(p)),
                Err(e) => Err(e),
            }
        } else if packet_id == 0x40 && when == When::Play && direction == Direction::ToClient {
            match Disconnect::decode(buf, pos) {
                Ok(p) => Ok(Proto::Disconnect(p)),
                Err(e) => Err(e),
            }
        } else if packet_id == 0x00 && when == When::Login && direction == Direction::ToClient {
            match LoginDisconnect::decode(buf, pos) {
                Ok(p) => Ok(Proto::LoginDisconnect(p)),
                Err(e) => Err(e),
            }
        } else if packet_id == 0x01 && when == When::Play && direction == Direction::ToServer {
            match SendChatMessage::decode(buf, pos) {
                Ok(p) => Ok(Proto::SendChatMessage(p)),
                Err(e) => Err(e),
            }
        } else if packet_id == 0x05 && when == When::Play && direction == Direction::ToServer {
            match PlayerLook::decode(buf, pos) {
                Ok(p) => Ok(Proto::PlayerLook(p)),
                Err(e) => Err(e),
            }
        } else if packet_id == 0x21 && when == When::Play && direction == Direction::ToClient {
            match ChunkData::decode(buf, pos) {
                Ok(p) => Ok(Proto::ChunkData(p)),
                Err(e) => Err(e),
            }
        } else if packet_id == 0x26 && when == When::Play && direction == Direction::ToClient {
            match MapChunkBulk::decode(buf, pos) {
                Ok(p) => Ok(Proto::MapChunkBulk(p)),
                Err(e) => Err(e),
            }
        } else if packet_id == 0x08 && when == When::Play && direction == Direction::ToClient {
            match PlayerPositionAndLook::decode(buf, pos) {
                Ok(p) => Ok(Proto::PlayerPositionAndLook(p)),
                Err(e) => Err(e),
            }
        } else if packet_id == 0x04 && when == When::Play && direction == Direction::ToServer {
            match PlayerPosition::decode(buf, pos) {
                Ok(p) => Ok(Proto::PlayerPosition(p)),
                Err(e) => Err(e),
            }
        } else {
            Err(CodecError::IllegalPacket(packet_id, when))
        }
    }

    /// Appends the body of the packet; the packets only a server sends are
    /// refused and nothing is written.
    pub fn encode(&self, out: &mut Vec<u8>) -> (r: Result<usize, CodecError>)
        ensures
            match proto_wire(self@) {
                Some(w) => r is Ok && r->Ok_0 == w.len() && final(out)@ == old(out)@ + w,
                None => r is Err && r->Err_0 == CodecError::Unsupported && final(out)@ == old(out)@,
            },
    {
        match self {
            Proto::PingPong(p) => Ok(p.encode(out)),
            Proto::StatusRequest(p) => Ok(p.encode(out)),
            Proto::StatusResponse(p) => Ok(p.encode(out)),
            Proto::Handshake(p) => Ok(p.encode(out)),
            Proto::LoginStart(p) => Ok(p.encode(out)),
            Proto::LoginSuccess(p) => Ok(p.encode(out)),
            Proto::ServerKeepAlive(p) => Ok(p.encode(out)),
            Proto::SetCompression(p) => Ok(p.encode(out)),
            Proto::KeepAlive(p) => Ok(p.encode(out)),
            Proto::JoinGame(p) => Ok(p.encode(out)),
            Proto::ChatMessage(p) => Ok(p.encode(out)),
            Proto::EntityRelativeMove(p) => Ok(p.encode(out)),
            Proto::Entity(p) => Ok(p.encode(out)),
            Proto::Disconnect(p) => Ok(p.encode(out)),
            Proto::LoginDisconnect(p) => Ok(p.encode(out)),
            Proto::SendChatMessage(p) => Ok(p.encode(out)),
            Proto::PlayerLook(p) => Ok(p.encode(out)),
            Proto::ChunkData(_) => Err(CodecError::Unsupported),
            Proto::MapChunkBulk(_) => Err(CodecError::Unsupported),
            Proto::PlayerPositionAndLook(p) => Ok(p.encode(out)),
            Proto::PlayerPosition(p) => Ok(p.encode(out)),
        }
    }
}

/// Every packet that this client can encode decodes back to itself under its
/// own id, phase and direction, whatever follows it.
pub proof fn lemma_proto_round_trip(v: ProtoView, rest: Seq<u8>)
    requires
        proto_fits(v),
    ensures
        proto_wire(v) is Some,
        parse_proto(view_key(v).0, view_key(v).1, view_key(v).2, proto_wire(v)->Some_0 + rest)
            == Ok::<(ProtoView, nat), CodecError>((v, proto_wire(v)->Some_0.len())),
{
    match v {
        ProtoView::PingPong(p) => {
            PingPong::lemma_round_trip(p, rest);
        },
        ProtoView::StatusRequest(p) => {
            StatusRequest::lemma_round_trip(p, rest);
        },
        ProtoView::StatusResponse(p) => {
            StatusResponse::lemma_round_trip(p, rest);
        },
        ProtoView::Handshake(p) => {
            Handshake::lemma_round_trip(p, rest);
        },
        ProtoView::LoginStart(p) => {
            LoginStart::lemma_round_trip(p, rest);
        },
        ProtoView::LoginSuccess(p) => {
            LoginSuccess::lemma_round_trip(p, rest);
        },
        ProtoView::ServerKeepAlive(p) => {
            ServerKeepAlive::lemma_round_trip(p, rest);
        },
        ProtoView::SetCompression(p) => {
            SetCompression::lemma_round_trip(p, rest);
        },
        ProtoView::KeepAlive(p) => {
            KeepAlive::lemma_round_trip(p, rest);
        },
        ProtoView::JoinGame(p) => {
            JoinGame::lemma_round_trip(p, rest);
        },
        ProtoView::ChatMessage(p) => {
            ChatMessage::lemma_round_trip(p, rest);
        },
        ProtoView::EntityRelativeMove(p) => {
            EntityRelativeMove::lemma_round_trip(p, rest);
        },
        ProtoView::Entity(p) => {
            Entity::lemma_round_trip(p, rest);
        },
        ProtoView::Disconnect(p) => {
            Disconnect::lemma_round_trip(p, rest);
        },
        ProtoView::LoginDisconnect(p) => {
            LoginDisconnect::lemma_round_trip(p, rest);
        },
        ProtoView::SendChatMessage(p) => {
            SendChatMessage::lemma_round_trip(p, rest);
        },
        ProtoView::PlayerLook(p) => {
            PlayerLook::lemma_round_trip(p, rest);
        },
        ProtoView::ChunkData(_) => {},
        ProtoView::MapChunkBulk(_) => {},
        ProtoView::PlayerPositionAndLook(p) => {
            PlayerPositionAndLook::lemma_round_trip(p, rest);
        },
        ProtoView::PlayerPosition(p) => {
            PlayerPosition::lemma_round_trip(p, rest);
        },
    }
}

} // verus!
