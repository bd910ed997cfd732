use vstd::prelude::*;

use crate::coding::{decode_field, lemma_field_round_trip, parse_field, Codec, Decoder, Encoder};
use crate::error::CodecError;
use crate::packet::{Direction, Packet, When};
use crate::varint::VarInt;

verus! {

/// Ping request and its echo, carrying a client timestamp.
#[derive(Debug, Clone, Copy, PartialEq, Eq, Structural)]
pub struct PingPong {
    pub payload: i64,
}

impl View for PingPong {
    type V = i64;

    open spec fn view(&self) -> i64 {
        self.payload@
    }
}

impl Encoder for PingPong {
    open spec fn wire(v: i64) -> Seq<u8> {
        <i64 as Encoder>::wire(v)
    }

    fn encode(&self, out: &mut Vec<u8>) -> (n: usize) {
        let ghost start = out@;
        let before = out.len();
        self.payload.encode(out);
        assert(out@ =~= start + Self::wire(self@));
        out.len() - before
    }
}

impl Decoder for PingPong {
    open spec fn parse(s: Seq<u8>) -> Result<(i64, nat), CodecError> {
        match parse_field::<i64>(s, "payload") {
            Err(e) => Err(e),
            Ok((a0, n0)) => Ok((a0, (n0) as nat)),
        }
    }

    fn decode(buf: &[u8], pos: &mut usize) -> (r: Result<PingPong, CodecError>) {
        let ghost s = buf@.subrange(*old(pos) as int, buf@.len() as int);
        let start = *pos;
        let payload = match decode_field::<i64>(buf, pos, "payload") {
            Ok(v) => v,
            Err(e) => return Err(e),
        };
        Ok(PingPong { payload })
    }
}

impl Codec for PingPong {
    open spec fn fits(v: i64) -> bool {
        <i64 as Codec>::fits(v)
    }

    proof fn lemma_round_trip(v: i64, rest: Seq<u8>) {
        let s = Self::wire(v) + rest;
        let w0 = <i64 as Encoder>::wire(v);
        assert(s =~= w0 + (rest));
        lemma_field_round_trip::<i64>(v, rest, "payload");
    }
}

impl Packet for PingPong {
    open spec fn key() -> (u32, When, Direction) {
        (0x01, When::Status, Direction::ToServer)
    }

    fn id(&self) -> (r: u32) {
        0x01
    }

    fn when(&self) -> (r: When) {
        When::Status
    }

    fn direction(&self) -> (r: Direction) {
        Direction::ToServer
    }
}

/// Asks the server for its status.
#[derive(Debug, Clone, Copy, PartialEq, Eq, Structural)]
pub struct StatusRequest {}

impl View for StatusRequest {
    type V = ();

    open spec fn view(&self) -> () {
        ()
    }
}

impl Encoder for StatusRequest {
    open spec fn wire(v: ()) -> Seq<u8> {
        seq![]
    }

    fn encode(&self, out: &mut Vec<u8>) -> (n: usize) {
        let ghost start = out@;
        let before = out.len();

        assert(out@ =~= start + Self::wire(self@));
        out.len() - before
    }
}

impl Decoder for StatusRequest {
    open spec fn parse(s: Seq<u8>) -> Result<((), nat), CodecError> {
        Ok(((), 0))
    }

    fn decode(buf: &[u8], pos: &mut usize) -> (r: Result<StatusRequest, CodecError>) {
        Ok(StatusRequest {})
    }
}

impl Codec for StatusRequest {
    open spec fn fits(v: ()) -> bool {
        true
    }

    proof fn lemma_round_trip(v: (), rest: Seq<u8>) {

    }
}

impl Packet for StatusRequest {
    open spec fn key() -> (u32, When, Direction) {
        (0x00, When::Status, Direction::ToServer)
    }

    fn id(&self) -> (r: u32) {
        0x00
    }

    fn when(&self) -> (r: When) {
        When::Status
    }

    fn direction(&self) -> (r: Direction) {
        Direction::ToServer
    }
}

/// The server status as a JSON document.
#[derive(Debug, Clone, PartialEq)]
pub struct StatusResponse {
    pub json_response: String,
}

impl View for StatusResponse {
    type V = Seq<char>;

    open spec fn view(&self) -> Seq<char> {
        self.json_response@
    }
}

impl Encoder for StatusResponse {
    open spec fn wire(v: Seq<char>) -> Seq<u8> {
        <String as Encoder>::wire(v)
    }

    fn encode(&self, out: &mut Vec<u8>) -> (n: usize) {
        let ghost start = out@;
        let before = out.len();
        self.json_response.encode(out);
        assert(out@ =~= start + Self::wire(self@));
        out.len() - before
    }
}

impl Decoder for StatusResponse {
    open spec fn parse(s: Seq<u8>) -> Result<(Seq<char>, nat), CodecError> {
        match parse_field::<String>(s, "json_response") {
            Err(e) => Err(e),
            Ok((a0, n0)) => Ok((a0, (n0) as nat)),
        }
    }

    fn decode(buf: &[u8], pos: &mut usize) -> (r: Result<StatusResponse, CodecError>) {
        let ghost s = buf@.subrange(*old(pos) as int, buf@.len() as int);
        let start = *pos;
        let json_response = match decode_field::<String>(buf, pos, "json_response") {
            Ok(v) => v,
            Err(e) => return Err(e),
        };
        Ok(StatusResponse { json_response })
    }
}

impl Codec for StatusResponse {
    open spec fn fits(v: Seq<char>) -> bool {
        <String as Codec>::fits(v)
    }

    proof fn lemma_round_trip(v: Seq<char>, rest: Seq<u8>) {
        let s = Self::wire(v) + rest;
        let w0 = <String as Encoder>::wire(v);
        assert(s =~= w0 + (rest));
        lemma_field_round_trip::<String>(v, rest, "json_response");
    }
}

impl Packet for StatusResponse {
    open spec fn key() -> (u32, When, Direction) {
        (0x00, When::Status, Direction::ToClient)
    }

    fn id(&self) -> (r: u32) {
        0x00
    }

    fn when(&self) -> (r: When) {
        When::Status
    }

    fn direction(&self) -> (r: Direction) {
        Direction::ToClient
    }
}

/// Opens a connection and selects the next phase.
#[derive(Debug, Clone, PartialEq)]
pub struct Handshake {
    pub protocol_version: VarInt,
    pub server_address: String,
    pub server_port: u16,
    pub next_state: VarInt,
}

impl View for Handshake {
    type V = (i32, Seq<char>, u16, i32);

    open spec fn view(&self) -> (i32, Seq<char>, u16, i32) {
        (self.protocol_version@, self.server_address@, self.server_port@, self.next_state@)
    }
}

impl Encoder for Handshake {
    open spec fn wire(v: (i32, Seq<char>, u16, i32)) -> Seq<u8> {
        <VarInt as Encoder>::wire(v.0) + <String as Encoder>::wire(v.1) + <u16 as Encoder>::wire(v.2) + <VarInt as Encoder>::wire(v.3)
    }

    fn encode(&self, out: &mut Vec<u8>) -> (n: usize) {
        let ghost start = out@;
        let before = out.len();
        self.protocol_version.encode(out);
        self.server_address.encode(out);
        self.server_port.encode(out);
        self.next_state.encode(out);
        assert(out@ =~= start + Self::wire(self@));
        out.len() - before
    }
}

impl Decoder for Handshake {
    open spec fn parse(s: Seq<u8>) -> Result<((i32, Seq<char>, u16, i32), nat), CodecError> {
        match parse_field::<VarInt>(s, "protocol_version") {
            Err(e) => Err(e),
            Ok((a0, n0)) => match parse_field::<String>(s.skip((n0) as int), "server_address") {
                Err(e) => Err(e),
                Ok((a1, n1)) => match parse_field::<u16>(s.skip((n0 + n1) as int), "server_port") {
                    Err(e) => Err(e),
                    Ok((a2, n2)) => match parse_field::<VarInt>(s.skip((n0 + n1 + n2) as int), "next_state") {
                        Err(e) => Err(e),
                        Ok((a3, n3)) => Ok(((a0, a1, a2, a3), (n0 + n1 + n2 + n3) as nat)),
                    },
                },
            },
        }
    }

    fn decode(buf: &[u8], pos: &mut usize) -> (r: Result<Handshake, CodecError>) {
        let ghost s = buf@.subrange(*old(pos) as int, buf@.len() as int);
        let start = *pos;
        let protocol_version = match decode_field::<VarInt>(buf, pos, "protocol_version") {
            Ok(v) => v,
            Err(e) => return Err(e),
        };
        assert(buf@.subrange(*pos as int, buf@.len() as int) =~= s.skip(*pos - start));
        let server_address = match decode_field::<String>(buf, pos, "server_address") {
            Ok(v) => v,
            Err(e) => return Err(e),
        };
        assert(buf@.subrange(*pos as int, buf@.len() as int) =~= s.skip(*pos - start));
        let server_port = match decode_field::<u16>(buf, pos, "server_port") {
            Ok(v) => v,
            Err(e) => return Err(e),
        };
        assert(buf@.subrange(*pos as int, buf@.len() as int) =~= s.skip(*pos - start));
        let next_state = match decode_field::<VarInt>(buf, pos, "next_state") {
            Ok(v) => v,
            Err(e) => return Err(e),
        };
        Ok(Handshake { protocol_version, server_address, server_port, next_state })
    }
}

impl Codec for Handshake {
    open spec fn fits(v: (i32, Seq<char>, u16, i32)) -> bool {
        <VarInt as Codec>::fits(v.0) && <String as Codec>::fits(v.1) && <u16 as Codec>::fits(v.2) && <VarInt as Codec>::fits(v.3)
    }

    proof fn lemma_round_trip(v: (i32, Seq<char>, u16, i32), rest: Seq<u8>) {
        let s = Self::wire(v) + rest;
        let w0 = <VarInt as Encoder>::wire(v.0);
        let w1 = <String as Encoder>::wire(v.1);
        let w2 = <u16 as Encoder>::wire(v.2);
        let w3 = <VarInt as Encoder>::wire(v.3);
        assert(s =~= w0 + (w1 + w2 + w3 + rest));
        lemma_field_round_trip::<VarInt>(v.0, w1 + w2 + w3 + rest, "protocol_version");
        assert(s.skip((w0.len()) as int) =~= w1 + (w2 + w3 + rest));
        lemma_field_round_trip::<String>(v.1, w2 + w3 + rest, "server_address");
        assert(s.skip((w0.len() + w1.len()) as int) =~= w2 + (w3 + rest));
        lemma_field_round_trip::<u16>(v.2, w3 + rest, "server_port");
        assert(s.skip((w0.len() + w1.len() + w2.len()) as int) =~= w3 + (rest));
        lemma_field_round_trip::<VarInt>(v.3, rest, "next_state");
    }
}

impl Packet for Handshake {
    open spec fn key() -> (u32, When, Direction) {
        (0x00, When::Handshake, Direction::ToServer)
    }

    fn id(&self) -> (r: u32) {
        0x00
    }

    fn when(&self) -> (r: When) {
        When::Handshake
    }

    fn direction(&self) -> (r: Direction) {
        Direction::ToServer
    }
}

/// Starts the login with a player name.
#[derive(Debug, Clone, PartialEq)]
pub struct LoginStart {
    pub username: String,
}

impl View for LoginStart {
    type V = Seq<char>;

    open spec fn view(&self) -> Seq<char> {
        self.username@
    }
}

impl Encoder for LoginStart {
    open spec fn wire(v: Seq<char>) -> Seq<u8> {
        <String as Encoder>::wire(v)
    }

    fn encode(&self, out: &mut Vec<u8>) -> (n: usize) {
        let ghost start = out@;
        let before = out.len();
        self.username.encode(out);
        assert(out@ =~= start + Self::wire(self@));
        out.len() - before
    }
}

impl Decoder for LoginStart {
    open spec fn parse(s: Seq<u8>) -> Result<(Seq<char>, nat), CodecError> {
        match parse_field::<String>(s, "username") {
            Err(e) => Err(e),
            Ok((a0, n0)) => Ok((a0, (n0) as nat)),
        }
    }

    fn decode(buf: &[u8], pos: &mut usize) -> (r: Result<LoginStart, CodecError>) {
        let ghost s = buf@.subrange(*old(pos) as int, buf@.len() as int);
        let start = *pos;
        let username = match decode_field::<String>(buf, pos, "username") {
            Ok(v) => v,
            Err(e) => return Err(e),
        };
        Ok(LoginStart { username })
    }
}

impl Codec for LoginStart {
    open spec fn fits(v: Seq<char>) -> bool {
        <String as Codec>::fits(v)
    }

    proof fn lemma_round_trip(v: Seq<char>, rest: Seq<u8>) {
        let s = Self::wire(v) + rest;
        let w0 = <String as Encoder>::wire(v);
        assert(s =~= w0 + (rest));
        lemma_field_round_trip::<String>(v, rest, "username");
    }
}

impl Packet for LoginStart {
    open spec fn key() -> (u32, When, Direction) {
        (0x00, When::Login, Direction::ToServer)
    }

    fn id(&self) -> (r: u32) {
        0x00
    }

    fn when(&self) -> (r: When) {
        When::Login
    }

    fn direction(&self) -> (r: Direction) {
        Direction::ToServer
    }
}

/// Login accepted; the connection enters Play.
#[derive(Debug, Clone, PartialEq)]
pub struct LoginSuccess {
    pub uuid: String,
    pub username: String,
}

impl View for LoginSuccess {
    type V = (Seq<char>, Seq<char>);

    open spec fn view(&self) -> (Seq<char>, Seq<char>) {
        (self.uuid@, self.username@)
    }
}

impl Encoder for LoginSuccess {
    open spec fn wire(v: (Seq<char>, Seq<char>)) -> Seq<u8> {
        <String as Encoder>::wire(v.0) + <String as Encoder>::wire(v.1)
    }

    fn encode(&self, out: &mut Vec<u8>) -> (n: usize) {
        let ghost start = out@;
        let before = out.len();
        self.uuid.encode(out);
        self.username.encode(out);
        assert(out@ =~= start + Self::wire(self@));
        out.len() - before
    }
}

impl Decoder for LoginSuccess {
    open spec fn parse(s: Seq<u8>) -> Result<((Seq<char>, Seq<char>), nat), CodecError> {
        match parse_field::<String>(s, "uuid") {
            Err(e) => Err(e),
            Ok((a0, n0)) => match parse_field::<String>(s.skip((n0) as int), "username") {
                Err(e) => Err(e),
                Ok((a1, n1)) => Ok(((a0, a1), (n0 + n1) as nat)),
            },
        }
    }

    fn decode(buf: &[u8], pos: &mut usize) -> (r: Result<LoginSuccess, CodecError>) {
        let ghost s = buf@.subrange(*old(pos) as int, buf@.len() as int);
        let start = *pos;
        let uuid = match decode_field::<String>(buf, pos, "uuid") {
            Ok(v) => v,
            Err(e) => return Err(e),
        };
        assert(buf@.subrange(*pos as int, buf@.len() as int) =~= s.skip(*pos - start));
        let username = match decode_field::<String>(buf, pos, "username") {
            Ok(v) => v,
            Err(e) => return Err(e),
        };
        Ok(LoginSuccess { uuid, username })
    }
}

impl Codec for LoginSuccess {
    open spec fn fits(v: (Seq<char>, Seq<char>)) -> bool {
        <String as Codec>::fits(v.0) && <String as Codec>::fits(v.1)
    }

    proof fn lemma_round_trip(v: (Seq<char>, Seq<char>), rest: Seq<u8>) {
        let s = Self::wire(v) + rest;
        let w0 = <String as Encoder>::wire(v.0);
        let w1 = <String as Encoder>::wire(v.1);
        assert(s =~= w0 + (w1 + rest));
        lemma_field_round_trip::<String>(v.0, w1 + rest, "uuid");
        assert(s.skip((w0.len()) as int) =~= w1 + (rest));
        lemma_field_round_trip::<String>(v.1, rest, "username");
    }
}

impl Packet for LoginSuccess {
    open spec fn key() -> (u32, When, Direction) {
        (0x02, When::Login, Direction::ToClient)
    }

    fn id(&self) -> (r: u32) {
        0x02
    }

    fn when(&self) -> (r: When) {
        When::Login
    }

    fn direction(&self) -> (r: Direction) {
        Direction::ToClient
    }
}

/// Enables compression of frames at the given size threshold.
#[derive(Debug, Clone, Copy, PartialEq, Eq, Structural)]
pub struct SetCompression {
    pub threshold: VarInt,
}

impl View for SetCompression {
    type V = i32;

    open spec fn view(&self) -> i32 {
        self.threshold@
    }
}

impl Encoder for SetCompression {
    open spec fn wire(v: i32) -> Seq<u8> {
        <VarInt as Encoder>::wire(v)
    }

    fn encode(&self, out: &mut Vec<u8>) -> (n: usize) {
        let ghost start = out@;
        let before = out.len();
        self.threshold.encode(out);
        assert(out@ =~= start + Self::wire(self@));
        out.len() - before
    }
}

impl Decoder for SetCompression {
    open spec fn parse(s: Seq<u8>) -> Result<(i32, nat), CodecError> {
        match parse_field::<VarInt>(s, "threshold") {
            Err(e) => Err(e),
            Ok((a0, n0)) => Ok((a0, (n0) as nat)),
        }
    }

    fn decode(buf: &[u8], pos: &mut usize) -> (r: Result<SetCompression, CodecError>) {
        let ghost s = buf@.subrange(*old(pos) as int, buf@.len() as int);
        let start = *pos;
        let threshold = match decode_field::<VarInt>(buf, pos, "threshold") {
            Ok(v) => v,
            Err(e) => return Err(e),
        };
        Ok(SetCompression { threshold })
    }
}

impl Codec for SetCompression {
    open spec fn fits(v: i32) -> bool {
        <VarInt as Codec>::fits(v)
    }

    proof fn lemma_round_trip(v: i32, rest: Seq<u8>) {
        let s = Self::wire(v) + rest;
        let w0 = <VarInt as Encoder>::wire(v);
        assert(s =~= w0 + (rest));
        lemma_field_round_trip::<VarInt>(v, rest, "threshold");
    }
}

impl Packet for SetCompression {
    open spec fn key() -> (u32, When, Direction) {
        (0x03, When::Login, Direction::ToClient)
    }

    fn id(&self) -> (r: u32) {
        0x03
    }

    fn when(&self) -> (r: When) {
        When::Login
    }

    fn direction(&self) -> (r: Direction) {
        Direction::ToClient
    }
}

/// The server refused the login.
#[derive(Debug, Clone, PartialEq)]
pub struct LoginDisconnect {
    pub reason: String,
}

impl View for LoginDisconnect {
    type V = Seq<char>;

    open spec fn view(&self) -> Seq<char> {
        self.reason@
    }
}

impl Encoder for LoginDisconnect {
    open spec fn wire(v: Seq<char>) -> Seq<u8> {
        <String as Encoder>::wire(v)
    }

    fn encode(&self, out: &mut Vec<u8>) -> (n: usize) {
        let ghost start = out@;
        let before = out.len();
        self.reason.encode(out);
        assert(out@ =~= start + Self::wire(self@));
        out.len() - before
    }
}

impl Decoder for LoginDisconnect {
    open spec fn parse(s: Seq<u8>) -> Result<(Seq<char>, nat), CodecError> {
        match parse_field::<String>(s, "reason") {
            Err(e) => Err(e),
            Ok((a0, n0)) => Ok((a0, (n0) as nat)),
        }
    }

    fn decode(buf: &[u8], pos: &mut usize) -> (r: Result<LoginDisconnect, CodecError>) {
        let ghost s = buf@.subrange(*old(pos) as int, buf@.len() as int);
        let start = *pos;
        let reason = match decode_field::<String>(buf, pos, "reason") {
            Ok(v) => v,
            Err(e) => return Err(e),
        };
        Ok(LoginDisconnect { reason })
    }
}

impl Codec for LoginDisconnect {
    open spec fn fits(v: Seq<char>) -> bool {
        <String as Codec>::fits(v)
    }

    proof fn lemma_round_trip(v: Seq<char>, rest: Seq<u8>) {
        let s = Self::wire(v) + rest;
        let w0 = <String as Encoder>::wire(v);
        assert(s =~= w0 + (rest));
        lemma_field_round_trip::<String>(v, rest, "reason");
    }
}

impl Packet for LoginDisconnect {
    open spec fn key() -> (u32, When, Direction) {
        (0x00, When::Login, Direction::ToClient)
    }

    fn id(&self) -> (r: u32) {
        0x00
    }

    fn when(&self) -> (r: When) {
        When::Login
    }

    fn direction(&self) -> (r: Direction) {
        Direction::ToClient
    }
}

/// Keep-alive probe from the server.
#[derive(Debug, Clone, Copy, PartialEq, Eq, Structural)]
pub struct KeepAlive {
    pub id: VarInt,
}

impl View for KeepAlive {
    type V = i32;

    open spec fn view(&self) -> i32 {
        self.id@
    }
}

impl Encoder for KeepAlive {
    open spec fn wire(v: i32) -> Seq<u8> {
        <VarInt as Encoder>::wire(v)
    }

    fn encode(&self, out: &mut Vec<u8>) -> (n: usize) {
        let ghost start = out@;
        let before = out.len();
        self.id.encode(out);
        assert(out@ =~= start + Self::wire(self@));
        out.len() - before
    }
}

impl Decoder for KeepAlive {
    open spec fn parse(s: Seq<u8>) -> Result<(i32, nat), CodecError> {
        match parse_field::<VarInt>(s, "id") {
            Err(e) => Err(e),
            Ok((a0, n0)) => Ok((a0, (n0) as nat)),
        }
    }

    fn decode(buf: &[u8], pos: &mut usize) -> (r: Result<KeepAlive, CodecError>) {
        let ghost s = buf@.subrange(*old(pos) as int, buf@.len() as int);
        let start = *pos;
        let id = match decode_field::<VarInt>(buf, pos, "id") {
            Ok(v) => v,
            Err(e) => return Err(e),
        };
        Ok(KeepAlive { id })
    }
}

impl Codec for KeepAlive {
    open spec fn fits(v: i32) -> bool {
        <VarInt as Codec>::fits(v)
    }

    proof fn lemma_round_trip(v: i32, rest: Seq<u8>) {
        let s = Self::wire(v) + rest;
        let w0 = <VarInt as Encoder>::wire(v);
        assert(s =~= w0 + (rest));
        lemma_field_round_trip::<VarInt>(v, rest, "id");
    }
}

impl Packet for KeepAlive {
    open spec fn key() -> (u32, When, Direction) {
        (0x00, When::Play, Direction::ToClient)
    }

    fn id(&self) -> (r: u32) {
        0x00
    }

    fn when(&self) -> (r: When) {
        When::Play
    }

    fn direction(&self) -> (r: Direction) {
        Direction::ToClient
    }
}

/// Keep-alive answer to the server.
#[derive(Debug, Clone, Copy, PartialEq, Eq, Structural)]
pub struct ServerKeepAlive {
    pub id: VarInt,
}

impl View for ServerKeepAlive {
    type V = i32;

    open spec fn view(&self) -> i32 {
        self.id@
    }
}

impl Encoder for ServerKeepAlive {
    open spec fn wire(v: i32) -> Seq<u8> {
        <VarInt as Encoder>::wire(v)
    }

    fn encode(&self, out: &mut Vec<u8>) -> (n: usize) {
        let ghost start = out@;
        let before = out.len();
        self.id.encode(out);
        assert(out@ =~= start + Self::wire(self@));
        out.len() - before
    }
}

impl Decoder for ServerKeepAlive {
    open spec fn parse(s: Seq<u8>) -> Result<(i32, nat), CodecError> {
        match parse_field::<VarInt>(s, "id") {
            Err(e) => Err(e),
            Ok((a0, n0)) => Ok((a0, (n0) as nat)),
        }
    }

    fn decode(buf: &[u8], pos: &mut usize) -> (r: Result<ServerKeepAlive, CodecError>) {
        let ghost s = buf@.subrange(*old(pos) as int, buf@.len() as int);
        let start = *pos;
        let id = match decode_field::<VarInt>(buf, pos, "id") {
            Ok(v) => v,
            Err(e) => return Err(e),
        };
        Ok(ServerKeepAlive { id })
    }
}

impl Codec for ServerKeepAlive {
    open spec fn fits(v: i32) -> bool {
        <VarInt as Codec>::fits(v)
    }

    proof fn lemma_round_trip(v: i32, rest: Seq<u8>) {
        let s = Self::wire(v) + rest;
        let w0 = <VarInt as Encoder>::wire(v);
        assert(s =~= w0 + (rest));
        lemma_field_round_trip::<VarInt>(v, rest, "id");
    }
}

impl Packet for ServerKeepAlive {
    open spec fn key() -> (u32, When, Direction) {
        (0x00, When::Play, Direction::ToServer)
    }

    fn id(&self) -> (r: u32) {
        0x00
    }

    fn when(&self) -> (r: When) {
        When::Play
    }

    fn direction(&self) -> (r: Direction) {
        Direction::ToServer
    }
}

/// The player has joined the world.
#[derive(Debug, Clone, PartialEq)]
pub struct JoinGame {
    pub entity_id: i32,
    pub game_mode: u8,
    pub dimension: i8,
    pub difficulty: u8,
    pub max_players: u8,
    pub level_type: String,
    pub reduced_debug_info: bool,
}

impl View for JoinGame {
    type V = (i32, u8, i8, u8, u8, Seq<char>, bool);

    open spec fn view(&self) -> (i32, u8, i8, u8, u8, Seq<char>, bool) {
        (self.entity_id@, self.game_mode@, self.dimension@, self.difficulty@, self.max_players@, self.level_type@, self.reduced_debug_info@)
    }
}

impl Encoder for JoinGame {
    open spec fn wire(v: (i32, u8, i8, u8, u8, Seq<char>, bool)) -> Seq<u8> {
        <i32 as Encoder>::wire(v.0) + <u8 as Encoder>::wire(v.1) + <i8 as Encoder>::wire(v.2) + <u8 as Encoder>::wire(v.3) + <u8 as Encoder>::wire(v.4) + <String as Encoder>::wire(v.5) + <bool as Encoder>::wire(v.6)
    }

    fn encode(&self, out: &mut Vec<u8>) -> (n: usize) {
        let ghost start = out@;
        let before = out.len();
        self.entity_id.encode(out);
        self.game_mode.encode(out);
        self.dimension.encode(out);
        self.difficulty.encode(out);
        self.max_players.encode(out);
        self.level_type.encode(out);
        self.reduced_debug_info.encode(out);
        assert(out@ =~= start + Self::wire(self@));
        out.len() - before
    }
}

impl Decoder for JoinGame {
    open spec fn parse(s: Seq<u8>) -> Result<((i32, u8, i8, u8, u8, Seq<char>, bool), nat), CodecError> {
        match parse_field::<i32>(s, "entity_id") {
            Err(e) => Err(e),
            Ok((a0, n0)) => match parse_field::<u8>(s.skip((n0) as int), "game_mode") {
                Err(e) => Err(e),
                Ok((a1, n1)) => match parse_field::<i8>(s.skip((n0 + n1) as int), "dimension") {
                    Err(e) => Err(e),
                    Ok((a2, n2)) => match parse_field::<u8>(s.skip((n0 + n1 + n2) as int), "difficulty") {
                        Err(e) => Err(e),
                        Ok((a3, n3)) => match parse_field::<u8>(s.skip((n0 + n1 + n2 + n3) as int), "max_players") {
                            Err(e) => Err(e),
                            Ok((a4, n4)) => match parse_field::<String>(s.skip((n0 + n1 + n2 + n3 + n4) as int), "level_type") {
                                Err(e) => Err(e),
                                Ok((a5, n5)) => match parse_field::<bool>(s.skip((n0 + n1 + n2 + n3 + n4 + n5) as int), "reduced_debug_info") {
                                    Err(e) => Err(e),
                                    Ok((a6, n6)) => Ok(((a0, a1, a2, a3, a4, a5, a6), (n0 + n1 + n2 + n3 + n4 + n5 + n6) as nat)),
                                },
                            },
                        },
                    },
                },
            },
        }
    }

    fn decode(buf: &[u8], pos: &mut usize) -> (r: Result<JoinGame, CodecError>) {
        let ghost s = buf@.subrange(*old(pos) as int, buf@.len() as int);
        let start = *pos;
        let entity_id = match decode_field::<i32>(buf, pos, "entity_id") {
            Ok(v) => v,
            Err(e) => return Err(e),
        };
        assert(buf@.subrange(*pos as int, buf@.len() as int) =~= s.skip(*pos - start));
        let game_mode = match decode_field::<u8>(buf, pos, "game_mode") {
            Ok(v) => v,
            Err(e) => return Err(e),
        };
        assert(buf@.subrange(*pos as int, buf@.len() as int) =~= s.skip(*pos - start));
        let dimension = match decode_field::<i8>(buf, pos, "dimension") {
            Ok(v) => v,
            Err(e) => return Err(e),
        };
        assert(buf@.subrange(*pos as int, buf@.len() as int) =~= s.skip(*pos - start));
        let difficulty = match decode_field::<u8>(buf, pos, "difficulty") {
            Ok(v) => v,
            Err(e) => return Err(e),
        };
        assert(buf@.subrange(*pos as int, buf@.len() as int) =~= s.skip(*pos - start));
        let max_players = match decode_field::<u8>(buf, pos, "max_players") {
            Ok(v) => v,
            Err(e) => return Err(e),
        };
        assert(buf@.subrange(*pos as int, buf@.len() as int) =~= s.skip(*pos - start));
        let level_type = match decode_field::<String>(buf, pos, "level_type") {
            Ok(v) => v,
            Err(e) => return Err(e),
        };
        assert(buf@.subrange(*pos as int, buf@.len() as int) =~= s.skip(*pos - start));
        let reduced_debug_info = match decode_field::<bool>(buf, pos, "reduced_debug_info") {
            Ok(v) => v,
            Err(e) => return Err(e),
        };
        Ok(JoinGame { entity_id, game_mode, dimension, difficulty, max_players, level_type, reduced_debug_info })
    }
}

impl Codec for JoinGame {
    open spec fn fits(v: (i32, u8, i8, u8, u8, Seq<char>, bool)) -> bool {
        <i32 as Codec>::fits(v.0) && <u8 as Codec>::fits(v.1) && <i8 as Codec>::fits(v.2) && <u8 as Codec>::fits(v.3) && <u8 as Codec>::fits(v.4) && <String as Codec>::fits(v.5) && <bool as Codec>::fits(v.6)
    }

    #[verifier::rlimit(80)]
    proof fn lemma_round_trip(v: (i32, u8, i8, u8, u8, Seq<char>, bool), rest: Seq<u8>) {
        let s = Self::wire(v) + rest;
        let w0 = <i32 as Encoder>::wire(v.0);
        let w1 = <u8 as Encoder>::wire(v.1);
        let w2 = <i8 as Encoder>::wire(v.2);
        let w3 = <u8 as Encoder>::wire(v.3);
        let w4 = <u8 as Encoder>::wire(v.4);
        let w5 = <String as Encoder>::wire(v.5);
        let w6 = <bool as Encoder>::wire(v.6);
        assert(s =~= w0 + (w1 + w2 + w3 + w4 + w5 + w6 + rest));
        lemma_field_round_trip::<i32>(v.0, w1 + w2 + w3 + w4 + w5 + w6 + rest, "entity_id");
        assert(s.skip((w0.len()) as int) =~= w1 + (w2 + w3 + w4 + w5 + w6 + rest));
        lemma_field_round_trip::<u8>(v.1, w2 + w3 + w4 + w5 + w6 + rest, "game_mode");
        assert(s.skip((w0.len() + w1.len()) as int) =~= w2 + (w3 + w4 + w5 + w6 + rest));
        lemma_field_round_trip::<i8>(v.2, w3 + w4 + w5 + w6 + rest, "dimension");
        assert(s.skip((w0.len() + w1.len() + w2.len()) as int) =~= w3 + (w4 + w5 + w6 + rest));
        lemma_field_round_trip::<u8>(v.3, w4 + w5 + w6 + rest, "difficulty");
        assert(s.skip((w0.len() + w1.len() + w2.len() + w3.len()) as int) =~= w4 + (w5 + w6 + rest));
        lemma_field_round_trip::<u8>(v.4, w5 + w6 + rest, "max_players");
        assert(s.skip((w0.len() + w1.len() + w2.len() + w3.len() + w4.len()) as int) =~= w5 + (w6 + rest));
        lemma_field_round_trip::<String>(v.5, w6 + rest, "level_type");
        assert(s.skip((w0.len() + w1.len() + w2.len() + w3.len() + w4.len() + w5.len()) as int) =~= w6 + (rest));
        lemma_field_round_trip::<bool>(v.6, rest, "reduced_debug_info");
    }
}

impl Packet for JoinGame {
    open spec fn key() -> (u32, When, Direction) {
        (0x01, When::Play, Direction::ToClient)
    }

    fn id(&self) -> (r: u32) {
        0x01
    }

    fn when(&self) -> (r: When) {
        When::Play
    }

    fn direction(&self) -> (r: Direction) {
        Direction::ToClient
    }
}

/// A chat message, as JSON text.
#[derive(Debug, Clone, PartialEq)]
pub struct ChatMessage {
    pub content: String,
    pub position: u8,
}

impl View for ChatMessage {
    type V = (Seq<char>, u8);

    open spec fn view(&self) -> (Seq<char>, u8) {
        (self.content@, self.position@)
    }
}

impl Encoder for ChatMessage {
    open spec fn wire(v: (Seq<char>, u8)) -> Seq<u8> {
        <String as Encoder>::wire(v.0) + <u8 as Encoder>::wire(v.1)
    }

    fn encode(&self, out: &mut Vec<u8>) -> (n: usize) {
        let ghost start = out@;
        let before = out.len();
        self.content.encode(out);
        self.position.encode(out);
        assert(out@ =~= start + Self::wire(self@));
        out.len() - before
    }
}

impl Decoder for ChatMessage {
    open spec fn parse(s: Seq<u8>) -> Result<((Seq<char>, u8), nat), CodecError> {
        match parse_field::<String>(s, "content") {
            Err(e) => Err(e),
            Ok((a0, n0)) => match parse_field::<u8>(s.skip((n0) as int), "position") {
                Err(e) => Err(e),
                Ok((a1, n1)) => Ok(((a0, a1), (n0 + n1) as nat)),
            },
        }
    }

    fn decode(buf: &[u8], pos: &mut usize) -> (r: Result<ChatMessage, CodecError>) {
        let ghost s = buf@.subrange(*old(pos) as int, buf@.len() as int);
        let start = *pos;
        let content = match decode_field::<String>(buf, pos, "content") {
            Ok(v) => v,
            Err(e) => return Err(e),
        };
        assert(buf@.subrange(*pos as int, buf@.len() as int) =~= s.skip(*pos - start));
        let position = match decode_field::<u8>(buf, pos, "position") {
            Ok(v) => v,
            Err(e) => return Err(e),
        };
        Ok(ChatMessage { content, position })
    }
}

impl Codec for ChatMessage {
    open spec fn fits(v: (Seq<char>, u8)) -> bool {
        <String as Codec>::fits(v.0) && <u8 as Codec>::fits(v.1)
    }

    proof fn lemma_round_trip(v: (Seq<char>, u8), rest: Seq<u8>) {
        let s = Self::wire(v) + rest;
        let w0 = <String as Encoder>::wire(v.0);
        let w1 = <u8 as Encoder>::wire(v.1);
        assert(s =~= w0 + (w1 + rest));
        lemma_field_round_trip::<String>(v.0, w1 + rest, "content");
        assert(s.skip((w0.len()) as int) =~= w1 + (rest));
        lemma_field_round_trip::<u8>(v.1, rest, "position");
    }
}

impl Packet for ChatMessage {
    open spec fn key() -> (u32, When, Direction) {
        (0x02, When::Play, Direction::ToClient)
    }

    fn id(&self) -> (r: u32) {
        0x02
    }

    fn when(&self) -> (r: When) {
        When::Play
    }

    fn direction(&self) -> (r: Direction) {
        Direction::ToClient
    }
}

/// A chat line typed by the player.
#[derive(Debug, Clone, PartialEq)]
pub struct SendChatMessage {
    pub content: String,
}

impl View for SendChatMessage {
    type V = Seq<char>;

    open spec fn view(&self) -> Seq<char> {
        self.content@
    }
}

impl Encoder for SendChatMessage {
    open spec fn wire(v: Seq<char>) -> Seq<u8> {
        <String as Encoder>::wire(v)
    }

    fn encode(&self, out: &mut Vec<u8>) -> (n: usize) {
        let ghost start = out@;
        let before = out.len();
        self.content.encode(out);
        assert(out@ =~= start + Self::wire(self@));
        out.len() - before
    }
}

impl Decoder for SendChatMessage {
    open spec fn parse(s: Seq<u8>) -> Result<(Seq<char>, nat), CodecError> {
        match parse_field::<String>(s, "content") {
            Err(e) => Err(e),
            Ok((a0, n0)) => Ok((a0, (n0) as nat)),
        }
    }

    fn decode(buf: &[u8], pos: &mut usize) -> (r: Result<SendChatMessage, CodecError>) {
        let ghost s = buf@.subrange(*old(pos) as int, buf@.len() as int);
        let start = *pos;
        let content = match decode_field::<String>(buf, pos, "content") {
            Ok(v) => v,
            Err(e) => return Err(e),
        };
        Ok(SendChatMessage { content })
    }
}

impl Codec for SendChatMessage {
    open spec fn fits(v: Seq<char>) -> bool {
        <String as Codec>::fits(v)
    }

    proof fn lemma_round_trip(v: Seq<char>, rest: Seq<u8>) {
        let s = Self::wire(v) + rest;
        let w0 = <String as Encoder>::wire(v);
        assert(s =~= w0 + (rest));
        lemma_field_round_trip::<String>(v, rest, "content");
    }
}

impl Packet for SendChatMessage {
    open spec fn key() -> (u32, When, Direction) {
        (0x01, When::Play, Direction::ToServer)
    }

    fn id(&self) -> (r: u32) {
        0x01
    }

    fn when(&self) -> (r: When) {
        When::Play
    }

    fn direction(&self) -> (r: Direction) {
        Direction::ToServer
    }
}

/// Authoritative position and look of the player.
#[derive(Debug, Clone, Copy, PartialEq, Eq, Structural)]
pub struct PlayerPositionAndLook {
    /// Bit pattern of an `f64`.
    pub x: u64,
    /// Bit pattern of an `f64`.
    pub y: u64,
    /// Bit pattern of an `f64`.
    pub z: u64,
    /// Bit pattern of an `f32`.
    pub yaw: u32,
    /// Bit pattern of an `f32`.
    pub pitch: u32,
    pub flags: u8,
}

impl View for PlayerPositionAndLook {
    type V = (u64, u64, u64, u32, u32, u8);

    open spec fn view(&self) -> (u64, u64, u64, u32, u32, u8) {
        (self.x@, self.y@, self.z@, self.yaw@, self.pitch@, self.flags@)
    }
}

impl Encoder for PlayerPositionAndLook {
    open spec fn wire(v: (u64, u64, u64, u32, u32, u8)) -> Seq<u8> {
        <u64 as Encoder>::wire(v.0) + <u64 as Encoder>::wire(v.1) + <u64 as Encoder>::wire(v.2) + <u32 as Encoder>::wire(v.3) + <u32 as Encoder>::wire(v.4) + <u8 as Encoder>::wire(v.5)
    }

    fn encode(&self, out: &mut Vec<u8>) -> (n: usize) {
        let ghost start = out@;
        let before = out.len();
        self.x.encode(out);
        self.y.encode(out);
        self.z.encode(out);
        self.yaw.encode(out);
        self.pitch.encode(out);
        self.flags.encode(out);
        assert(out@ =~= start + Self::wire(self@));
        out.len() - before
    }
}

impl Decoder for PlayerPositionAndLook {
    open spec fn parse(s: Seq<u8>) -> Result<((u64, u64, u64, u32, u32, u8), nat), CodecError> {
        match parse_field::<u64>(s, "x") {
            Err(e) => Err(e),
            Ok((a0, n0)) => match parse_field::<u64>(s.skip((n0) as int), "y") {
                Err(e) => Err(e),
                Ok((a1, n1)) => match parse_field::<u64>(s.skip((n0 + n1) as int), "z") {
                    Err(e) => Err(e),
                    Ok((a2, n2)) => match parse_field::<u32>(s.skip((n0 + n1 + n2) as int), "yaw") {
                        Err(e) => Err(e),
                        Ok((a3, n3)) => match parse_field::<u32>(s.skip((n0 + n1 + n2 + n3) as int), "pitch") {
                            Err(e) => Err(e),
                            Ok((a4, n4)) => match parse_field::<u8>(s.skip((n0 + n1 + n2 + n3 + n4) as int), "flags") {
                                Err(e) => Err(e),
                                Ok((a5, n5)) => Ok(((a0, a1, a2, a3, a4, a5), (n0 + n1 + n2 + n3 + n4 + n5) as nat)),
                            },
                        },
                    },
                },
            },
        }
    }

    fn decode(buf: &[u8], pos: &mut usize) -> (r: Result<PlayerPositionAndLook, CodecError>) {
        let ghost s = buf@.subrange(*old(pos) as int, buf@.len() as int);
        let start = *pos;
        let x = match decode_field::<u64>(buf, pos, "x") {
            Ok(v) => v,
            Err(e) => return Err(e),
        };
        assert(buf@.subrange(*pos as int, buf@.len() as int) =~= s.skip(*pos - start));
        let y = match decode_field::<u64>(buf, pos, "y") {
            Ok(v) => v,
            Err(e) => return Err(e),
        };
        assert(buf@.subrange(*pos as int, buf@.len() as int) =~= s.skip(*pos - start));
        let z = match decode_field::<u64>(buf, pos, "z") {
            Ok(v) => v,
            Err(e) => return Err(e),
        };
        assert(buf@.subrange(*pos as int, buf@.len() as int) =~= s.skip(*pos - start));
        let yaw = match decode_field::<u32>(buf, pos, "yaw") {
            Ok(v) => v,
            Err(e) => return Err(e),
        };
        assert(buf@.subrange(*pos as int, buf@.len() as int) =~= s.skip(*pos - start));
        let pitch = match decode_field::<u32>(buf, pos, "pitch") {
            Ok(v) => v,
            Err(e) => return Err(e),
        };
        assert(buf@.subrange(*pos as int, buf@.len() as int) =~= s.skip(*pos - start));
        let flags = match decode_field::<u8>(buf, pos, "flags") {
            Ok(v) => v,
            Err(e) => return Err(e),
        };
        Ok(PlayerPositionAndLook { x, y, z, yaw, pitch, flags })
    }
}

impl Codec for PlayerPositionAndLook {
    open spec fn fits(v: (u64, u64, u64, u32, u32, u8)) -> bool {
        <u64 as Codec>::fits(v.0) && <u64 as Codec>::fits(v.1) && <u64 as Codec>::fits(v.2) && <u32 as Codec>::fits(v.3) && <u32 as Codec>::fits(v.4) && <u8 as Codec>::fits(v.5)
    }

    #[verifier::rlimit(80)]
    proof fn lemma_round_trip(v: (u64, u64, u64, u32, u32, u8), rest: Seq<u8>) {
        let s = Self::wire(v) + rest;
        let w0 = <u64 as Encoder>::wire(v.0);
        let w1 = <u64 as Encoder>::wire(v.1);
        let w2 = <u64 as Encoder>::wire(v.2);
        let w3 = <u32 as Encoder>::wire(v.3);
        let w4 = <u32 as Encoder>::wire(v.4);
        let w5 = <u8 as Encoder>::wire(v.5);
        assert(s =~= w0 + (w1 + w2 + w3 + w4 + w5 + rest));
        lemma_field_round_trip::<u64>(v.0, w1 + w2 + w3 + w4 + w5 + rest, "x");
        assert(s.skip((w0.len()) as int) =~= w1 + (w2 + w3 + w4 + w5 + rest));
        lemma_field_round_trip::<u64>(v.1, w2 + w3 + w4 + w5 + rest, "y");
        assert(s.skip((w0.len() + w1.len()) as int) =~= w2 + (w3 + w4 + w5 + rest));
        lemma_field_round_trip::<u64>(v.2, w3 + w4 + w5 + rest, "z");
        assert(s.skip((w0.len() + w1.len() + w2.len()) as int) =~= w3 + (w4 + w5 + rest));
        lemma_field_round_trip::<u32>(v.3, w4 + w5 + rest, "yaw");
        assert(s.skip((w0.len() + w1.len() + w2.len() + w3.len()) as int) =~= w4 + (w5 + rest));
        lemma_field_round_trip::<u32>(v.4, w5 + rest, "pitch");
        assert(s.skip((w0.len() + w1.len() + w2.len() + w3.len() + w4.len()) as int) =~= w5 + (rest));
        lemma_field_round_trip::<u8>(v.5, rest, "flags");
    }
}

impl Packet for PlayerPositionAndLook {
    open spec fn key() -> (u32, When, Direction) {
        (0x08, When::Play, Direction::ToClient)
    }

    fn id(&self) -> (r: u32) {
        0x08
    }

    fn when(&self) -> (r: When) {
        When::Play
    }

    fn direction(&self) -> (r: Direction) {
        Direction::ToClient
    }
}

/// Position of the player.
#[derive(Debug, Clone, Copy, PartialEq, Eq, Structural)]
pub struct PlayerPosition {
    /// Bit pattern of an `f64`.
    pub x: u64,
    /// Bit pattern of an `f64`.
    pub feet_y: u64,
    /// Bit pattern of an `f64`.
    pub z: u64,
    pub on_ground: bool,
}

impl View for PlayerPosition {
    type V = (u64, u64, u64, bool);

    open spec fn view(&self) -> (u64, u64, u64, bool) {
        (self.x@, self.feet_y@, self.z@, self.on_ground@)
    }
}

impl Encoder for PlayerPosition {
    open spec fn wire(v: (u64, u64, u64, bool)) -> Seq<u8> {
        <u64 as Encoder>::wire(v.0) + <u64 as Encoder>::wire(v.1) + <u64 as Encoder>::wire(v.2) + <bool as Encoder>::wire(v.3)
    }

    fn encode(&self, out: &mut Vec<u8>) -> (n: usize) {
        let ghost start = out@;
        let before = out.len();
        self.x.encode(out);
        self.feet_y.encode(out);
        self.z.encode(out);
        self.on_ground.encode(out);
        assert(out@ =~= start + Self::wire(self@));
        out.len() - before
    }
}

impl Decoder for PlayerPosition {
    open spec fn parse(s: Seq<u8>) -> Result<((u64, u64, u64, bool), nat), CodecError> {
        match parse_field::<u64>(s, "x") {
            Err(e) => Err(e),
            Ok((a0, n0)) => match parse_field::<u64>(s.skip((n0) as int), "feet_y") {
                Err(e) => Err(e),
                Ok((a1, n1)) => match parse_field::<u64>(s.skip((n0 + n1) as int), "z") {
                    Err(e) => Err(e),
                    Ok((a2, n2)) => match parse_field::<bool>(s.skip((n0 + n1 + n2) as int), "on_ground") {
                        Err(e) => Err(e),
                        Ok((a3, n3)) => Ok(((a0, a1, a2, a3), (n0 + n1 + n2 + n3) as nat)),
                    },
                },
            },
        }
    }

    fn decode(buf: &[u8], pos: &mut usize) -> (r: Result<PlayerPosition, CodecError>) {
        let ghost s = buf@.subrange(*old(pos) as int, buf@.len() as int);
        let start = *pos;
        let x = match decode_field::<u64>(buf, pos, "x") {
            Ok(v) => v,
            Err(e) => return Err(e),
        };
        assert(buf@.subrange(*pos as int, buf@.len() as int) =~= s.skip(*pos - start));
        let feet_y = match decode_field::<u64>(buf, pos, "feet_y") {
            Ok(v) => v,
            Err(e) => return Err(e),
        };
        assert(buf@.subrange(*pos as int, buf@.len() as int) =~= s.skip(*pos - start));
        let z = match decode_field::<u64>(buf, pos, "z") {
            Ok(v) => v,
            Err(e) => return Err(e),
        };
        assert(buf@.subrange(*pos as int, buf@.len() as int) =~= s.skip(*pos - start));
        let on_ground = match decode_field::<bool>(buf, pos, "on_ground") {
            Ok(v) => v,
            Err(e) => return Err(e),
        };
        Ok(PlayerPosition { x, feet_y, z, on_ground })
    }
}

impl Codec for PlayerPosition {
    open spec fn fits(v: (u64, u64, u64, bool)) -> bool {
        <u64 as Codec>::fits(v.0) && <u64 as Codec>::fits(v.1) && <u64 as Codec>::fits(v.2) && <bool as Codec>::fits(v.3)
    }

    proof fn lemma_round_trip(v: (u64, u64, u64, bool), rest: Seq<u8>) {
        let s = Self::wire(v) + rest;
        let w0 = <u64 as Encoder>::wire(v.0);
        let w1 = <u64 as Encoder>::wire(v.1);
        let w2 = <u64 as Encoder>::wire(v.2);
        let w3 = <bool as Encoder>::wire(v.3);
        assert(s =~= w0 + (w1 + w2 + w3 + rest));
        lemma_field_round_trip::<u64>(v.0, w1 + w2 + w3 + rest, "x");
        assert(s.skip((w0.len()) as int) =~= w1 + (w2 + w3 + rest));
        lemma_field_round_trip::<u64>(v.1, w2 + w3 + rest, "feet_y");
        assert(s.skip((w0.len() + w1.len()) as int) =~= w2 + (w3 + rest));
        lemma_field_round_trip::<u64>(v.2, w3 + rest, "z");
        assert(s.skip((w0.len() + w1.len() + w2.len()) as int) =~= w3 + (rest));
        lemma_field_round_trip::<bool>(v.3, rest, "on_ground");
    }
}

impl Packet for PlayerPosition {
    open spec fn key() -> (u32, When, Direction) {
        (0x04, When::Play, Direction::ToServer)
    }

    fn id(&self) -> (r: u32) {
        0x04
    }

    fn when(&self) -> (r: When) {
        When::Play
    }

    fn direction(&self) -> (r: Direction) {
        Direction::ToServer
    }
}

/// Look direction of the player.
#[derive(Debug, Clone, Copy, PartialEq, Eq, Structural)]
pub struct PlayerLook {
    /// Bit pattern of an `f32`.
    pub yaw: u32,
    /// Bit pattern of an `f32`.
    pub pitch: u32,
    pub on_ground: bool,
}

impl View for PlayerLook {
    type V = (u32, u32, bool);

    open spec fn view(&self) -> (u32, u32, bool) {
        (self.yaw@, self.pitch@, self.on_ground@)
    }
}

impl Encoder for PlayerLook {
    open spec fn wire(v: (u32, u32, bool)) -> Seq<u8> {
        <u32 as Encoder>::wire(v.0) + <u32 as Encoder>::wire(v.1) + <bool as Encoder>::wire(v.2)
    }

    fn encode(&self, out: &mut Vec<u8>) -> (n: usize) {
        let ghost start = out@;
        let before = out.len();
        self.yaw.encode(out);
        self.pitch.encode(out);
        self.on_ground.encode(out);
        assert(out@ =~= start + Self::wire(self@));
        out.len() - before
    }
}

impl Decoder for PlayerLook {
    open spec fn parse(s: Seq<u8>) -> Result<((u32, u32, bool), nat), CodecError> {
        match parse_field::<u32>(s, "yaw") {
            Err(e) => Err(e),
            Ok((a0, n0)) => match parse_field::<u32>(s.skip((n0) as int), "pitch") {
                Err(e) => Err(e),
                Ok((a1, n1)) => match parse_field::<bool>(s.skip((n0 + n1) as int), "on_ground") {
                    Err(e) => Err(e),
                    Ok((a2, n2)) => Ok(((a0, a1, a2), (n0 + n1 + n2) as nat)),
                },
            },
        }
    }

    fn decode(buf: &[u8], pos: &mut usize) -> (r: Result<PlayerLook, CodecError>) {
        let ghost s = buf@.subrange(*old(pos) as int, buf@.len() as int);
        let start = *pos;
        let yaw = match decode_field::<u32>(buf, pos, "yaw") {
            Ok(v) => v,
            Err(e) => return Err(e),
        };
        assert(buf@.subrange(*pos as int, buf@.len() as int) =~= s.skip(*pos - start));
        let pitch = match decode_field::<u32>(buf, pos, "pitch") {
            Ok(v) => v,
            Err(e) => return Err(e),
        };
        assert(buf@.subrange(*pos as int, buf@.len() as int) =~= s.skip(*pos - start));
        let on_ground = match decode_field::<bool>(buf, pos, "on_ground") {
            Ok(v) => v,
            Err(e) => return Err(e),
        };
        Ok(PlayerLook { yaw, pitch, on_ground })
    }
}

impl Codec for PlayerLook {
    open spec fn fits(v: (u32, u32, bool)) -> bool {
        <u32 as Codec>::fits(v.0) && <u32 as Codec>::fits(v.1) && <bool as Codec>::fits(v.2)
    }

    proof fn lemma_round_trip(v: (u32, u32, bool), rest: Seq<u8>) {
        let s = Self::wire(v) + rest;
        let w0 = <u32 as Encoder>::wire(v.0);
        let w1 = <u32 as Encoder>::wire(v.1);
        let w2 = <bool as Encoder>::wire(v.2);
        assert(s =~= w0 + (w1 + w2 + rest));
        lemma_field_round_trip::<u32>(v.0, w1 + w2 + rest, "yaw");
        assert(s.skip((w0.len()) as int) =~= w1 + (w2 + rest));
        lemma_field_round_trip::<u32>(v.1, w2 + rest, "pitch");
        assert(s.skip((w0.len() + w1.len()) as int) =~= w2 + (rest));
        lemma_field_round_trip::<bool>(v.2, rest, "on_ground");
    }
}

impl Packet for PlayerLook {
    open spec fn key() -> (u32, When, Direction) {
        (0x05, When::Play, Direction::ToServer)
    }

    fn id(&self) -> (r: u32) {
        0x05
    }

    fn when(&self) -> (r: When) {
        When::Play
    }

    fn direction(&self) -> (r: Direction) {
        Direction::ToServer
    }
}

/// An entity that has not moved.
#[derive(Debug, Clone, Copy, PartialEq, Eq, Structural)]
pub struct Entity {
    pub entity_id: VarInt,
}

impl View for Entity {
    type V = i32;

    open spec fn view(&self) -> i32 {
        self.entity_id@
    }
}

impl Encoder for Entity {
    open spec fn wire(v: i32) -> Seq<u8> {
        <VarInt as Encoder>::wire(v)
    }

    fn encode(&self, out: &mut Vec<u8>) -> (n: usize) {
        let ghost start = out@;
        let before = out.len();
        self.entity_id.encode(out);
        assert(out@ =~= start + Self::wire(self@));
        out.len() - before
    }
}

impl Decoder for Entity {
    open spec fn parse(s: Seq<u8>) -> Result<(i32, nat), CodecError> {
        match parse_field::<VarInt>(s, "entity_id") {
            Err(e) => Err(e),
            Ok((a0, n0)) => Ok((a0, (n0) as nat)),
        }
    }

    fn decode(buf: &[u8], pos: &mut usize) -> (r: Result<Entity, CodecError>) {
        let ghost s = buf@.subrange(*old(pos) as int, buf@.len() as int);
        let start = *pos;
        let entity_id = match decode_field::<VarInt>(buf, pos, "entity_id") {
            Ok(v) => v,
            Err(e) => return Err(e),
        };
        Ok(Entity { entity_id })
    }
}

impl Codec for Entity {
    open spec fn fits(v: i32) -> bool {
        <VarInt as Codec>::fits(v)
    }

    proof fn lemma_round_trip(v: i32, rest: Seq<u8>) {
        let s = Self::wire(v) + rest;
        let w0 = <VarInt as Encoder>::wire(v);
        assert(s =~= w0 + (rest));
        lemma_field_round_trip::<VarInt>(v, rest, "entity_id");
    }
}

impl Packet for Entity {
    open spec fn key() -> (u32, When, Direction) {
        (0x14, When::Play, Direction::ToClient)
    }

    fn id(&self) -> (r: u32) {
        0x14
    }

    fn when(&self) -> (r: When) {
        When::Play
    }

    fn direction(&self) -> (r: Direction) {
        Direction::ToClient
    }
}

/// An entity moved by a small offset.
#[derive(Debug, Clone, Copy, PartialEq, Eq, Structural)]
pub struct EntityRelativeMove {
    pub entity_id: VarInt,
    pub delta_x: i8,
    pub delta_y: i8,
    pub delta_z: i8,
    pub on_ground: bool,
}

impl View for EntityRelativeMove {
    type V = (i32, i8, i8, i8, bool);

    open spec fn view(&self) -> (i32, i8, i8, i8, bool) {
        (self.entity_id@, self.delta_x@, self.delta_y@, self.delta_z@, self.on_ground@)
    }
}

impl Encoder for EntityRelativeMove {
    open spec fn wire(v: (i32, i8, i8, i8, bool)) -> Seq<u8> {
        <VarInt as Encoder>::wire(v.0) + <i8 as Encoder>::wire(v.1) + <i8 as Encoder>::wire(v.2) + <i8 as Encoder>::wire(v.3) + <bool as Encoder>::wire(v.4)
    }

    fn encode(&self, out: &mut Vec<u8>) -> (n: usize) {
        let ghost start = out@;
        let before = out.len();
        self.entity_id.encode(out);
        self.delta_x.encode(out);
        self.delta_y.encode(out);
        self.delta_z.encode(out);
        self.on_ground.encode(out);
        assert(out@ =~= start + Self::wire(self@));
        out.len() - before
    }
}

impl Decoder for EntityRelativeMove {
    open spec fn parse(s: Seq<u8>) -> Result<((i32, i8, i8, i8, bool), nat), CodecError> {
        match parse_field::<VarInt>(s, "entity_id") {
            Err(e) => Err(e),
            Ok((a0, n0)) => match parse_field::<i8>(s.skip((n0) as int), "delta_x") {
                Err(e) => Err(e),
                Ok((a1, n1)) => match parse_field::<i8>(s.skip((n0 + n1) as int), "delta_y") {
                    Err(e) => Err(e),
                    Ok((a2, n2)) => match parse_field::<i8>(s.skip((n0 + n1 + n2) as int), "delta_z") {
                        Err(e) => Err(e),
                        Ok((a3, n3)) => match parse_field::<bool>(s.skip((n0 + n1 + n2 + n3) as int), "on_ground") {
                            Err(e) => Err(e),
                            Ok((a4, n4)) => Ok(((a0, a1, a2, a3, a4), (n0 + n1 + n2 + n3 + n4) as nat)),
                        },
                    },
                },
            },
        }
    }

    fn decode(buf: &[u8], pos: &mut usize) -> (r: Result<EntityRelativeMove, CodecError>) {
        let ghost s = buf@.subrange(*old(pos) as int, buf@.len() as int);
        let start = *pos;
        let entity_id = match decode_field::<VarInt>(buf, pos, "entity_id") {
            Ok(v) => v,
            Err(e) => return Err(e),
        };
        assert(buf@.subrange(*pos as int, buf@.len() as int) =~= s.skip(*pos - start));
        let delta_x = match decode_field::<i8>(buf, pos, "delta_x") {
            Ok(v) => v,
            Err(e) => return Err(e),
        };
        assert(buf@.subrange(*pos as int, buf@.len() as int) =~= s.skip(*pos - start));
        let delta_y = match decode_field::<i8>(buf, pos, "delta_y") {
            Ok(v) => v,
            Err(e) => return Err(e),
        };
        assert(buf@.subrange(*pos as int, buf@.len() as int) =~= s.skip(*pos - start));
        let delta_z = match decode_field::<i8>(buf, pos, "delta_z") {
            Ok(v) => v,
            Err(e) => return Err(e),
        };
        assert(buf@.subrange(*pos as int, buf@.len() as int) =~= s.skip(*pos - start));
        let on_ground = match decode_field::<bool>(buf, pos, "on_ground") {
            Ok(v) => v,
            Err(e) => return Err(e),
        };
        Ok(EntityRelativeMove { entity_id, delta_x, delta_y, delta_z, on_ground })
    }
}

impl Codec for EntityRelativeMove {
    open spec fn fits(v: (i32, i8, i8, i8, bool)) -> bool {
        <VarInt as Codec>::fits(v.0) && <i8 as Codec>::fits(v.1) && <i8 as Codec>::fits(v.2) && <i8 as Codec>::fits(v.3) && <bool as Codec>::fits(v.4)
    }

    proof fn lemma_round_trip(v: (i32, i8, i8, i8, bool), rest: Seq<u8>) {
        let s = Self::wire(v) + rest;
        let w0 = <VarInt as Encoder>::wire(v.0);
        let w1 = <i8 as Encoder>::wire(v.1);
        let w2 = <i8 as Encoder>::wire(v.2);
        let w3 = <i8 as Encoder>::wire(v.3);
        let w4 = <bool as Encoder>::wire(v.4);
        assert(s =~= w0 + (w1 + w2 + w3 + w4 + rest));
        lemma_field_round_trip::<VarInt>(v.0, w1 + w2 + w3 + w4 + rest, "entity_id");
        assert(s.skip((w0.len()) as int) =~= w1 + (w2 + w3 + w4 + rest));
        lemma_field_round_trip::<i8>(v.1, w2 + w3 + w4 + rest, "delta_x");
        assert(s.skip((w0.len() + w1.len()) as int) =~= w2 + (w3 + w4 + rest));
        lemma_field_round_trip::<i8>(v.2, w3 + w4 + rest, "delta_y");
        assert(s.skip((w0.len() + w1.len() + w2.len()) as int) =~= w3 + (w4 + rest));
        lemma_field_round_trip::<i8>(v.3, w4 + rest, "delta_z");
        assert(s.skip((w0.len() + w1.len() + w2.len() + w3.len()) as int) =~= w4 + (rest));
        lemma_field_round_trip::<bool>(v.4, rest, "on_ground");
    }
}

impl Packet for EntityRelativeMove {
    open spec fn key() -> (u32, When, Direction) {
        (0x15, When::Play, Direction::ToClient)
    }

    fn id(&self) -> (r: u32) {
        0x15
    }

    fn when(&self) -> (r: When) {
        When::Play
    }

    fn direction(&self) -> (r: Direction) {
        Direction::ToClient
    }
}

/// The server closed the connection.
#[derive(Debug, Clone, PartialEq)]
pub struct Disconnect {
    pub reason: String,
}

impl View for Disconnect {
    type V = Seq<char>;

    open spec fn view(&self) -> Seq<char> {
        self.reason@
    }
}

impl Encoder for Disconnect {
    open spec fn wire(v: Seq<char>) -> Seq<u8> {
        <String as Encoder>::wire(v)
    }

    fn encode(&self, out: &mut Vec<u8>) -> (n: usize) {
        let ghost start = out@;
        let before = out.len();
        self.reason.encode(out);
        assert(out@ =~= start + Self::wire(self@));
        out.len() - before
    }
}

impl Decoder for Disconnect {
    open spec fn parse(s: Seq<u8>) -> Result<(Seq<char>, nat), CodecError> {
        match parse_field::<String>(s, "reason") {
            Err(e) => Err(e),
            Ok((a0, n0)) => Ok((a0, (n0) as nat)),
        }
    }

    fn decode(buf: &[u8], pos: &mut usize) -> (r: Result<Disconnect, CodecError>) {
        let ghost s = buf@.subrange(*old(pos) as int, buf@.len() as int);
        let start = *pos;
        let reason = match decode_field::<String>(buf, pos, "reason") {
            Ok(v) => v,
            Err(e) => return Err(e),
        };
        Ok(Disconnect { reason })
    }
}

impl Codec for Disconnect {
    open spec fn fits(v: Seq<char>) -> bool {
        <String as Codec>::fits(v)
    }

    proof fn lemma_round_trip(v: Seq<char>, rest: Seq<u8>) {
        let s = Self::wire(v) + rest;
        let w0 = <String as Encoder>::wire(v);
        assert(s =~= w0 + (rest));
        lemma_field_round_trip::<String>(v, rest, "reason");
    }
}

impl Packet for Disconnect {
    open spec fn key() -> (u32, When, Direction) {
        (0x40, When::Play, Direction::ToClient)
    }

    fn id(&self) -> (r: u32) {
        0x40
    }

    fn when(&self) -> (r: When) {
        When::Play
    }

    fn direction(&self) -> (r: Direction) {
        Direction::ToClient
    }
}

} // verus!
