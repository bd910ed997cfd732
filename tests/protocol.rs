use gyra::chunk_packets::ChunkData;
use gyra::error::CodecError;
use gyra::handler::{
    chat_text, client_packet, may_receive, on_frame_error, on_packet_error, ClientMessage,
    ReceiveAction, ServerMessage, Session,
};
use gyra::network::{poll_packet, put, put_data, put_uncompressed, read_frame};
use gyra::packet::{Direction, When};
use gyra::packets::{
    ChatMessage, Handshake, JoinGame, KeepAlive, LoginSuccess, PingPong, PlayerPositionAndLook,
    SendChatMessage, ServerKeepAlive, SetCompression, StatusRequest, StatusResponse,
};
use gyra::proto::Proto;
use gyra::varint::VarInt;

fn round_trip(p: Proto, when: When, direction: Direction) {
    let mut body = Vec::new();
    p.encode(&mut body).unwrap();
    body.extend_from_slice(&[0xEE, 0xEE]);
    let mut pos = 0;
    let back = Proto::decode(p.id(), when, direction, &body, &mut pos).unwrap();
    assert_eq!(back, p);
    assert_eq!(pos, body.len() - 2);
}

#[test]
fn packets_round_trip() {
    round_trip(
        Proto::Handshake(Handshake::login_handshake("example.org", 25565)),
        When::Handshake,
        Direction::ToServer,
    );
    round_trip(
        Proto::JoinGame(JoinGame {
            entity_id: -5,
            game_mode: 1,
            dimension: -1,
            difficulty: 2,
            max_players: 20,
            level_type: "default".to_string(),
            reduced_debug_info: true,
        }),
        When::Play,
        Direction::ToClient,
    );
    round_trip(
        Proto::ChatMessage(ChatMessage { content: "{\"text\":\"hi\"}".to_string(), position: 1 }),
        When::Play,
        Direction::ToClient,
    );
    round_trip(
        Proto::PlayerPositionAndLook(PlayerPositionAndLook {
            x: 1.5f64.to_bits(),
            y: 64.0f64.to_bits(),
            z: (-3.25f64).to_bits(),
            yaw: 90.0f32.to_bits(),
            pitch: (-10.0f32).to_bits(),
            flags: 3,
        }),
        When::Play,
        Direction::ToClient,
    );
    round_trip(
        Proto::LoginSuccess(LoginSuccess { uuid: "u-1".to_string(), username: "Gyra".to_string() }),
        When::Login,
        Direction::ToClient,
    );
    round_trip(Proto::StatusRequest(StatusRequest {}), When::Status, Direction::ToServer);
    round_trip(Proto::PingPong(PingPong::new(1234567)), When::Status, Direction::ToServer);
}

#[test]
fn same_id_other_phase_or_direction() {
    let body = [0x05u8];
    let mut pos = 0;
    let p = Proto::decode(0, When::Play, Direction::ToClient, &body, &mut pos).unwrap();
    assert_eq!(p, Proto::KeepAlive(KeepAlive { id: VarInt(5) }));
    let p = Proto::decode(0, When::Play, Direction::ToServer, &body, &mut 0).unwrap();
    assert_eq!(p, Proto::ServerKeepAlive(ServerKeepAlive { id: VarInt(5) }));
    let p = Proto::decode(3, When::Login, Direction::ToClient, &body, &mut 0).unwrap();
    assert_eq!(p, Proto::SetCompression(SetCompression { threshold: VarInt(5) }));
}

#[test]
fn unknown_packet_is_illegal() {
    let r = Proto::decode(0x7A, When::Play, Direction::ToClient, &[1, 2], &mut 0);
    assert!(matches!(r, Err(CodecError::IllegalPacket(0x7A, When::Play))));
}

#[test]
fn server_only_packets_refuse_to_encode() {
    let d = Proto::ChunkData(ChunkData {
        x: 0,
        z: 0,
        full_chunk: false,
        primary_bit_mask: 0,
        chunk_size: VarInt(0),
        sections: vec![None; 16],
        biomes: vec![],
    });
    let mut out = vec![9u8];
    assert!(matches!(d.encode(&mut out), Err(CodecError::Unsupported)));
    assert!(matches!(d.put(&mut out, None), Err(CodecError::Unsupported)));
    assert_eq!(out, vec![9u8]);
}

#[test]
fn uncompressed_frame_round_trip() {
    let mut out = Vec::new();
    let p = SendChatMessage { content: "hello".to_string() };
    let n = put_uncompressed(&mut out, &p);
    assert_eq!(out, [7, 0x01, 5, b'h', b'e', b'l', b'l', b'o']);
    assert_eq!(n, out.len());
    out.push(0x42);
    let (data, used) = read_frame(&out, false).unwrap();
    assert_eq!(used, 8);
    assert_eq!(data, [0x01, 5, b'h', b'e', b'l', b'l', b'o']);
}

#[test]
fn compression_threshold_small_packet() {
    let body: Vec<u8> = (0..100u8).collect();
    let mut out = Vec::new();
    let n = put_data(&mut out, &body, Some(256)).unwrap();
    assert_eq!(n, 102);
    assert_eq!(out[0], 101);
    assert_eq!(out[1], 0);
    assert_eq!(&out[2..], &body[..]);
    let (data, used) = read_frame(&out, true).unwrap();
    assert_eq!(used, out.len());
    assert_eq!(data, body);
}

#[test]
fn compression_threshold_large_packet() {
    let body: Vec<u8> = (0..1000u32).map(|i| (i % 7) as u8).collect();
    let mut out = Vec::new();
    put_data(&mut out, &body, Some(256)).unwrap();
    let mut pos = 0;
    let outer = VarInt::decode(&out, &mut pos).unwrap().0 as usize;
    assert_eq!(outer, out.len() - pos);
    let inner = VarInt::decode(&out, &mut pos).unwrap();
    assert_eq!(inner, VarInt(1000));
    assert!(out.len() < 1000);
    assert_ne!(&out[pos..], &body[..out.len() - pos]);
    let (data, used) = read_frame(&out, true).unwrap();
    assert_eq!(used, out.len());
    assert_eq!(data, body);
}

#[test]
fn corrupt_compressed_frame() {
    // outer length 4, inner length 10, then bytes that are no zlib stream
    let frame = [4u8, 10, 1, 2, 3];
    assert!(matches!(read_frame(&frame, true), Err(CodecError::InvalidData)));
    assert!(matches!(read_frame(&[5u8, 1, 2], false), Err(CodecError::UnexpectedEof)));
}

#[test]
fn handshake_status_round_trip() {
    let mut out = Vec::new();
    let hs = Handshake::status_handshake("localhost", 25565);
    assert_eq!(hs.protocol_version, VarInt(47));
    assert_eq!(hs.next_state, VarInt(1));
    put(&mut out, &hs, None).unwrap();
    put(&mut out, &StatusRequest {}, None).unwrap();
    let (first, used) = read_frame(&out, false).unwrap();
    let mut pos = 1;
    let back = Proto::decode(0, When::Handshake, Direction::ToServer, &first, &mut pos).unwrap();
    assert_eq!(back, Proto::Handshake(hs));
    let (second, _) = read_frame(&out[used..], false).unwrap();
    assert_eq!(second, [0]);

    // what a server answers
    let mut reply = Vec::new();
    put(&mut reply, &StatusResponse { json_response: "{\"version\":47}".to_string() }, None).unwrap();
    put(&mut reply, &PingPong::new(99), None).unwrap();
    let (p, used) = poll_packet(&reply, false, When::Status).unwrap();
    assert_eq!(
        p,
        Proto::StatusResponse(StatusResponse { json_response: "{\"version\":47}".to_string() })
    );
    let (q, _) = poll_packet(&reply[used..], false, When::Status).unwrap();
    assert_eq!(q, Proto::PingPong(PingPong { payload: 99 }));
}

#[test]
fn keep_alive_is_echoed() {
    let mut session = Session::new();
    session.state = When::Play;
    let mut events = Vec::new();
    let mut outgoing = Vec::new();
    session.handle(Proto::KeepAlive(KeepAlive { id: VarInt(0xCAFE) }), &mut events, &mut outgoing);
    assert_eq!(outgoing, vec![Proto::ServerKeepAlive(ServerKeepAlive { id: VarInt(0xCAFE) })]);
    assert!(events.is_empty());
}

#[test]
fn login_sequence_updates_session() {
    let mut session = Session::new();
    let mut events = Vec::new();
    let mut outgoing = Vec::new();
    session.handle(
        Proto::SetCompression(SetCompression { threshold: VarInt(256) }),
        &mut events,
        &mut outgoing,
    );
    assert_eq!(session.threshold, Some(256));
    session.handle(
        Proto::LoginSuccess(LoginSuccess { uuid: "x".to_string(), username: "y".to_string() }),
        &mut events,
        &mut outgoing,
    );
    assert_eq!(session.state, When::Play);
    session.handle(
        Proto::ChatMessage(ChatMessage { content: "hey".to_string(), position: 0 }),
        &mut events,
        &mut outgoing,
    );
    assert_eq!(events, vec![ServerMessage::ChatMessage { message: "hey".to_string() }]);
    assert!(outgoing.is_empty());
    assert!(may_receive(199));
    assert!(!may_receive(200));
}

#[test]
fn frame_through_poll_with_compression() {
    let mut out = Vec::new();
    let p = KeepAlive { id: VarInt(77) };
    put(&mut out, &p, Some(64)).unwrap();
    assert_eq!(out, [3, 0, 0, 77]);
    let (back, used) = poll_packet(&out, true, When::Play).unwrap();
    assert_eq!(used, 4);
    assert_eq!(back, Proto::KeepAlive(p));
}

#[test]
fn chat_is_trimmed_and_cut() {
    assert_eq!(chat_text("  hello \n"), "hello");
    let long: String = std::iter::repeat('é').take(150).collect();
    let cut = chat_text(&long);
    assert_eq!(cut.chars().count(), 100);
    assert_eq!(chat_text(""), "");
    match client_packet(&ClientMessage::ChatMessage { message: format!(" {} ", long) }) {
        Proto::SendChatMessage(p) => assert_eq!(p.content.chars().count(), 100),
        other => panic!("unexpected {:?}", other),
    }
    assert_eq!(
        client_packet(&ClientMessage::Look { yaw: 1, pitch: 2, on_ground: true }),
        Proto::PlayerLook(gyra::packets::PlayerLook { yaw: 1, pitch: 2, on_ground: true })
    );
}

#[test]
fn compressed_chat_packet_round_trip() {
    let p = SendChatMessage { content: "a".repeat(997) };
    let mut out = Vec::new();
    let n = gyra::network::put_compressed(&mut out, &p, 256).unwrap();
    assert_eq!(n, out.len());
    let mut pos = 0;
    let outer = VarInt::decode(&out, &mut pos).unwrap().0 as usize;
    assert_eq!(outer, out.len() - pos);
    assert_eq!(&out[pos..pos + 2], &[0xE8, 0x07]);
    let (data, _) = read_frame(&out, true).unwrap();
    assert_eq!(data.len(), 1000);
    assert_eq!(&data[..3], &[0x01, 0xE5, 0x07]);
    // the packet travels to the server, so it is read back under that direction
    let (frame, used) = read_frame(&out, true).unwrap();
    assert_eq!(used, out.len());
    let back = gyra::network::decode_packet(&frame, When::Play, Direction::ToServer).unwrap();
    assert_eq!(back, Proto::SendChatMessage(p));
}

#[test]
fn varint_error_leaves_position() {
    let mut pos = 1usize;
    let r = VarInt::decode(&[0x00, 0x80, 0x80], &mut pos);
    assert!(matches!(r, Err(CodecError::UnexpectedEof)));
    assert_eq!(pos, 1);
    let mut pos = 0usize;
    let r = VarInt::decode(&[0xFF; 8], &mut pos);
    assert!(matches!(r, Err(CodecError::VarInt(_))));
    assert_eq!(pos, 0);
}

#[test]
fn receive_error_policy() {
    assert_eq!(on_frame_error(&CodecError::UnexpectedEof), ReceiveAction::Wait);
    assert_eq!(on_frame_error(&CodecError::InvalidData), ReceiveAction::Disconnect);
    assert_eq!(on_packet_error(&CodecError::IllegalPacket(0x70, When::Play)), ReceiveAction::Drop);
    let field = CodecError::CantParseField { field: "id", source: Box::new(CodecError::UnexpectedEof) };
    assert_eq!(on_packet_error(&field), ReceiveAction::EndTick);
    assert_eq!(on_packet_error(&CodecError::Utf8), ReceiveAction::Disconnect);
    assert_eq!(on_packet_error(&CodecError::UnexpectedEof), ReceiveAction::Disconnect);
}
