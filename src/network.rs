use vstd::prelude::*;

use crate::coding::{copy_bytes, length_prefix, prefix_for, push_all, Encoder};
use crate::error::CodecError;
use crate::packet::{Direction, Packet, When};
use crate::proto::{lemma_proto_round_trip, parse_proto, proto_fits, proto_wire, view_key, Proto, ProtoView};
use crate::varint::{
    lemma_parse_varint_len, lemma_signed_unsigned, lemma_varint_round_trip, parse_varint, signed_of,
    unsigned_of, varint_wire, VarInt,
};
use crate::zlib::{inflate_of, zlib_compress, zlib_inflate, zlib_of};

verus! {

/// The bytes of a packet inside a frame: its id, then its body.
pub open spec fn packet_bytes(id: u32, body: Seq<u8>) -> Seq<u8> {
    varint_wire(signed_of(id)) + body
}

/// A frame without compression: length, then the packet bytes.
pub open spec fn frame_plain(data: Seq<u8>) -> Seq<u8> {
    varint_wire(length_prefix(data.len())) + data
}

/// A frame of a compressing connection that carries its packet bytes as
/// they are, marked by an uncompressed length of zero.
pub open spec fn frame_marked(data: Seq<u8>) -> Seq<u8> {
    varint_wire(length_prefix(data.len() + 1)) + varint_wire(0) + data
}

/// A frame carrying the zlib stream of the packet bytes after their length.
pub open spec fn frame_zlib(data: Seq<u8>) -> Seq<u8> {
    let inner = varint_wire(length_prefix(data.len())) + zlib_of(data);
    varint_wire(length_prefix(inner.len())) + inner
}

/// The frame sent for packet bytes `data` under a compression threshold:
/// none, below the threshold, or at or above it.
pub open spec fn frame_for(data: Seq<u8>, threshold: Option<u32>) -> Seq<u8> {
    match threshold {
        None => frame_plain(data),
        Some(t) => if data.len() < t {
            frame_marked(data)
        } else {
            frame_zlib(data)
        },
    }
}

/// Reading one frame from the front of `s`: the packet bytes it carries and
/// the bytes it took. With compression on, an inner length of zero means the
/// rest is the packet as it is; any other value is the length that the zlib
/// stream must inflate to.
pub open spec fn parse_frame(s: Seq<u8>, compression: bool) -> Result<(Seq<u8>, nat), CodecError> {
    match parse_varint(s) {
        Err(e) => Err(e),
        Ok((len, k)) => if len < 0 {
            Err(CodecError::InvalidData)
        } else if s.len() < k + len {
            Err(CodecError::UnexpectedEof)
        } else {
            let payload = s.subrange(k as int, k + len);
            if !compression {
                Ok((payload, (k + len) as nat))
            } else {
                match parse_varint(payload) {
                    Err(e) => Err(e),
                    Ok((ulen, j)) => if ulen == 0 {
                        Ok((payload.skip(j as int), (k + len) as nat))
                    } else {
                        match inflate_of(payload.skip(j as int)) {
                            None => Err(CodecError::InvalidData),
                            Some(d) => if d.len() != ulen {
                                Err(CodecError::InvalidData)
                            } else {
                                Ok((d, (k + len) as nat))
                            },
                        }
                    },
                }
            }
        },
    }
}

/// Decoding packet bytes: the id, then the body of the packet registered
/// under it for the phase and direction.
pub open spec fn parse_packet(data: Seq<u8>, when: When, direction: Direction) -> Result<
    ProtoView,
    CodecError,
> {
    match parse_varint(data) {
        Err(e) => Err(e),
        Ok((id, k)) => match parse_proto(unsigned_of(id), when, direction, data.skip(k as int)) {
            Ok((p, n)) => Ok(p),
            Err(e) => Err(e),
        },
    }
}

/// The id and body of `packet`.
fn packet_data<P: Packet + Encoder>(packet: &P) -> (r: Vec<u8>)
    ensures
        r@ == packet_bytes(P::key().0, P::wire(packet@)),
{
    let mut data: Vec<u8> = Vec::new();
    VarInt::from_u32(packet.id()).encode(&mut data);
    packet.encode(&mut data);
    data
}

fn put_frame_plain(out: &mut Vec<u8>, data: &Vec<u8>) -> (n: usize)
    ensures
        final(out)@ == old(out)@ + frame_plain(data@),
        n == frame_plain(data@).len(),
{
    let before = out.len();
    VarInt(prefix_for(data.len())).encode(out);
    push_all(out, data.as_slice());
    assert(out@ =~= old(out)@ + frame_plain(data@));
    out.len() - before
}

fn put_frame_marked(out: &mut Vec<u8>, data: &Vec<u8>) -> (n: usize)
    requires
        data@.len() < usize::MAX,
    ensures
        final(out)@ == old(out)@ + frame_marked(data@),
        n == frame_marked(data@).len(),
{
    let before = out.len();
    VarInt(prefix_for(data.len() + 1)).encode(out);
    VarInt(0).encode(out);
    push_all(out, data.as_slice());
    assert(out@ =~= old(out)@ + frame_marked(data@));
    out.len() - before
}

/// Writes `packet` as a frame without compression; returns the bytes written.
pub fn put_uncompressed<P: Packet + Encoder>(out: &mut Vec<u8>, packet: &P) -> (n: usize)
    ensures
        final(out)@ == old(out)@ + frame_plain(packet_bytes(P::key().0, P::wire(packet@))),
        n == frame_plain(packet_bytes(P::key().0, P::wire(packet@))).len(),
{
    let data = packet_data(packet);
    put_frame_plain(out, &data)
}

/// Writes `packet` uncompressed on a compressing connection, behind an
/// uncompressed length of zero; returns the bytes written.
pub fn put_compressed_uncompressed<P: Packet + Encoder>(out: &mut Vec<u8>, packet: &P) -> (n: usize)
    requires
        packet_bytes(P::key().0, P::wire(packet@)).len() < usize::MAX,
    ensures
        final(out)@ == old(out)@ + frame_marked(packet_bytes(P::key().0, P::wire(packet@))),
        n == frame_marked(packet_bytes(P::key().0, P::wire(packet@))).len(),
{
    let data = packet_data(packet);
    put_frame_marked(out, &data)
}

/// Writes the frame for packet bytes `data` under `threshold`.
pub fn put_data(out: &mut Vec<u8>, data: &Vec<u8>, threshold: Option<u32>) -> (r: Result<
    usize,
    CodecError,
>)
    requires
        data@.len() < usize::MAX,
    ensures
        r is Ok,
        final(out)@ == old(out)@ + frame_for(data@, threshold),
        r->Ok_0 == frame_for(data@, threshold).len(),
        (threshold matches Some(t) && data@.len() >= t) ==> inflate_of(zlib_of(data@)) == Some(data@),
{
    match threshold {
        None => Ok(put_frame_plain(out, data)),
        Some(t) => {
            if (data.len() as u64) < (t as u64) {
                return Ok(put_frame_marked(out, data));
            }
            let compressed = match zlib_compress(data.as_slice()) {
                Some(c) => c,
                None => return Err(CodecError::InvalidData),
            };
            let mut inner: Vec<u8> = Vec::new();
            VarInt(prefix_for(data.len())).encode(&mut inner);
            push_all(&mut inner, compressed.as_slice());
            let before = out.len();
            VarInt(prefix_for(inner.len())).encode(out);
            push_all(out, inner.as_slice());
            assert(out@ =~= old(out)@ + frame_zlib(data@));
            Ok(out.len() - before)
        },
    }
}

/// Writes `packet` on a compressing connection: as it is below `threshold`,
/// compressed from it on.
pub fn put_compressed<P: Packet + Encoder>(out: &mut Vec<u8>, packet: &P, threshold: u32) -> (r:
    Result<usize, CodecError>)
    requires
        packet_bytes(P::key().0, P::wire(packet@)).len() < usize::MAX,
    ensures
        r is Ok,
        final(out)@ == old(out)@ + frame_for(
            packet_bytes(P::key().0, P::wire(packet@)),
            Some(threshold),
        ),
        r->Ok_0 == frame_for(packet_bytes(P::key().0, P::wire(packet@)), Some(threshold)).len(),
        packet_bytes(P::key().0, P::wire(packet@)).len() >= threshold ==> inflate_of(
            zlib_of(packet_bytes(P::key().0, P::wire(packet@))),
        ) == Some(packet_bytes(P::key().0, P::wire(packet@))),
{
    let data = packet_data(packet);
    put_data(out, &data, Some(threshold))
}

/// Writes `packet` as a frame: with compression when a threshold is set.
pub fn put<P: Packet + Encoder>(out: &mut Vec<u8>, packet: &P, threshold: Option<u32>) -> (r: Result<
    usize,
    CodecError,
>)
    requires
        packet_bytes(P::key().0, P::wire(packet@)).len() < usize::MAX,
    ensures
        r is Ok,
        final(out)@ == old(out)@ + frame_for(packet_bytes(P::key().0, P::wire(packet@)), threshold),
        r->Ok_0 == frame_for(packet_bytes(P::key().0, P::wire(packet@)), threshold).len(),
        (threshold matches Some(t) && packet_bytes(P::key().0, P::wire(packet@)).len() >= t)
            ==> inflate_of(zlib_of(packet_bytes(P::key().0, P::wire(packet@)))) == Some(
            packet_bytes(P::key().0, P::wire(packet@)),
        ),
{
    let data = packet_data(packet);
    put_data(out, &data, threshold)
}

impl Proto {
    /// Writes the packet as a frame; the packets only a server sends are
    /// refused and nothing is written.
    pub fn put(&self, out: &mut Vec<u8>, threshold: Option<u32>) -> (r: Result<usize, CodecError>)
        requires
            proto_wire(self@) is Some ==> packet_bytes(self.key().0, proto_wire(self@)->Some_0).len()
                < usize::MAX,
        ensures
            proto_wire(self@) is None ==> r is Err && r->Err_0 == CodecError::Unsupported
                && final(out)@ == old(out)@,
            proto_wire(self@) is Some ==> {
                let data = packet_bytes(self.key().0, proto_wire(self@)->Some_0);
                &&& r is Ok
                &&& final(out)@ == old(out)@ + frame_for(data, threshold)
                &&& r->Ok_0 == frame_for(data, threshold).len()
                &&& (threshold matches Some(t) && data.len() >= t) ==> inflate_of(zlib_of(data))
                    == Some(data)
            },
    {
        match self {
            Proto::PingPong(p) => put(out, p, threshold),
            Proto::StatusRequest(p) => put(out, p, threshold),
            Proto::StatusResponse(p) => put(out, p, threshold),
            Proto::Handshake(p) => put(out, p, threshold),
            Proto::LoginStart(p) => put(out, p, threshold),
            Proto::LoginSuccess(p) => put(out, p, threshold),
            Proto::ServerKeepAlive(p) => put(out, p, threshold),
            Proto::SetCompression(p) => put(out, p, threshold),
            Proto::KeepAlive(p) => put(out, p, threshold),
            Proto::JoinGame(p) => put(out, p, threshold),
            Proto::ChatMessage(p) => put(out, p, threshold),
            Proto::EntityRelativeMove(p) => put(out, p, threshold),
            Proto::Entity(p) => put(out, p, threshold),
            Proto::Disconnect(p) => put(out, p, threshold),
            Proto::LoginDisconnect(p) => put(out, p, threshold),
            Proto::SendChatMessage(p) => put(out, p, threshold),
            Proto::PlayerLook(p) => put(out, p, threshold),
            Proto::ChunkData(_) => Err(CodecError::Unsupported),
            Proto::MapChunkBulk(_) => Err(CodecError::Unsupported),
            Proto::PlayerPositionAndLook(p) => put(out, p, threshold),
            Proto::PlayerPosition(p) => put(out, p, threshold),
        }
    }
}

/// Reads one frame from the front of `buf`: the packet bytes it carries and
/// the number of bytes it took.
pub fn read_frame(buf: &[u8], compression: bool) -> (r: Result<(Vec<u8>, usize), CodecError>)
    ensures
        match parse_frame(buf@, compression) {
            Ok((d, n)) => r is Ok && r->Ok_0.0@ == d && r->Ok_0.1 == n,
            Err(e) => r is Err && r->Err_0 == e,
        },
{
    let mut pos: usize = 0;
    assert(buf@.subrange(0, buf@.len() as int) =~= buf@);
    let len = match VarInt::decode(buf, &mut pos) {
        Ok(v) => v.0,
        Err(e) => return Err(e),
    };
    proof {
        lemma_parse_varint_len(buf@);
    }
    if len < 0 {
        return Err(CodecError::InvalidData);
    }
    let l = len as usize;
    if buf.len() - pos < l {
        return Err(CodecError::UnexpectedEof);
    }
    let payload = copy_bytes(buf, pos, l);
    let end = pos + l;
    if !compression {
        return Ok((payload, end));
    }
    let mut p2: usize = 0;
    assert(payload@.subrange(0, payload@.len() as int) =~= payload@);
    let ulen = match VarInt::decode(payload.as_slice(), &mut p2) {
        Ok(v) => v.0,
        Err(e) => return Err(e),
    };
    proof {
        lemma_parse_varint_len(payload@);
    }
    let rest = copy_bytes(payload.as_slice(), p2, payload.len() - p2);
    assert(rest@ =~= payload@.skip(p2 as int));
    if ulen == 0 {
        return Ok((rest, end));
    }
    match zlib_inflate(rest.as_slice()) {
        None => Err(CodecError::InvalidData),
        Some(d) => {
            if ulen < 0 || d.len() as u64 != ulen as u64 {
                Err(CodecError::InvalidData)
            } else {
                Ok((d, end))
            }
        },
    }
}

/// Decodes packet bytes: the id, then the body under the phase and direction.
pub fn decode_packet(data: &[u8], when: When, direction: Direction) -> (r: Result<Proto, CodecError>)
    ensures
        match parse_packet(data@, when, direction) {
            Ok(v) => r is Ok && r->Ok_0@ == v,
            Err(e) => r is Err && r->Err_0 == e,
        },
{
    let mut pos: usize = 0;
    assert(data@.subrange(0, data@.len() as int) =~= data@);
    let id = match VarInt::decode(data, &mut pos) {
        Ok(v) => v,
        Err(e) => return Err(e),
    };
    proof {
        lemma_parse_varint_len(data@);
    }
    assert(data@.subrange(pos as int, data@.len() as int) =~= data@.skip(pos as int));
    Proto::decode(id.to_u32(), when, direction, data, &mut pos)
}

/// Reads one frame from the front of `buf` and decodes the packet it carries
/// as one sent to the client in phase `when`; also returns the bytes taken.
pub fn poll_packet(buf: &[u8], compression: bool, when: When) -> (r: Result<(Proto, usize), CodecError>)
    ensures
        match parse_frame(buf@, compression) {
            Err(e) => r is Err && r->Err_0 == e,
            Ok((d, n)) => match parse_packet(d, when, Direction::ToClient) {
                Ok(v) => r is Ok && r->Ok_0.0@ == v && r->Ok_0.1 == n,
                Err(e) => r is Err && r->Err_0 == e,
            },
        },
{
    let (data, n) = match read_frame(buf, compression) {
        Ok(x) => x,
        Err(e) => return Err(e),
    };
    match decode_packet(data.as_slice(), when, Direction::ToClient) {
        Ok(p) => Ok((p, n)),
        Err(e) => Err(e),
    }
}

/// Without compression, a frame reads back as the packet bytes it was
/// written from, and takes exactly its own length.
pub proof fn lemma_plain_frame_round_trip(data: Seq<u8>, rest: Seq<u8>)
    requires
        data.len() < 0x8000_0000,
    ensures
        parse_frame(frame_plain(data) + rest, false) == Ok::<(Seq<u8>, nat), CodecError>(
            (data, frame_plain(data).len()),
        ),
{
    let p = length_prefix(data.len());
    assert(p == data.len());
    let s = frame_plain(data) + rest;
    assert(s =~= varint_wire(p) + (data + rest));
    lemma_varint_round_trip(p, data + rest);
    let k = varint_wire(p).len();
    assert(s.subrange(k as int, k + p) =~= data);
}

/// With compression on and packet bytes shorter than the threshold, the
/// frame is the marked one: its length, an uncompressed length of zero, and
/// the packet bytes as they are; it reads back as those packet bytes.
pub proof fn lemma_marked_frame_round_trip(data: Seq<u8>, threshold: u32, rest: Seq<u8>)
    requires
        data.len() < threshold,
        data.len() + 1 < 0x8000_0000,
    ensures
        frame_for(data, Some(threshold)) == varint_wire(length_prefix(data.len() + 1)) + seq![0u8]
            + data,
        parse_frame(frame_for(data, Some(threshold)) + rest, true) == Ok::<(Seq<u8>, nat), CodecError>(
            (data, frame_for(data, Some(threshold)).len()),
        ),
{
    let p = length_prefix(data.len() + 1);
    assert(p == data.len() + 1);
    assert(varint_wire(0) =~= seq![0u8]);
    let payload = seq![0u8] + data;
    let s = frame_marked(data) + rest;
    assert(s =~= varint_wire(p) + (payload + rest));
    lemma_varint_round_trip(p, payload + rest);
    let k = varint_wire(p).len();
    assert(s.subrange(k as int, k + p) =~= payload);
    lemma_varint_round_trip(0, data);
    assert(payload =~= varint_wire(0) + data);
    assert(payload.skip(1) =~= data);
}

/// At or above the threshold, a frame carries the length of the packet bytes
/// and their zlib stream, and reads back as those packet bytes.
pub proof fn lemma_zlib_frame_round_trip(data: Seq<u8>, threshold: u32, rest: Seq<u8>)
    requires
        data.len() >= threshold,
        0 < data.len() < 0x8000_0000,
        zlib_of(data).len() + 5 < 0x8000_0000,
        inflate_of(zlib_of(data)) == Some(data),
    ensures
        frame_for(data, Some(threshold)) == frame_zlib(data),
        parse_frame(frame_for(data, Some(threshold)) + rest, true) == Ok::<(Seq<u8>, nat), CodecError>(
            (data, frame_for(data, Some(threshold)).len()),
        ),
{
    let z = zlib_of(data);
    let u = length_prefix(data.len());
    assert(u == data.len());
    lemma_varint_round_trip(u, z);
    let inner = varint_wire(u) + z;
    let p = length_prefix(inner.len());
    assert(p == inner.len());
    let s = frame_zlib(data) + rest;
    assert(s =~= varint_wire(p) + (inner + rest));
    lemma_varint_round_trip(p, inner + rest);
    let k = varint_wire(p).len();
    assert(s.subrange(k as int, k + p) =~= inner);
    assert(inner.skip(varint_wire(u).len() as int) =~= z);
}

/// A packet this client can encode, framed without compression and followed
/// by anything, reads back through the frame and the registry as itself.
pub proof fn lemma_uncompressed_poll_round_trip(v: ProtoView, rest: Seq<u8>)
    requires
        proto_fits(v),
        packet_bytes(view_key(v).0, proto_wire(v)->Some_0).len() < 0x8000_0000,
    ensures
        parse_frame(frame_plain(packet_bytes(view_key(v).0, proto_wire(v)->Some_0)) + rest, false)
            == Ok::<(Seq<u8>, nat), CodecError>(
            (
                packet_bytes(view_key(v).0, proto_wire(v)->Some_0),
                frame_plain(packet_bytes(view_key(v).0, proto_wire(v)->Some_0)).len(),
            ),
        ),
        parse_packet(packet_bytes(view_key(v).0, proto_wire(v)->Some_0), view_key(v).1, view_key(v).2)
            == Ok::<ProtoView, CodecError>(v),
{
    lemma_packet_round_trip(v, rest);
    lemma_plain_frame_round_trip(packet_bytes(view_key(v).0, proto_wire(v)->Some_0), rest);
}

/// Every packet that this client can encode, framed without compression,
/// reads back as itself under its own phase and direction.
#[verifier::rlimit(60)]
#[verifier::spinoff_prover]
pub proof fn lemma_packet_round_trip(v: ProtoView, rest: Seq<u8>)
    requires
        proto_fits(v),
    ensures
        proto_wire(v) is Some,
        parse_packet(packet_bytes(view_key(v).0, proto_wire(v)->Some_0), view_key(v).1, view_key(v).2)
            == Ok::<ProtoView, CodecError>(v),
{
    lemma_proto_round_trip(v, seq![]);
    let w = proto_wire(v)->Some_0;
    let id = view_key(v).0;
    lemma_signed_unsigned(0, id);
    lemma_varint_round_trip(signed_of(id), w);
    let d = packet_bytes(id, w);
    assert(d.skip(varint_wire(signed_of(id)).len() as int) =~= w);
    assert(w + seq![] =~= w);
}

} // verus!
