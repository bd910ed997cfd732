use gyra::coding::{Decoder, Encoder};
use gyra::error::{CodecError, VarIntError};
use gyra::packets::JoinGame;
use gyra::varint::VarInt;

fn decode_all(bytes: &[u8]) -> Result<(VarInt, usize), CodecError> {
    let mut pos = 0usize;
    VarInt::decode(bytes, &mut pos).map(|v| (v, pos))
}

#[test]
fn test_varint_ed() {
    let mut buffer = Vec::new();
    let value = VarInt(0x7F);
    value.encode(&mut buffer);
    assert_eq!(buffer, [0x7F]);

    let decoded = VarInt::decode(buffer.as_slice(), &mut 0).unwrap();
    assert_eq!(decoded, value);

    let mut buffer = Vec::new();
    let value = VarInt(0x3FFF);
    value.encode(&mut buffer);
    assert_eq!(buffer, [0xFF, 0x7F]);

    let decoded = VarInt::decode(buffer.as_slice(), &mut 0).unwrap();
    assert_eq!(decoded, value);

    let mut buffer = Vec::new();
    let value = VarInt(0x1FFFFF);
    value.encode(&mut buffer);
    assert_eq!(buffer, [0xFF, 0xFF, 0x7F]);

    let decoded = VarInt::decode(buffer.as_slice(), &mut 0).unwrap();
    assert_eq!(decoded, value);

    let mut buffer = Vec::new();
    let value = VarInt(0xFFFFFFF);
    value.encode(&mut buffer);
    assert_eq!(buffer, [0xFF, 0xFF, 0xFF, 0x7F]);

    let decoded = VarInt::decode(buffer.as_slice(), &mut 0).unwrap();
    assert_eq!(decoded, value);

    let mut buffer = Vec::new();
    let value = VarInt(0x0);
    value.encode(&mut buffer);
    assert_eq!(buffer, [0x00]);

    let decoded = VarInt::decode(buffer.as_slice(), &mut 0).unwrap();
    assert_eq!(decoded, value);
}

#[test]
fn var_int_de() {
    let mut buffer = Vec::new();
    let value = VarInt(69420);
    value.encode(&mut buffer);
    buffer.extend_from_slice(b"hello world");

    let buffer = buffer.as_slice();
    let decoded = VarInt::decode(buffer, &mut 0).unwrap();
    assert_eq!(decoded, value);
}

#[test]
fn varint_round_trip_edges() {
    for v in [0, 1, -1, 127, 128, 255, 25565, i32::MAX, i32::MIN, -2147483647] {
        let mut out = Vec::new();
        let n = VarInt(v).encode(&mut out);
        assert_eq!(n, out.len());
        assert!(n >= 1 && n <= 5);
        out.push(0xAA);
        let (d, used) = decode_all(&out).unwrap();
        assert_eq!(d, VarInt(v));
        assert_eq!(used, n);
    }
    let mut out = Vec::new();
    VarInt(-1).encode(&mut out);
    assert_eq!(out, [0xFF, 0xFF, 0xFF, 0xFF, 0x0F]);
}

#[test]
fn varint_scenario_values() {
    assert_eq!(decode_all(&[0xFF, 0x01]).unwrap(), (VarInt(255), 2));
    assert_eq!(decode_all(&[0x80, 0x01]).unwrap(), (VarInt(128), 2));
    assert_eq!(decode_all(&[0x00]).unwrap(), (VarInt(0), 1));
    assert_eq!(decode_all(&[0xFF, 0x7F]).unwrap(), (VarInt(16383), 2));
    assert_eq!(decode_all(&[0xFF, 0xFF, 0xFF, 0xFF, 0x07]).unwrap(), (VarInt(i32::MAX), 5));
    assert_eq!(decode_all(&[0xFF, 0xFF, 0xFF, 0xFF, 0x0F]).unwrap(), (VarInt(-1), 5));
}

#[test]
fn varint_too_big() {
    let r = decode_all(&[0x80, 0x80, 0x80, 0x80, 0x80, 0x01]);
    assert!(matches!(r, Err(CodecError::VarInt(VarIntError::TooBig))));
    let r = decode_all(&[0xFF, 0xFF, 0xFF, 0xFF, 0xFF, 0xFF, 0xFF]);
    assert!(matches!(r, Err(CodecError::VarInt(VarIntError::TooBig))));
}

#[test]
fn varint_truncated_input() {
    assert!(matches!(decode_all(&[]), Err(CodecError::UnexpectedEof)));
    assert!(matches!(decode_all(&[0x80, 0x80]), Err(CodecError::UnexpectedEof)));
}

#[test]
fn integers_are_big_endian() {
    let mut out = Vec::new();
    0x1234u16.encode(&mut out);
    (-2i32).encode(&mut out);
    0x0102030405060708u64.encode(&mut out);
    (-1i8).encode(&mut out);
    assert_eq!(
        out,
        [0x12, 0x34, 0xFF, 0xFF, 0xFF, 0xFE, 1, 2, 3, 4, 5, 6, 7, 8, 0xFF]
    );
    let mut pos = 0;
    assert_eq!(u16::decode(&out, &mut pos).unwrap(), 0x1234);
    assert_eq!(i32::decode(&out, &mut pos).unwrap(), -2);
    assert_eq!(u64::decode(&out, &mut pos).unwrap(), 0x0102030405060708);
    assert_eq!(i8::decode(&out, &mut pos).unwrap(), -1);
    assert_eq!(pos, out.len());
    assert!(matches!(i64::decode(&out, &mut 0usize.clone()), Ok(_)));
    assert!(matches!(u32::decode(&[1, 2, 3], &mut 0), Err(CodecError::UnexpectedEof)));
}

#[test]
fn booleans() {
    let mut out = Vec::new();
    true.encode(&mut out);
    false.encode(&mut out);
    assert_eq!(out, [1, 0]);
    assert!(bool::decode(&[7], &mut 0).unwrap());
    assert!(!bool::decode(&[0], &mut 0).unwrap());
    assert!(matches!(bool::decode(&[], &mut 0), Err(CodecError::UnexpectedEof)));
}

#[test]
fn strings_round_trip_and_fail() {
    let mut out = Vec::new();
    let n = String::from("héllo").encode(&mut out);
    assert_eq!(n, 7);
    assert_eq!(out[0], 6);
    let mut pos = 0;
    assert_eq!(String::decode(&out, &mut pos).unwrap(), "héllo");
    assert_eq!(pos, 7);
    // invalid UTF-8
    assert!(matches!(String::decode(&[2, 0xC3, 0x28], &mut 0), Err(CodecError::Utf8)));
    // negative length
    assert!(matches!(
        String::decode(&[0xFF, 0xFF, 0xFF, 0xFF, 0x0F], &mut 0),
        Err(CodecError::InvalidData)
    ));
    // too short
    assert!(matches!(String::decode(&[5, b'a'], &mut 0), Err(CodecError::UnexpectedEof)));
}

#[test]
fn field_errors_carry_the_field_name() {
    // entity_id, game_mode, dimension, difficulty, max_players, then a cut string
    let bytes = [0, 0, 0, 1, 1, 0, 2, 20, 9, b'd'];
    match JoinGame::decode(&bytes, &mut 0) {
        Err(CodecError::CantParseField { field, source }) => {
            assert_eq!(field, "level_type");
            assert!(matches!(*source, CodecError::UnexpectedEof));
        }
        other => panic!("unexpected {:?}", other),
    }
}
