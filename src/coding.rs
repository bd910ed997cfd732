use vstd::prelude::*;
use vstd::utf8::{decode_utf8, encode_utf8, valid_utf8};

use crate::error::CodecError;
use crate::varint::{lemma_parse_varint_len, lemma_varint_round_trip, parse_varint, signed_of, varint_wire, VarInt};

verus! {

broadcast use vstd::utf8::group_utf8_lib;

/// A value with a wire encoding, stated over its view.
pub trait Encoder: View {
    /// The bytes that encode a value whose view is `v`.
    spec fn wire(v: Self::V) -> Seq<u8>;

    /// Appends the encoding to `out` and returns how many bytes it took.
    fn encode(&self, out: &mut Vec<u8>) -> (n: usize)
        ensures
            final(out)@ == old(out)@ + Self::wire(self@),
            n == Self::wire(self@).len(),
    ;
}

/// What a decoder returns, given what its spec parser yields on the bytes
/// from `start`, and where it leaves the read position.
pub open spec fn decode_result<T: View>(
    p: Result<(T::V, nat), CodecError>,
    r: Result<T, CodecError>,
    start: usize,
    end: usize,
) -> bool {
    match p {
        Ok((v, n)) => r is Ok && r->Ok_0@ == v && end == start + n,
        Err(e) => r is Err && r->Err_0 == e,
    }
}

/// A value that can be read from the front of a byte sequence.
pub trait Decoder: View + Sized {
    /// What decoding yields on `s`: the view of the value and the number of
    /// bytes consumed, or the error.
    spec fn parse(s: Seq<u8>) -> Result<(Self::V, nat), CodecError>;

    /// Decodes from `buf` at `*pos`, advancing `*pos` past the value.
    fn decode(buf: &[u8], pos: &mut usize) -> (r: Result<Self, CodecError>)
        requires
            *old(pos) <= buf@.len(),
        ensures
            decode_result::<Self>(
                Self::parse(buf@.subrange(*old(pos) as int, buf@.len() as int)),
                r,
                *old(pos),
                *final(pos),
            ),
            r is Ok ==> *final(pos) <= buf@.len(),
    ;
}

/// A value whose encoding decodes back to it.
pub trait Codec: Encoder + Decoder {
    /// The values whose encoding is faithful (strings short enough for their
    /// length prefix).
    spec fn fits(v: <Self as View>::V) -> bool;

    /// Decoding the encoding of `v`, whatever follows it, gives `v` back and
    /// consumes exactly the encoding.
    proof fn lemma_round_trip(v: <Self as View>::V, rest: Seq<u8>)
        requires
            Self::fits(v),
        ensures
            Self::parse(Self::wire(v) + rest) == Ok::<(<Self as View>::V, nat), CodecError>(
                (v, Self::wire(v).len()),
            ),
    ;
}

/// Parsing a named field of a packet: a failure is wrapped with the name.
pub open spec fn parse_field<T: Decoder>(s: Seq<u8>, name: &'static str) -> Result<
    (T::V, nat),
    CodecError,
> {
    match T::parse(s) {
        Ok(x) => Ok(x),
        Err(e) => Err(CodecError::CantParseField { field: name, source: Box::new(e) }),
    }
}

/// Decodes the field `name` of a packet.
pub fn decode_field<T: Decoder>(buf: &[u8], pos: &mut usize, name: &'static str) -> (r: Result<
    T,
    CodecError,
>)
    requires
        *old(pos) <= buf@.len(),
    ensures
        decode_result::<T>(
            parse_field::<T>(buf@.subrange(*old(pos) as int, buf@.len() as int), name),
            r,
            *old(pos),
            *final(pos),
        ),
        r is Ok ==> *final(pos) <= buf@.len(),
{
    match T::decode(buf, pos) {
        Ok(v) => Ok(v),
        Err(e) => Err(CodecError::CantParseField { field: name, source: Box::new(e) }),
    }
}

/// The round trip of one field inside a packet.
pub proof fn lemma_field_round_trip<T: Codec>(v: <T as View>::V, rest: Seq<u8>, name: &'static str)
    requires
        T::fits(v),
    ensures
        parse_field::<T>(T::wire(v) + rest, name) == Ok::<(<T as View>::V, nat), CodecError>(
            (v, T::wire(v).len()),
        ),
{
    T::lemma_round_trip(v, rest);
}

pub open spec fn pow256(n: nat) -> nat
    decreases n,
{
    if n == 0 {
        1
    } else {
        256 * pow256((n - 1) as nat)
    }
}

/// The `n` low bytes of `v`, most significant first.
pub open spec fn be_wire(v: nat, n: nat) -> Seq<u8>
    decreases n,
{
    if n == 0 {
        seq![]
    } else {
        be_wire(v / 256, (n - 1) as nat).push((v % 256) as u8)
    }
}

/// The number that the bytes of `s` spell, most significant first.
pub open spec fn be_value(s: Seq<u8>) -> nat
    decreases s.len(),
{
    if s.len() == 0 {
        0
    } else {
        be_value(s.drop_last()) * 256 + s.last() as nat
    }
}

/// Reading `n` big-endian bytes from the front of `s`.
pub open spec fn parse_be(s: Seq<u8>, n: nat) -> Result<(nat, nat), CodecError> {
    if s.len() < n {
        Err(CodecError::UnexpectedEof)
    } else {
        Ok((be_value(s.take(n as int)), n))
    }
}

/// The two's-complement bit pattern of `v` on `n` bytes.
pub open spec fn twos(v: int, n: nat) -> nat {
    if v >= 0 {
        v as nat
    } else {
        (v + pow256(n)) as nat
    }
}

/// The signed value of the `n`-byte bit pattern `u`.
pub open spec fn from_twos(u: nat, n: nat) -> int {
    if 2 * u < pow256(n) {
        u as int
    } else {
        u - pow256(n)
    }
}

proof fn lemma_be_round_trip(v: nat, n: nat)
    requires
        v < pow256(n),
    ensures
        be_wire(v, n).len() == n,
        be_value(be_wire(v, n)) == v,
    decreases n,
{
    if n > 0 {
        assert(v / 256 < pow256((n - 1) as nat)) by (nonlinear_arith)
            requires
                v < 256 * pow256((n - 1) as nat),
        ;
        lemma_be_round_trip(v / 256, (n - 1) as nat);
        let w = be_wire(v, n);
        assert(w.drop_last() =~= be_wire(v / 256, (n - 1) as nat));
        assert(v == (v / 256) * 256 + v % 256) by (nonlinear_arith);
    } else {
        reveal_with_fuel(pow256, 1);
    }
}

proof fn lemma_parse_be_round_trip(v: nat, n: nat, rest: Seq<u8>)
    requires
        v < pow256(n),
    ensures
        parse_be(be_wire(v, n) + rest, n) == Ok::<(nat, nat), CodecError>((v, n)),
{
    lemma_be_round_trip(v, n);
    assert((be_wire(v, n) + rest).take(n as int) =~= be_wire(v, n));
}

proof fn lemma_be_value_bound(s: Seq<u8>)
    ensures
        be_value(s) < pow256(s.len()),
    decreases s.len(),
{
    if s.len() > 0 {
        lemma_be_value_bound(s.drop_last());
        let a = be_value(s.drop_last());
        let p = pow256((s.len() - 1) as nat);
        assert(a * 256 + s.last() < 256 * p) by (nonlinear_arith)
            requires
                a < p,
                s.last() < 256,
        ;
    }
}

proof fn lemma_pow256_values()
    ensures
        pow256(1) == 0x100,
        pow256(2) == 0x1_0000,
        pow256(4) == 0x1_0000_0000,
        pow256(8) == 0x1_0000_0000_0000_0000,
{
    reveal_with_fuel(pow256, 9);
}

/// Appends the `n` low bytes of `v`, most significant first.
fn put_be(out: &mut Vec<u8>, v: u64, n: usize)
    requires
        n <= 8,
    ensures
        final(out)@ == old(out)@ + be_wire(v as nat, n as nat),
    decreases n,
{
    if n == 0 {
        assert(old(out)@ + be_wire(v as nat, 0) =~= old(out)@);
        return;
    }
    put_be(out, v / 256, n - 1);
    let ghost mid = out@;
    out.push((v % 256) as u8);
    assert(out@ =~= old(out)@ + be_wire(v as nat, n as nat));
}

/// Reads `n` big-endian bytes at `*pos`.
fn get_be(buf: &[u8], pos: &mut usize, n: usize) -> (r: Result<u64, CodecError>)
    requires
        n <= 8,
        *old(pos) <= buf@.len(),
    ensures
        match parse_be(buf@.subrange(*old(pos) as int, buf@.len() as int), n as nat) {
            Ok((v, k)) => r == Ok::<u64, CodecError>(v as u64) && *final(pos) == *old(pos) + k
                && *final(pos) <= buf@.len(),
            Err(e) => r == Err::<u64, CodecError>(e),
        },
{
    let ghost s = buf@.subrange(*old(pos) as int, buf@.len() as int);
    let start = *pos;
    if buf.len() - start < n {
        return Err(CodecError::UnexpectedEof);
    }
    let mut acc: u64 = 0;
    let mut i: usize = 0;
    proof {
        lemma_pow256_values();
    }
    while i < n
        invariant
            i <= n,
            n <= 8,
            start + n <= buf@.len(),
            buf@.len() <= usize::MAX,
            s == buf@.subrange(start as int, buf@.len() as int),
            acc == be_value(s.take(i as int)),
            acc < pow256(i as nat),
            pow256(8) == 0x1_0000_0000_0000_0000,
        decreases n - i,
    {
        let b = buf[start + i];
        proof {
            assert(s.take(i as int + 1).drop_last() =~= s.take(i as int));
            assert(pow256(i as nat + 1) == 256 * pow256(i as nat));
            assert(pow256(i as nat + 1) <= pow256(8)) by {
                lemma_pow256_mono((i + 1) as nat, 8);
            }
            assert(acc * 256 + b < 256 * pow256(i as nat)) by (nonlinear_arith)
                requires
                    acc < pow256(i as nat),
                    b < 256,
            ;
        }
        acc = acc * 256 + b as u64;
        i = i + 1;
    }
    *pos = start + n;
    assert(s.take(n as int) =~= s.take(i as int));
    Ok(acc)
}

proof fn lemma_pow256_mono(a: nat, b: nat)
    requires
        a <= b,
    ensures
        pow256(a) <= pow256(b),
    decreases b,
{
    if a < b {
        lemma_pow256_mono(a, (b - 1) as nat);
    }
}

/// Appends the bytes of `bytes`.
pub fn push_all(out: &mut Vec<u8>, bytes: &[u8])
    ensures
        final(out)@ == old(out)@ + bytes@,
{
    let ghost start = out@;
    let mut i: usize = 0;
    while i < bytes.len()
        invariant
            i <= bytes@.len(),
            out@ == start + bytes@.take(i as int),
        decreases bytes@.len() - i,
    {
        out.push(bytes[i]);
        i = i + 1;
        assert(out@ =~= start + bytes@.take(i as int));
    }
    assert(bytes@.take(i as int) =~= bytes@);
}

/// Copies `n` bytes of `buf` from `start`.
pub fn copy_bytes(buf: &[u8], start: usize, n: usize) -> (r: Vec<u8>)
    requires
        start + n <= buf@.len(),
    ensures
        r@ == buf@.subrange(start as int, start + n),
{
    let mut r: Vec<u8> = Vec::new();
    let mut i: usize = 0;
    let total = buf.len();
    while i < n
        invariant
            i <= n,
            total == buf@.len(),
            start + n <= buf@.len(),
            r@ == buf@.subrange(start as int, start + i),
        decreases n - i,
    {
        r.push(buf[start + i]);
        i = i + 1;
        assert(r@ =~= buf@.subrange(start as int, start + i));
    }
    r
}

impl Encoder for u8 {
    open spec fn wire(v: u8) -> Seq<u8> {
        be_wire(v as nat, 1)
    }

    fn encode(&self, out: &mut Vec<u8>) -> (n: usize) {
        proof {
            lemma_pow256_values();
            lemma_be_round_trip(*self as nat, 1);
        }
        let u: u64 = *self as u64;
        put_be(out, u, 1);
        1
    }
}

impl Decoder for u8 {
    open spec fn parse(s: Seq<u8>) -> Result<(u8, nat), CodecError> {
        match parse_be(s, 1) {
            Ok((v, k)) => Ok((v as u8, k)),
            Err(e) => Err(e),
        }
    }

    fn decode(buf: &[u8], pos: &mut usize) -> (r: Result<u8, CodecError>) {
        proof {
            lemma_pow256_values();
            lemma_be_value_bound(buf@.subrange(*old(pos) as int, buf@.len() as int).take(1));
        }
        match get_be(buf, pos, 1) {
            Ok(v) => Ok(v as u8),
            Err(e) => Err(e),
        }
    }
}

impl Codec for u8 {
    open spec fn fits(v: u8) -> bool {
        true
    }

    proof fn lemma_round_trip(v: u8, rest: Seq<u8>) {
        lemma_pow256_values();
        lemma_parse_be_round_trip(v as nat, 1, rest);
        lemma_be_round_trip(v as nat, 1);
    }
}

impl Encoder for u16 {
    open spec fn wire(v: u16) -> Seq<u8> {
        be_wire(v as nat, 2)
    }

    fn encode(&self, out: &mut Vec<u8>) -> (n: usize) {
        proof {
            lemma_pow256_values();
            lemma_be_round_trip(*self as nat, 2);
        }
        let u: u64 = *self as u64;
        put_be(out, u, 2);
        2
    }
}

impl Decoder for u16 {
    open spec fn parse(s: Seq<u8>) -> Result<(u16, nat), CodecError> {
        match parse_be(s, 2) {
            Ok((v, k)) => Ok((v as u16, k)),
            Err(e) => Err(e),
        }
    }

    fn decode(buf: &[u8], pos: &mut usize) -> (r: Result<u16, CodecError>) {
        proof {
            lemma_pow256_values();
            lemma_be_value_bound(buf@.subrange(*old(pos) as int, buf@.len() as int).take(2));
        }
        match get_be(buf, pos, 2) {
            Ok(v) => Ok(v as u16),
            Err(e) => Err(e),
        }
    }
}

impl Codec for u16 {
    open spec fn fits(v: u16) -> bool {
        true
    }

    proof fn lemma_round_trip(v: u16, rest: Seq<u8>) {
        lemma_pow256_values();
        lemma_parse_be_round_trip(v as nat, 2, rest);
        lemma_be_round_trip(v as nat, 2);
    }
}

impl Encoder for u32 {
    open spec fn wire(v: u32) -> Seq<u8> {
        be_wire(v as nat, 4)
    }

    fn encode(&self, out: &mut Vec<u8>) -> (n: usize) {
        proof {
            lemma_pow256_values();
            lemma_be_round_trip(*self as nat, 4);
        }
        let u: u64 = *self as u64;
        put_be(out, u, 4);
        4
    }
}

impl Decoder for u32 {
    open spec fn parse(s: Seq<u8>) -> Result<(u32, nat), CodecError> {
        match parse_be(s, 4) {
            Ok((v, k)) => Ok((v as u32, k)),
            Err(e) => Err(e),
        }
    }

    fn decode(buf: &[u8], pos: &mut usize) -> (r: Result<u32, CodecError>) {
        proof {
            lemma_pow256_values();
            lemma_be_value_bound(buf@.subrange(*old(pos) as int, buf@.len() as int).take(4));
        }
        match get_be(buf, pos, 4) {
            Ok(v) => Ok(v as u32),
            Err(e) => Err(e),
        }
    }
}

impl Codec for u32 {
    open spec fn fits(v: u32) -> bool {
        true
    }

    proof fn lemma_round_trip(v: u32, rest: Seq<u8>) {
        lemma_pow256_values();
        lemma_parse_be_round_trip(v as nat, 4, rest);
        lemma_be_round_trip(v as nat, 4);
    }
}

impl Encoder for u64 {
    open spec fn wire(v: u64) -> Seq<u8> {
        be_wire(v as nat, 8)
    }

    fn encode(&self, out: &mut Vec<u8>) -> (n: usize) {
        proof {
            lemma_pow256_values();
            lemma_be_round_trip(*self as nat, 8);
        }
        let u: u64 = *self as u64;
        put_be(out, u, 8);
        8
    }
}

impl Decoder for u64 {
    open spec fn parse(s: Seq<u8>) -> Result<(u64, nat), CodecError> {
        match parse_be(s, 8) {
            Ok((v, k)) => Ok((v as u64, k)),
            Err(e) => Err(e),
        }
    }

    fn decode(buf: &[u8], pos: &mut usize) -> (r: Result<u64, CodecError>) {
        proof {
            lemma_pow256_values();
            lemma_be_value_bound(buf@.subrange(*old(pos) as int, buf@.len() as int).take(8));
        }
        match get_be(buf, pos, 8) {
            Ok(v) => Ok(v as u64),
            Err(e) => Err(e),
        }
    }
}

impl Codec for u64 {
    open spec fn fits(v: u64) -> bool {
        true
    }

    proof fn lemma_round_trip(v: u64, rest: Seq<u8>) {
        lemma_pow256_values();
        lemma_parse_be_round_trip(v as nat, 8, rest);
        lemma_be_round_trip(v as nat, 8);
    }
}

impl Encoder for i8 {
    open spec fn wire(v: i8) -> Seq<u8> {
        be_wire(twos(v as int, 1), 1)
    }

    fn encode(&self, out: &mut Vec<u8>) -> (n: usize) {
        proof {
            lemma_pow256_values();
            lemma_be_round_trip(twos(*self as int, 1), 1);
        }
        let u: u64 = if *self >= 0 { *self as u64 } else { (*self as i128 + 0x100i128) as u64 };
        put_be(out, u, 1);
        1
    }
}

impl Decoder for i8 {
    open spec fn parse(s: Seq<u8>) -> Result<(i8, nat), CodecError> {
        match parse_be(s, 1) {
            Ok((v, k)) => Ok((from_twos(v, 1) as i8, k)),
            Err(e) => Err(e),
        }
    }

    fn decode(buf: &[u8], pos: &mut usize) -> (r: Result<i8, CodecError>) {
        proof {
            lemma_pow256_values();
            lemma_be_value_bound(buf@.subrange(*old(pos) as int, buf@.len() as int).take(1));
        }
        match get_be(buf, pos, 1) {
            Ok(v) => Ok(if v < 0x80 { v as i8 } else { (v as i128 - 0x100i128) as i8 }),
            Err(e) => Err(e),
        }
    }
}

impl Codec for i8 {
    open spec fn fits(v: i8) -> bool {
        true
    }

    proof fn lemma_round_trip(v: i8, rest: Seq<u8>) {
        lemma_pow256_values();
        lemma_parse_be_round_trip(twos(v as int, 1), 1, rest);
        lemma_be_round_trip(twos(v as int, 1), 1);
        assert(from_twos(twos(v as int, 1), 1) == v as int);
    }
}

impl Encoder for i16 {
    open spec fn wire(v: i16) -> Seq<u8> {
        be_wire(twos(v as int, 2), 2)
    }

    fn encode(&self, out: &mut Vec<u8>) -> (n: usize) {
        proof {
            lemma_pow256_values();
            lemma_be_round_trip(twos(*self as int, 2), 2);
        }
        let u: u64 = if *self >= 0 { *self as u64 } else { (*self as i128 + 0x1_0000i128) as u64 };
        put_be(out, u, 2);
        2
    }
}

impl Decoder for i16 {
    open spec fn parse(s: Seq<u8>) -> Result<(i16, nat), CodecError> {
        match parse_be(s, 2) {
            Ok((v, k)) => Ok((from_twos(v, 2) as i16, k)),
            Err(e) => Err(e),
        }
    }

    fn decode(buf: &[u8], pos: &mut usize) -> (r: Result<i16, CodecError>) {
        proof {
            lemma_pow256_values();
            lemma_be_value_bound(buf@.subrange(*old(pos) as int, buf@.len() as int).take(2));
        }
        match get_be(buf, pos, 2) {
            Ok(v) => Ok(if v < 0x8000 { v as i16 } else { (v as i128 - 0x1_0000i128) as i16 }),
            Err(e) => Err(e),
        }
    }
}

impl Codec for i16 {
    open spec fn fits(v: i16) -> bool {
        true
    }

    proof fn lemma_round_trip(v: i16, rest: Seq<u8>) {
        lemma_pow256_values();
        lemma_parse_be_round_trip(twos(v as int, 2), 2, rest);
        lemma_be_round_trip(twos(v as int, 2), 2);
        assert(from_twos(twos(v as int, 2), 2) == v as int);
    }
}

impl Encoder for i32 {
    open spec fn wire(v: i32) -> Seq<u8> {
        be_wire(twos(v as int, 4), 4)
    }

    fn encode(&self, out: &mut Vec<u8>) -> (n: usize) {
        proof {
            lemma_pow256_values();
            lemma_be_round_trip(twos(*self as int, 4), 4);
        }
        let u: u64 = if *self >= 0 { *self as u64 } else { (*self as i128 + 0x1_0000_0000i128) as u64 };
        put_be(out, u, 4);
        4
    }
}

impl Decoder for i32 {
    open spec fn parse(s: Seq<u8>) -> Result<(i32, nat), CodecError> {
        match parse_be(s, 4) {
            Ok((v, k)) => Ok((from_twos(v, 4) as i32, k)),
            Err(e) => Err(e),
        }
    }

    fn decode(buf: &[u8], pos: &mut usize) -> (r: Result<i32, CodecError>) {
        proof {
            lemma_pow256_values();
            lemma_be_value_bound(buf@.subrange(*old(pos) as int, buf@.len() as int).take(4));
        }
        match get_be(buf, pos, 4) {
            Ok(v) => Ok(if v < 0x8000_0000 { v as i32 } else { (v as i128 - 0x1_0000_0000i128) as i32 }),
            Err(e) => Err(e),
        }
    }
}

impl Codec for i32 {
    open spec fn fits(v: i32) -> bool {
        true
    }

    proof fn lemma_round_trip(v: i32, rest: Seq<u8>) {
        lemma_pow256_values();
        lemma_parse_be_round_trip(twos(v as int, 4), 4, rest);
        lemma_be_round_trip(twos(v as int, 4), 4);
        assert(from_twos(twos(v as int, 4), 4) == v as int);
    }
}

impl Encoder for i64 {
    open spec fn wire(v: i64) -> Seq<u8> {
        be_wire(twos(v as int, 8), 8)
    }

    fn encode(&self, out: &mut Vec<u8>) -> (n: usize) {
        proof {
            lemma_pow256_values();
            lemma_be_round_trip(twos(*self as int, 8), 8);
        }
        let u: u64 = if *self >= 0 { *self as u64 } else { (*self as i128 + 0x1_0000_0000_0000_0000i128) as u64 };
        put_be(out, u, 8);
        8
    }
}

impl Decoder for i64 {
    open spec fn parse(s: Seq<u8>) -> Result<(i64, nat), CodecError> {
        match parse_be(s, 8) {
            Ok((v, k)) => Ok((from_twos(v, 8) as i64, k)),
            Err(e) => Err(e),
        }
    }

    fn decode(buf: &[u8], pos: &mut usize) -> (r: Result<i64, CodecError>) {
        proof {
            lemma_pow256_values();
            lemma_be_value_bound(buf@.subrange(*old(pos) as int, buf@.len() as int).take(8));
        }
        match get_be(buf, pos, 8) {
            Ok(v) => Ok(if v < 0x8000_0000_0000_0000 { v as i64 } else { (v as i128 - 0x1_0000_0000_0000_0000i128) as i64 }),
            Err(e) => Err(e),
        }
    }
}

impl Codec for i64 {
    open spec fn fits(v: i64) -> bool {
        true
    }

    proof fn lemma_round_trip(v: i64, rest: Seq<u8>) {
        lemma_pow256_values();
        lemma_parse_be_round_trip(twos(v as int, 8), 8, rest);
        lemma_be_round_trip(twos(v as int, 8), 8);
        assert(from_twos(twos(v as int, 8), 8) == v as int);
    }
}

impl Encoder for bool {
    open spec fn wire(v: bool) -> Seq<u8> {
        seq![if v { 1u8 } else { 0u8 }]
    }

    fn encode(&self, out: &mut Vec<u8>) -> (n: usize) {
        out.push(if *self { 1u8 } else { 0u8 });
        1
    }
}

impl Decoder for bool {
    /// Any nonzero byte reads as true.
    open spec fn parse(s: Seq<u8>) -> Result<(bool, nat), CodecError> {
        if s.len() == 0 {
            Err(CodecError::UnexpectedEof)
        } else {
            Ok((s[0] != 0, 1))
        }
    }

    fn decode(buf: &[u8], pos: &mut usize) -> (r: Result<bool, CodecError>) {
        if *pos >= buf.len() {
            return Err(CodecError::UnexpectedEof);
        }
        let b = buf[*pos];
        *pos = *pos + 1;
        Ok(b != 0)
    }
}

impl Codec for bool {
    open spec fn fits(v: bool) -> bool {
        true
    }

    proof fn lemma_round_trip(v: bool, rest: Seq<u8>) {
    }
}

impl View for VarInt {
    type V = i32;

    open spec fn view(&self) -> i32 {
        self.0
    }
}

impl Encoder for VarInt {
    open spec fn wire(v: i32) -> Seq<u8> {
        varint_wire(v)
    }

    fn encode(&self, out: &mut Vec<u8>) -> (n: usize) {
        VarInt::encode(self, out)
    }
}

impl Decoder for VarInt {
    open spec fn parse(s: Seq<u8>) -> Result<(i32, nat), CodecError> {
        parse_varint(s)
    }

    fn decode(buf: &[u8], pos: &mut usize) -> (r: Result<VarInt, CodecError>) {
        let r = VarInt::decode(buf, pos);
        proof {
            if let Ok((v, n)) = parse_varint(buf@.subrange(*old(pos) as int, buf@.len() as int)) {
                lemma_parse_varint_len(buf@.subrange(*old(pos) as int, buf@.len() as int));
            }
        }
        r
    }
}

impl Codec for VarInt {
    open spec fn fits(v: i32) -> bool {
        true
    }

    proof fn lemma_round_trip(v: i32, rest: Seq<u8>) {
        lemma_varint_round_trip(v, rest);
    }
}

/// The length prefix written before a string of `len` bytes.
pub open spec fn length_prefix(len: nat) -> i32 {
    signed_of((len % 0x1_0000_0000) as u32)
}

/// The bytes that encode a string of characters `v`: its UTF-8 length as a
/// variable-length integer, then its UTF-8 bytes.
pub open spec fn string_wire(v: Seq<char>) -> Seq<u8> {
    varint_wire(length_prefix(encode_utf8(v).len())) + encode_utf8(v)
}

/// The length prefix for `len` bytes.
pub fn prefix_for(len: usize) -> (r: i32)
    ensures
        r == length_prefix(len as nat),
{
    let l: u64 = len as u64;
    let u: u32 = (l % 0x1_0000_0000) as u32;
    if u < 0x8000_0000 {
        u as i32
    } else {
        (u as i64 - 0x1_0000_0000i64) as i32
    }
}

/// Reading a length-prefixed UTF-8 string from the front of `s`.
pub open spec fn parse_string(s: Seq<u8>) -> Result<(Seq<char>, nat), CodecError> {
    match parse_varint(s) {
        Err(e) => Err(e),
        Ok((len, k)) => if len < 0 {
            Err(CodecError::InvalidData)
        } else if s.len() < k + len {
            Err(CodecError::UnexpectedEof)
        } else if !valid_utf8(s.subrange(k as int, k + len)) {
            Err(CodecError::Utf8)
        } else {
            Ok((decode_utf8(s.subrange(k as int, k + len)), k + len as nat))
        },
    }
}

/// Relies on `String::from_utf8`: it succeeds exactly on valid UTF-8 and
/// then holds the characters those bytes spell.
#[verifier::external_body]
fn string_from_utf8(bytes: Vec<u8>) -> (r: Option<String>)
    ensures
        r is Some <==> valid_utf8(bytes@),
        r is Some ==> r->Some_0@ == decode_utf8(bytes@),
{
    String::from_utf8(bytes).ok()
}

impl Encoder for String {
    open spec fn wire(v: Seq<char>) -> Seq<u8> {
        string_wire(v)
    }

    fn encode(&self, out: &mut Vec<u8>) -> (n: usize) {
        let ghost start = out@;
        let before = out.len();
        let bytes = self.as_str().as_bytes();
        let l: u64 = bytes.len() as u64;
        let u: u32 = (l % 0x1_0000_0000) as u32;
        let v: i32 = if u < 0x8000_0000 {
            u as i32
        } else {
            (u as i64 - 0x1_0000_0000i64) as i32
        };
        VarInt(v).encode(out);
        push_all(out, bytes);
        assert(out@ =~= start + string_wire(self@));
        out.len() - before
    }
}

impl Decoder for String {
    open spec fn parse(s: Seq<u8>) -> Result<(Seq<char>, nat), CodecError> {
        parse_string(s)
    }

    fn decode(buf: &[u8], pos: &mut usize) -> (r: Result<String, CodecError>) {
        let ghost s = buf@.subrange(*old(pos) as int, buf@.len() as int);
        let start = *pos;
        let len = match VarInt::decode(buf, pos) {
            Ok(v) => v.0,
            Err(e) => return Err(e),
        };
        proof {
            lemma_parse_varint_len(s);
        }
        if len < 0 {
            return Err(CodecError::InvalidData);
        }
        let l = len as usize;
        if buf.len() - *pos < l {
            return Err(CodecError::UnexpectedEof);
        }
        let bytes = copy_bytes(buf, *pos, l);
        assert(bytes@ =~= s.subrange(*pos - start, *pos - start + l));
        match string_from_utf8(bytes) {
            Some(text) => {
                *pos = *pos + l;
                Ok(text)
            },
            None => Err(CodecError::Utf8),
        }
    }
}

impl Codec for String {
    open spec fn fits(v: Seq<char>) -> bool {
        encode_utf8(v).len() < 0x8000_0000
    }

    proof fn lemma_round_trip(v: Seq<char>, rest: Seq<u8>) {
        let b = encode_utf8(v);
        let p = length_prefix(b.len());
        assert(p == b.len());
        let s = string_wire(v) + rest;
        assert(s =~= varint_wire(p) + (b + rest));
        lemma_varint_round_trip(p, b + rest);
        let k = varint_wire(p).len();
        assert(s.subrange(k as int, k + p) =~= b);
    }
}

} // verus!
