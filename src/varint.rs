use vstd::prelude::*;

use crate::error::{CodecError, VarIntError};

verus! {

/// A signed 32-bit integer sent in one to five bytes, seven payload bits per
/// byte, least significant group first, with the high bit marking that more
/// bytes follow.
#[derive(Debug, Clone, Copy, PartialEq, Eq, Structural)]
pub struct VarInt(pub i32);

/// The two's-complement reading of a signed value as unsigned.
pub open spec fn unsigned_of(v: i32) -> u32 {
    if v >= 0 {
        v as u32
    } else {
        (v + 0x1_0000_0000) as u32
    }
}

/// The two's-complement reading of an unsigned value as signed.
pub open spec fn signed_of(u: u32) -> i32 {
    if u < 0x8000_0000 {
        u as i32
    } else {
        (u - 0x1_0000_0000) as i32
    }
}

/// The bytes that encode the unsigned payload `u`.
pub open spec fn varint_wire_nat(u: nat) -> Seq<u8>
    decreases u,
{
    if u < 128 {
        seq![u as u8]
    } else {
        seq![(u % 128 + 128) as u8] + varint_wire_nat(u / 128)
    }
}

/// The bytes that encode `v`.
pub open spec fn varint_wire(v: i32) -> Seq<u8> {
    varint_wire_nat(unsigned_of(v) as nat)
}

/// Reads the groups of a variable-length integer with at most `k` bytes left
/// before the value is too big; yields the payload and the bytes consumed.
pub open spec fn varint_groups(s: Seq<u8>, k: nat) -> Result<(nat, nat), CodecError>
    decreases k,
{
    if s.len() == 0 {
        Err(CodecError::UnexpectedEof)
    } else if k == 0 {
        Err(CodecError::VarInt(VarIntError::TooBig))
    } else if s[0] < 128 {
        Ok((s[0] as nat, 1))
    } else {
        match varint_groups(s.drop_first(), (k - 1) as nat) {
            Ok((v, n)) => Ok((((s[0] - 128) + 128 * v) as nat, n + 1)),
            Err(e) => Err(e),
        }
    }
}

/// What decoding a variable-length integer from the front of `s` yields: the
/// value (payload bits above the 32nd are dropped) and the bytes consumed.
pub open spec fn parse_varint(s: Seq<u8>) -> Result<(i32, nat), CodecError> {
    match varint_groups(s, 5) {
        Ok((v, n)) => Ok((signed_of((v % 0x1_0000_0000) as u32), n)),
        Err(e) => Err(e),
    }
}

pub open spec fn pow128(i: nat) -> nat
    decreases i,
{
    if i == 0 {
        1
    } else {
        128 * pow128((i - 1) as nat)
    }
}

proof fn lemma_wire_nat_len(u: nat, k: nat)
    requires
        u < pow128(k),
        k >= 1,
    ensures
        1 <= varint_wire_nat(u).len() <= k,
    decreases u,
{
    reveal_with_fuel(pow128, 2);
    if u >= 128 {
        assert(k >= 2) by {
            if k <= 1 {
                reveal_with_fuel(pow128, 2);
            }
        }
        assert(u / 128 < pow128((k - 1) as nat)) by (nonlinear_arith)
            requires
                u < 128 * pow128((k - 1) as nat),
        ;
        lemma_wire_nat_len(u / 128, (k - 1) as nat);
    }
}

proof fn lemma_groups_round_trip(u: nat, k: nat, rest: Seq<u8>)
    requires
        u < pow128(k),
        k >= 1,
    ensures
        varint_groups(varint_wire_nat(u) + rest, k) == Ok::<(nat, nat), CodecError>(
            (u, varint_wire_nat(u).len()),
        ),
    decreases u,
{
    let s = varint_wire_nat(u) + rest;
    if u < 128 {
        assert(s[0] == u as u8);
    } else {
        assert(k >= 2) by {
            if k <= 1 {
                reveal_with_fuel(pow128, 2);
            }
        }
        assert(u / 128 < pow128((k - 1) as nat)) by (nonlinear_arith)
            requires
                u < 128 * pow128((k - 1) as nat),
        ;
        lemma_groups_round_trip(u / 128, (k - 1) as nat, rest);
        assert(s.drop_first() =~= varint_wire_nat(u / 128) + rest);
        assert(s[0] == (u % 128 + 128) as u8);
        assert(u == u % 128 + 128 * (u / 128)) by (nonlinear_arith);
    }
}

/// Decoding the encoding of any `i32`, followed by anything, gives back the
/// value and consumes exactly the encoding.
pub proof fn lemma_varint_round_trip(v: i32, rest: Seq<u8>)
    ensures
        parse_varint(varint_wire(v) + rest) == Ok::<(i32, nat), CodecError>(
            (v, varint_wire(v).len()),
        ),
        1 <= varint_wire(v).len() <= 5,
{
    let u = unsigned_of(v) as nat;
    assert(pow128(5) == 0x8_0000_0000) by {
        reveal_with_fuel(pow128, 6);
    }
    lemma_groups_round_trip(u, 5, rest);
    lemma_wire_nat_len(u, 5);
    assert(u % 0x1_0000_0000 == u);
}

/// Five bytes that all carry the continuation bit, followed by one more byte,
/// never decode: the value is too big.
pub proof fn lemma_varint_too_big(s: Seq<u8>)
    requires
        s.len() >= 6,
        forall|i: int| 0 <= i < 5 ==> s[i] >= 128,
    ensures
        parse_varint(s) == Err::<(i32, nat), CodecError>(CodecError::VarInt(VarIntError::TooBig)),
{
    let s1 = s.drop_first();
    let s2 = s1.drop_first();
    let s3 = s2.drop_first();
    let s4 = s3.drop_first();
    let s5 = s4.drop_first();
    assert(s5.len() > 0);
    assert(varint_groups(s5, 0) == Err::<(nat, nat), CodecError>(
        CodecError::VarInt(VarIntError::TooBig),
    ));
    assert(s4[0] == s[4]);
    assert(s3[0] == s[3]);
    assert(s2[0] == s[2]);
    assert(s1[0] == s[1]);
    assert(varint_groups(s4, 1) == varint_groups(s5, 0));
    assert(varint_groups(s3, 2) == varint_groups(s4, 1));
    assert(varint_groups(s2, 3) == varint_groups(s3, 2));
    assert(varint_groups(s1, 4) == varint_groups(s2, 3));
    assert(varint_groups(s, 5) == varint_groups(s1, 4));
}

/// A successful decode consumes one to five bytes of the input.
pub proof fn lemma_parse_varint_len(s: Seq<u8>)
    ensures
        parse_varint(s) is Ok ==> 1 <= parse_varint(s)->Ok_0.1 <= s.len() && parse_varint(s)->Ok_0.1 <= 5,
{
    lemma_groups_len(s, 5);
}

proof fn lemma_groups_len(s: Seq<u8>, k: nat)
    ensures
        varint_groups(s, k) is Ok ==> 1 <= varint_groups(s, k)->Ok_0.1 <= s.len()
            && varint_groups(s, k)->Ok_0.1 <= k,
    decreases k,
{
    if s.len() > 0 && k > 0 && s[0] >= 128 {
        lemma_groups_len(s.drop_first(), (k - 1) as nat);
    }
}

/// Reading a value as unsigned and back as signed gives it back, and the
/// other way round.
pub proof fn lemma_signed_unsigned(v: i32, u: u32)
    ensures
        signed_of(unsigned_of(v)) == v,
        unsigned_of(signed_of(u)) == u,
{
}

impl VarInt {
    /// The value whose two's-complement bits are those of `u`.
    pub fn from_u32(u: u32) -> (r: VarInt)
        ensures
            r.0 == signed_of(u),
    {
        if u < 0x8000_0000 {
            VarInt(u as i32)
        } else {
            VarInt((u as i64 - 0x1_0000_0000i64) as i32)
        }
    }

    /// The two's-complement bits of the value read as unsigned.
    pub fn to_u32(&self) -> (r: u32)
        ensures
            r == unsigned_of(self.0),
    {
        if self.0 >= 0 {
            self.0 as u32
        } else {
            (self.0 as i64 + 0x1_0000_0000i64) as u32
        }
    }

    /// Appends the encoding of this value to `out` and returns its length.
    pub fn encode(&self, out: &mut Vec<u8>) -> (n: usize)
        ensures
            final(out)@ == old(out)@ + varint_wire(self.0),
            n == varint_wire(self.0).len(),
            1 <= n <= 5,
    {
        proof {
            lemma_varint_round_trip(self.0, seq![]);
        }
        let mut x: u32 = if self.0 >= 0 {
            self.0 as u32
        } else {
            (self.0 as i64 + 0x1_0000_0000i64) as u32
        };
        let ghost start = out@;
        let ghost wire = varint_wire(self.0);
        let mut i: usize = 0;
        loop
            invariant_except_break
                start + wire == out@ + varint_wire_nat(x as nat),
                i + varint_wire_nat(x as nat).len() == wire.len(),
            invariant
                wire.len() <= 5,
            ensures
                out@ == start + wire,
                i == wire.len(),
            decreases x,
        {
            let temp: u8 = (x % 128) as u8;
            let next: u32 = x / 128;
            let ghost prev = out@;
            if next != 0 {
                assert(varint_wire_nat(x as nat) == seq![(x % 128 + 128) as u8]
                    + varint_wire_nat(next as nat));
                out.push(temp + 128);
                assert(out@ + varint_wire_nat(next as nat) =~= prev + varint_wire_nat(x as nat));
                i = i + 1;
                x = next;
            } else {
                assert(varint_wire_nat(x as nat) == seq![x as u8]);
                out.push(temp);
                assert(out@ =~= prev + varint_wire_nat(x as nat));
                i = i + 1;
                break;
            }
        }
        i
    }

    /// Decodes a value from `buf` at `*pos`, advancing `*pos` past it.
    pub fn decode(buf: &[u8], pos: &mut usize) -> (r: Result<VarInt, CodecError>)
        requires
            *old(pos) <= buf@.len(),
        ensures
            match parse_varint(buf@.subrange(*old(pos) as int, buf@.len() as int)) {
                Ok((v, n)) => r == Ok::<VarInt, CodecError>(VarInt(v)) && *final(pos) == *old(pos) + n,
                Err(e) => r == Err::<VarInt, CodecError>(e) && *final(pos) == *old(pos),
            },
    {
        let ghost s = buf@.subrange(*old(pos) as int, buf@.len() as int);
        let start: usize = *pos;
        let mut i: usize = 0;
        let mut acc: u64 = 0;
        let mut mult: u64 = 1;
        assert(s.skip(0) =~= s);
        loop
            invariant
                start == *old(pos),
                *pos == start,
                start + i <= buf@.len(),
                s == buf@.subrange(start as int, buf@.len() as int),
                i <= 5,
                mult == pow128(i as nat),
                acc < mult,
                varint_groups(s, 5) == match varint_groups(s.skip(i as int), (5 - i) as nat) {
                    Ok((v, n)) => Ok::<(nat, nat), CodecError>(((acc + mult * v) as nat, (n + i) as nat)),
                    Err(e) => Err(e),
                },
            decreases 5 - i,
        {
            let ghost t = s.skip(i as int);
            if i >= buf.len() - start {
                assert(t.len() == 0);
                return Err(CodecError::UnexpectedEof);
            }
            if i == 5 {
                return Err(CodecError::VarInt(VarIntError::TooBig));
            }
            let b: u8 = buf[start + i];
            assert(t[0] == b);
            assert(pow128(i as nat + 1) == 128 * pow128(i as nat));
            assert(mult <= 0x10_0000_0000) by {
                reveal_with_fuel(pow128, 6);
                if i == 0 {} else if i == 1 {} else if i == 2 {} else if i == 3 {} else {}
            }
            assert(mult * b <= 0x10_0000_0000 * 256) by (nonlinear_arith)
                requires
                    mult <= 0x10_0000_0000,
                    b < 256,
            ;
            if b < 128 {
                let total: u64 = acc + mult * (b as u64);
                let u: u32 = (total % 0x1_0000_0000) as u32;
                let v: i32 = if u < 0x8000_0000 {
                    u as i32
                } else {
                    (u as i64 - 0x1_0000_0000i64) as i32
                };
                *pos = start + i + 1;
                return Ok(VarInt(v));
            }
            proof {
                assert(t.drop_first() =~= s.skip(i as int + 1));
                let rec = varint_groups(s.skip(i as int + 1), (5 - i - 1) as nat);
                if let Ok((v, n)) = rec {
                    assert(acc + mult * ((b - 128) + 128 * v) == (acc + mult * (b - 128)) + (mult
                        * 128) * v) by (nonlinear_arith);
                }
                assert(acc + mult * (b - 128) < mult * 128) by (nonlinear_arith)
                    requires
                        acc < mult,
                        b < 256,
                        b >= 128,
                ;
            }
            acc = acc + mult * ((b - 128) as u64);
            mult = mult * 128;
            i = i + 1;
        }
    }
}

} // verus!
