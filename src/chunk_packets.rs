use vstd::prelude::*;

use crate::coding::{decode_result, Decoder};
use crate::error::CodecError;
use crate::packet::{Direction, Packet, When};
use crate::smp::{decode_slots, parse_slots, slots_view, ChunkColumn, ChunkSection, ColumnView, SectionView};
use crate::varint::{parse_varint, VarInt};

verus! {

/// What a `ChunkData` packet holds, as the contracts see it.
pub struct ChunkDataView {
    pub x: i32,
    pub z: i32,
    pub full_chunk: bool,
    pub primary_bit_mask: u16,
    pub chunk_size: i32,
    pub sections: Seq<Option<SectionView>>,
    pub biomes: Seq<u8>,
}

/// One chunk column: position, sections for the set bits of the mask, and
/// the biomes when the whole column is sent.
#[derive(Clone, Debug, PartialEq)]
pub struct ChunkData {
    pub x: i32,
    pub z: i32,
    pub full_chunk: bool,
    pub primary_bit_mask: u16,
    pub chunk_size: VarInt,
    /// Sixteen slots, filled where the mask has a bit set.
    pub sections: Vec<Option<ChunkSection>>,
    /// 256 biome ids when `full_chunk`, else empty.
    pub biomes: Vec<u8>,
}

impl View for ChunkData {
    type V = ChunkDataView;

    open spec fn view(&self) -> ChunkDataView {
        ChunkDataView {
            x: self.x,
            z: self.z,
            full_chunk: self.full_chunk,
            primary_bit_mask: self.primary_bit_mask,
            chunk_size: self.chunk_size.0,
            sections: slots_view(self.sections@),
            biomes: self.biomes@,
        }
    }
}

/// Reading `x:i32 | z:i32 | full_chunk:bool | bitmask:u16 | size:VarInt |
/// sections | biomes if full_chunk` from the front of `s`.
pub open spec fn parse_chunk_data(s: Seq<u8>) -> Result<(ChunkDataView, nat), CodecError> {
    match <i32 as Decoder>::parse(s) {
        Err(e) => Err(e),
        Ok((x, n0)) => match <i32 as Decoder>::parse(s.skip(n0 as int)) {
            Err(e) => Err(e),
            Ok((z, n1)) => match <bool as Decoder>::parse(s.skip((n0 + n1) as int)) {
                Err(e) => Err(e),
                Ok((full, n2)) => match <u16 as Decoder>::parse(s.skip((n0 + n1 + n2) as int)) {
                    Err(e) => Err(e),
                    Ok((mask, n3)) => match parse_varint(s.skip((n0 + n1 + n2 + n3) as int)) {
                        Err(e) => Err(e),
                        Ok((size, n4)) => match parse_slots(s.skip((n0 + n1 + n2 + n3 + n4) as int), mask, 0) {
                            Err(e) => Err(e),
                            Ok((slots, n5)) => {
                                let o = n0 + n1 + n2 + n3 + n4 + n5;
                                if !full {
                                    Ok(
                                        (
                                            ChunkDataView {
                                                x,
                                                z,
                                                full_chunk: full,
                                                primary_bit_mask: mask,
                                                chunk_size: size,
                                                sections: slots,
                                                biomes: seq![],
                                            },
                                            o as nat,
                                        ),
                                    )
                                } else if s.len() < o + 256 {
                                    Err(CodecError::UnexpectedEof)
                                } else {
                                    Ok(
                                        (
                                            ChunkDataView {
                                                x,
                                                z,
                                                full_chunk: full,
                                                primary_bit_mask: mask,
                                                chunk_size: size,
                                                sections: slots,
                                                biomes: s.subrange(o as int, (o + 256) as int),
                                            },
                                            (o + 256) as nat,
                                        ),
                                    )
                                }
                            },
                        },
                    },
                },
            },
        },
    }
}

impl Decoder for ChunkData {
    open spec fn parse(s: Seq<u8>) -> Result<(ChunkDataView, nat), CodecError> {
        parse_chunk_data(s)
    }

    fn decode(buf: &[u8], pos: &mut usize) -> (r: Result<ChunkData, CodecError>) {
        let ghost s = buf@.subrange(*old(pos) as int, buf@.len() as int);
        let start = *pos;
        let x = match i32::decode(buf, pos) {
            Ok(v) => v,
            Err(e) => return Err(e),
        };
        assert(buf@.subrange(*pos as int, buf@.len() as int) =~= s.skip(*pos - start));
        let z = match i32::decode(buf, pos) {
            Ok(v) => v,
            Err(e) => return Err(e),
        };
        assert(buf@.subrange(*pos as int, buf@.len() as int) =~= s.skip(*pos - start));
        let full_chunk = match bool::decode(buf, pos) {
            Ok(v) => v,
            Err(e) => return Err(e),
        };
        assert(buf@.subrange(*pos as int, buf@.len() as int) =~= s.skip(*pos - start));
        let primary_bit_mask = match u16::decode(buf, pos) {
            Ok(v) => v,
            Err(e) => return Err(e),
        };
        assert(buf@.subrange(*pos as int, buf@.len() as int) =~= s.skip(*pos - start));
        let chunk_size = match <VarInt as Decoder>::decode(buf, pos) {
            Ok(v) => v,
            Err(e) => return Err(e),
        };
        assert(buf@.subrange(*pos as int, buf@.len() as int) =~= s.skip(*pos - start));
        let sections = match decode_slots(buf, pos, primary_bit_mask) {
            Ok(v) => v,
            Err(e) => return Err(e),
        };
        let mut biomes: Vec<u8> = Vec::new();
        if full_chunk {
            if buf.len() - *pos < 256 {
                return Err(CodecError::UnexpectedEof);
            }
            biomes = crate::coding::copy_bytes(buf, *pos, 256);
            assert(biomes@ =~= s.subrange(*pos - start, *pos - start + 256));
            *pos = *pos + 256;
        }
        Ok(ChunkData { x, z, full_chunk, primary_bit_mask, chunk_size, sections, biomes })
    }
}

impl Packet for ChunkData {
    open spec fn key() -> (u32, When, Direction) {
        (0x21, When::Play, Direction::ToClient)
    }

    fn id(&self) -> (r: u32) {
        0x21
    }

    fn when(&self) -> (r: When) {
        When::Play
    }

    fn direction(&self) -> (r: Direction) {
        Direction::ToClient
    }
}

/// Position and section mask of one column of a `MapChunkBulk`.
#[derive(Clone, Copy, Debug, PartialEq, Eq, Structural)]
pub struct ChunkMetadata {
    pub x: i32,
    pub z: i32,
    pub primary_bit_mask: u16,
}

/// Reading `x:i32 | z:i32 | bitmask:u16`.
pub open spec fn parse_meta(s: Seq<u8>) -> Result<(ChunkMetadata, nat), CodecError> {
    match <i32 as Decoder>::parse(s) {
        Err(e) => Err(e),
        Ok((x, n0)) => match <i32 as Decoder>::parse(s.skip(n0 as int)) {
            Err(e) => Err(e),
            Ok((z, n1)) => match <u16 as Decoder>::parse(s.skip((n0 + n1) as int)) {
                Err(e) => Err(e),
                Ok((mask, n2)) => Ok(
                    (ChunkMetadata { x, z, primary_bit_mask: mask }, (n0 + n1 + n2) as nat),
                ),
            },
        },
    }
}

/// Reading `count` column metadata records.
pub open spec fn parse_metas(s: Seq<u8>, count: nat) -> Result<(Seq<ChunkMetadata>, nat), CodecError>
    decreases count,
{
    if count == 0 {
        Ok((seq![], 0))
    } else {
        match parse_meta(s) {
            Err(e) => Err(e),
            Ok((m, n)) => match parse_metas(s.skip(n as int), (count - 1) as nat) {
                Err(e) => Err(e),
                Ok((rest, k)) => Ok((seq![m] + rest, n + k)),
            },
        }
    }
}

/// Reading, for each record of `metas` in turn, the sections its mask
/// announces and then 256 biome bytes.
pub open spec fn parse_columns(s: Seq<u8>, metas: Seq<ChunkMetadata>) -> Result<
    (Seq<ColumnView>, nat),
    CodecError,
>
    decreases metas.len(),
{
    if metas.len() == 0 {
        Ok((seq![], 0))
    } else {
        match parse_slots(s, metas[0].primary_bit_mask, 0) {
            Err(e) => Err(e),
            Ok((slots, n)) => if s.len() < n + 256 {
                Err(CodecError::UnexpectedEof)
            } else {
                let col = ColumnView {
                    sections: slots,
                    biomes: s.subrange(n as int, (n + 256) as int),
                    x: metas[0].x,
                    z: metas[0].z,
                };
                match parse_columns(s.skip((n + 256) as int), metas.drop_first()) {
                    Err(e) => Err(e),
                    Ok((rest, k)) => Ok((seq![col] + rest, n + 256 + k)),
                }
            },
        }
    }
}

/// What a `MapChunkBulk` packet holds, as the contracts see it.
pub struct MapChunkBulkView {
    pub sky_light_sent: bool,
    pub chunk_column_sent: i32,
    pub columns: Seq<ColumnView>,
}

/// Several chunk columns in one packet.
#[derive(Clone, Debug, PartialEq)]
pub struct MapChunkBulk {
    pub sky_light_sent: bool,
    pub chunk_column_sent: VarInt,
    pub columns: Vec<ChunkColumn>,
}

pub open spec fn columns_view(v: Seq<ChunkColumn>) -> Seq<ColumnView> {
    Seq::new(v.len(), |i: int| v[i]@)
}

impl View for MapChunkBulk {
    type V = MapChunkBulkView;

    open spec fn view(&self) -> MapChunkBulkView {
        MapChunkBulkView {
            sky_light_sent: self.sky_light_sent,
            chunk_column_sent: self.chunk_column_sent.0,
            columns: columns_view(self.columns@),
        }
    }
}

/// Reading `sky_light:bool | count:VarInt | count metadata records |
/// count columns` from the front of `s`; a negative count reads no column.
pub open spec fn parse_bulk(s: Seq<u8>) -> Result<(MapChunkBulkView, nat), CodecError> {
    match <bool as Decoder>::parse(s) {
        Err(e) => Err(e),
        Ok((sky, n0)) => match parse_varint(s.skip(n0 as int)) {
            Err(e) => Err(e),
            Ok((count, n1)) => match parse_metas(
                s.skip((n0 + n1) as int),
                if count > 0 {
                    count as nat
                } else {
                    0
                },
            ) {
                Err(e) => Err(e),
                Ok((metas, n2)) => match parse_columns(s.skip((n0 + n1 + n2) as int), metas) {
                    Err(e) => Err(e),
                    Ok((cols, n3)) => Ok(
                        (
                            MapChunkBulkView {
                                sky_light_sent: sky,
                                chunk_column_sent: count,
                                columns: cols,
                            },
                            (n0 + n1 + n2 + n3) as nat,
                        ),
                    ),
                },
            },
        },
    }
}

fn decode_metas(buf: &[u8], pos: &mut usize, count: i32) -> (r: Result<Vec<ChunkMetadata>, CodecError>)
    requires
        *old(pos) <= buf@.len(),
    ensures
        match parse_metas(
            buf@.subrange(*old(pos) as int, buf@.len() as int),
            if count > 0 {
                count as nat
            } else {
                0
            },
        ) {
            Ok((v, n)) => r is Ok && r->Ok_0@ == v && *final(pos) == *old(pos) + n && *final(pos)
                <= buf@.len(),
            Err(e) => r is Err && r->Err_0 == e,
        },
{
    let ghost s0 = buf@.subrange(*old(pos) as int, buf@.len() as int);
    let ghost total: nat = if count > 0 {
        count as nat
    } else {
        0
    };
    let start = *pos;
    let mut out: Vec<ChunkMetadata> = Vec::new();
    let mut i: i32 = 0;
    proof {
        match parse_metas(s0, total) {
            Ok((rest, k)) => {
                assert(out@ + rest =~= rest);
            },
            Err(e) => {},
        }
    }
    while i < count
        invariant
            0 <= i,
            count > 0 ==> i <= count,
            count <= 0 ==> i == 0,
            total == (if count > 0 {
                count as nat
            } else {
                0
            }),
            start == *old(pos),
            start <= *pos <= buf@.len(),
            s0 == buf@.subrange(start as int, buf@.len() as int),
            parse_metas(s0, total) == match parse_metas(
                buf@.subrange(*pos as int, buf@.len() as int),
                (total - i) as nat,
            ) {
                Ok((rest, k)) => Ok::<(Seq<ChunkMetadata>, nat), CodecError>(
                    (out@ + rest, (*pos - start + k) as nat),
                ),
                Err(e) => Err(e),
            },
        decreases count - i,
    {
        let ghost si = buf@.subrange(*pos as int, buf@.len() as int);
        let ghost p = *pos;
        let x = match i32::decode(buf, pos) {
            Ok(v) => v,
            Err(e) => return Err(e),
        };
        assert(buf@.subrange(*pos as int, buf@.len() as int) =~= si.skip(*pos - p));
        let z = match i32::decode(buf, pos) {
            Ok(v) => v,
            Err(e) => return Err(e),
        };
        assert(buf@.subrange(*pos as int, buf@.len() as int) =~= si.skip(*pos - p));
        let mask = match u16::decode(buf, pos) {
            Ok(v) => v,
            Err(e) => return Err(e),
        };
        assert(buf@.subrange(*pos as int, buf@.len() as int) =~= si.skip(*pos - p));
        let meta = ChunkMetadata { x, z, primary_bit_mask: mask };
        proof {
            let ghost prev = out@;
            match parse_metas(si.skip(*pos - p), (total - i - 1) as nat) {
                Ok((rest, k)) => {
                    assert(prev + (seq![meta] + rest) =~= prev.push(meta) + rest);
                },
                Err(e) => {},
            }
        }
        out.push(meta);
        i = i + 1;
    }
    proof {
        assert(out@ + seq![] =~= out@);
    }
    Ok(out)
}

fn decode_columns(buf: &[u8], pos: &mut usize, metas: &Vec<ChunkMetadata>) -> (r: Result<
    Vec<ChunkColumn>,
    CodecError,
>)
    requires
        *old(pos) <= buf@.len(),
    ensures
        match parse_columns(buf@.subrange(*old(pos) as int, buf@.len() as int), metas@) {
            Ok((v, n)) => r is Ok && columns_view(r->Ok_0@) == v && *final(pos) == *old(pos) + n
                && *final(pos) <= buf@.len() && (forall|i: int|
                0 <= i < r->Ok_0@.len() ==> (#[trigger] r->Ok_0@[i]).wf()),
            Err(e) => r is Err && r->Err_0 == e,
        },
{
    let ghost s0 = buf@.subrange(*old(pos) as int, buf@.len() as int);
    let start = *pos;
    let mut out: Vec<ChunkColumn> = Vec::new();
    let mut j: usize = 0;
    proof {
        assert(metas@.skip(0) =~= metas@);
        match parse_columns(s0, metas@) {
            Ok((rest, k)) => {
                assert(columns_view(out@) + rest =~= rest);
            },
            Err(e) => {},
        }
    }
    while j < metas.len()
        invariant
            j <= metas@.len(),
            start == *old(pos),
            start <= *pos <= buf@.len(),
            s0 == buf@.subrange(start as int, buf@.len() as int),
            out@.len() == j,
            forall|i: int| 0 <= i < out@.len() ==> (#[trigger] out@[i]).wf(),
            parse_columns(s0, metas@) == match parse_columns(
                buf@.subrange(*pos as int, buf@.len() as int),
                metas@.skip(j as int),
            ) {
                Ok((rest, k)) => Ok::<(Seq<ColumnView>, nat), CodecError>(
                    (columns_view(out@) + rest, (*pos - start + k) as nat),
                ),
                Err(e) => Err(e),
            },
        decreases metas@.len() - j,
    {
        let ghost si = buf@.subrange(*pos as int, buf@.len() as int);
        let ghost p = *pos;
        let meta = metas[j];
        assert(metas@.skip(j as int)[0] == meta);
        assert(metas@.skip(j as int).drop_first() =~= metas@.skip(j + 1));
        let sections = match decode_slots(buf, pos, meta.primary_bit_mask) {
            Ok(v) => v,
            Err(e) => return Err(e),
        };
        if buf.len() - *pos < 256 {
            return Err(CodecError::UnexpectedEof);
        }
        let biomes = crate::coding::copy_bytes(buf, *pos, 256);
        assert(biomes@ =~= si.subrange(*pos - p, *pos - p + 256));
        *pos = *pos + 256;
        assert(buf@.subrange(*pos as int, buf@.len() as int) =~= si.skip(*pos - p));
        let col = ChunkColumn { sections, biomes, x: meta.x, z: meta.z };
        proof {
            let ghost prev = out@;
            assert(columns_view(prev.push(col)) =~= columns_view(prev) + seq![col@]);
            match parse_columns(si.skip(*pos - p), metas@.skip(j + 1)) {
                Ok((rest, k)) => {
                    assert(columns_view(prev) + (seq![col@] + rest) =~= columns_view(prev.push(col))
                        + rest);
                },
                Err(e) => {},
            }
        }
        out.push(col);
        j = j + 1;
    }
    proof {
        assert(metas@.skip(j as int) =~= seq![]);
        assert(columns_view(out@) + seq![] =~= columns_view(out@));
    }
    Ok(out)
}

impl Decoder for MapChunkBulk {
    open spec fn parse(s: Seq<u8>) -> Result<(MapChunkBulkView, nat), CodecError> {
        parse_bulk(s)
    }

    fn decode(buf: &[u8], pos: &mut usize) -> (r: Result<MapChunkBulk, CodecError>) {
        let ghost s = buf@.subrange(*old(pos) as int, buf@.len() as int);
        let start = *pos;
        let sky_light_sent = match bool::decode(buf, pos) {
            Ok(v) => v,
            Err(e) => return Err(e),
        };
        assert(buf@.subrange(*pos as int, buf@.len() as int) =~= s.skip(*pos - start));
        let chunk_column_sent = match <VarInt as Decoder>::decode(buf, pos) {
            Ok(v) => v,
            Err(e) => return Err(e),
        };
        assert(buf@.subrange(*pos as int, buf@.len() as int) =~= s.skip(*pos - start));
        let metas = match decode_metas(buf, pos, chunk_column_sent.0) {
            Ok(v) => v,
            Err(e) => return Err(e),
        };
        assert(buf@.subrange(*pos as int, buf@.len() as int) =~= s.skip(*pos - start));
        let columns = match decode_columns(buf, pos, &metas) {
            Ok(v) => v,
            Err(e) => return Err(e),
        };
        Ok(MapChunkBulk { sky_light_sent, chunk_column_sent, columns })
    }
}

impl Packet for MapChunkBulk {
    open spec fn key() -> (u32, When, Direction) {
        (0x26, When::Play, Direction::ToClient)
    }

    fn id(&self) -> (r: u32) {
        0x26
    }

    fn when(&self) -> (r: When) {
        When::Play
    }

    fn direction(&self) -> (r: Direction) {
        Direction::ToClient
    }
}

} // verus!
