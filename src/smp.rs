use vstd::prelude::*;

use crate::coding::copy_bytes;
use crate::error::CodecError;
use crate::nibble::NibbleArray;

verus! {

/// Blocks in a 16x16x16 section.
pub const ARRAY_SIZE: usize = 4096;

/// Bytes of one light array of a section (one nibble per block).
pub const LIGHT_BYTES: usize = 2048;

/// Bytes of a complete section on the wire.
pub const SECTION_BYTES: usize = 12288;

/// A block as sent on the wire: a 12-bit type id and 4 bits of metadata.
#[derive(Debug, Clone, Copy, PartialEq, Eq, Structural)]
pub struct NetworkBlock {
    pub id: u16,
    pub metadata: u8,
}

/// The block that the packed value `num` stands for.
pub open spec fn block_of(num: u16) -> NetworkBlock {
    NetworkBlock { id: num / 16, metadata: (num % 16) as u8 }
}

impl NetworkBlock {
    /// The empty block.
    pub fn air() -> (r: NetworkBlock)
        ensures
            r.id == 0 && r.metadata == 0,
    {
        NetworkBlock { id: 0, metadata: 0 }
    }

    /// Splits a packed value: the high 12 bits are the id, the low 4 the
    /// metadata.
    pub fn from_u16(num: u16) -> (r: NetworkBlock)
        ensures
            r == block_of(num),
    {
        NetworkBlock { id: num / 16, metadata: (num % 16) as u8 }
    }

    /// Packs the block; only the low 12 bits of the id and the low 4 bits of
    /// the metadata are kept.
    pub fn to_u16(&self) -> (r: u16)
        ensures
            r == (self.id % 4096) * 16 + self.metadata % 16,
    {
        (self.id % 4096) * 16 + (self.metadata % 16) as u16
    }
}

/// What a section holds, as the contracts see it.
pub struct SectionView {
    pub blocks: Seq<NetworkBlock>,
    pub block_light: Seq<u8>,
    pub sky_light: Seq<u8>,
}

/// A 16x16x16 cube of blocks with its light, blocks in Y-major, Z-middle,
/// X-fastest order.
#[derive(Debug, Clone, PartialEq)]
pub struct ChunkSection {
    pub blocks: Vec<NetworkBlock>,
    pub skylight: NibbleArray,
    pub blocklight: NibbleArray,
    /// Number of blocks whose id is not air.
    pub count: u32,
}

impl View for ChunkSection {
    type V = SectionView;

    open spec fn view(&self) -> SectionView {
        SectionView {
            blocks: self.blocks@,
            block_light: self.blocklight@,
            sky_light: self.skylight@,
        }
    }
}

/// The number of blocks of `s` that are not air.
pub open spec fn count_non_air(s: Seq<NetworkBlock>) -> nat
    decreases s.len(),
{
    if s.len() == 0 {
        0
    } else {
        count_non_air(s.drop_last()) + if s.last().id != 0 {
            1nat
        } else {
            0nat
        }
    }
}

/// Position of local block `(x, y, z)` in a section's block array.
pub open spec fn section_index(x: u16, y: u16, z: u16) -> int {
    (y % 16) * 256 + z * 16 + x
}

/// The packed block value at position `i` of the little-endian stream `s`.
pub open spec fn raw_block(s: Seq<u8>, i: int) -> u16 {
    (s[2 * i] + 256 * s[2 * i + 1]) as u16
}

/// The first `k` blocks of the stream `s`.
pub open spec fn blocks_prefix(s: Seq<u8>, k: nat) -> Seq<NetworkBlock> {
    Seq::new(k, |j: int| block_of(raw_block(s, j)))
}

/// Scanning the block values of `s` from position `i`: where the first
/// truncation sentinel (id 0xFFF after position 0) stands, `None` if the 4096
/// values hold none, or the end of input met first.
pub open spec fn first_sentinel(s: Seq<u8>, i: nat) -> Result<Option<nat>, CodecError>
    decreases 4096 - i,
{
    if i >= 4096 {
        Ok(None)
    } else if s.len() < 2 * i + 2 {
        Err(CodecError::UnexpectedEof)
    } else if i > 0 && raw_block(s, i as int) / 16 == 0xFFF {
        Ok(Some(i))
    } else {
        first_sentinel(s, i + 1)
    }
}

pub open spec fn zero_light() -> Seq<u8> {
    Seq::new(2048, |j: int| 0u8)
}

/// Reading a section from the front of `s`: 4096 little-endian block values,
/// then 2048 bytes of block light and 2048 bytes of sky light. A sentinel
/// block ends the blocks early; no light follows it and the light is dark.
pub open spec fn parse_section(s: Seq<u8>) -> Result<(SectionView, nat), CodecError> {
    match first_sentinel(s, 0) {
        Err(e) => Err(e),
        Ok(Some(k)) => Ok(
            (
                SectionView {
                    blocks: blocks_prefix(s, k),
                    block_light: zero_light(),
                    sky_light: zero_light(),
                },
                2 * k + 2,
            ),
        ),
        Ok(None) => if s.len() < 12288 {
            Err(CodecError::UnexpectedEof)
        } else {
            Ok(
                (
                    SectionView {
                        blocks: blocks_prefix(s, 4096),
                        block_light: s.subrange(8192, 10240),
                        sky_light: s.subrange(10240, 12288),
                    },
                    12288,
                ),
            )
        },
    }
}

/// A section decoded from a stream holds, at the position of local block
/// `(x, y, z)`, the block that the stream sends at index
/// `(y & 0xF) << 8 | z << 4 | x`, wherever the blocks were not cut short.
pub proof fn lemma_section_block_position(s: Seq<u8>, x: u16, y: u16, z: u16)
    requires
        parse_section(s) is Ok,
        x < 16,
        z < 16,
        section_index(x, y, z) < parse_section(s)->Ok_0.0.blocks.len(),
    ensures
        section_index(x, y, z) == (y % 16) * 256 + z * 16 + x,
        0 <= section_index(x, y, z) < 4096,
        parse_section(s)->Ok_0.0.blocks[section_index(x, y, z)] == block_of(
            raw_block(s, section_index(x, y, z)),
        ),
{
    lemma_first_sentinel_bound(s, 0);
}

proof fn lemma_first_sentinel_bound(s: Seq<u8>, i: nat)
    ensures
        first_sentinel(s, i) matches Ok(Some(k)) ==> k < 4096,
    decreases 4096 - i,
{
    if i < 4096 && s.len() >= 2 * i + 2 && !(i > 0 && raw_block(s, i as int) / 16 == 0xFFF) {
        lemma_first_sentinel_bound(s, i + 1);
    }
}

/// `n` zero bytes.
fn zeros(n: usize) -> (r: Vec<u8>)
    ensures
        r@ == Seq::new(n as nat, |j: int| 0u8),
{
    let mut r: Vec<u8> = Vec::new();
    let mut i: usize = 0;
    while i < n
        invariant
            i <= n,
            r@ == Seq::new(i as nat, |j: int| 0u8),
        decreases n - i,
    {
        r.push(0);
        i = i + 1;
        assert(r@ =~= Seq::new(i as nat, |j: int| 0u8));
    }
    r
}

impl ChunkSection {
    /// A section whose non-air count is derived from `blocks`.
    pub fn new(blocks: Vec<NetworkBlock>, skylight: NibbleArray, blocklight: NibbleArray) -> (r:
        ChunkSection)
        requires
            blocks@.len() <= u32::MAX,
        ensures
            r.blocks@ == blocks@,
            r.skylight == skylight,
            r.blocklight == blocklight,
            r.count == count_non_air(blocks@),
    {
        let count = Self::count_of(&blocks);
        ChunkSection { blocks, skylight, blocklight, count }
    }

    fn count_of(blocks: &Vec<NetworkBlock>) -> (c: u32)
        requires
            blocks@.len() <= u32::MAX,
        ensures
            c == count_non_air(blocks@),
    {
        let mut c: u32 = 0;
        let mut i: usize = 0;
        while i < blocks.len()
            invariant
                i <= blocks@.len(),
                blocks@.len() <= u32::MAX,
                c == count_non_air(blocks@.take(i as int)),
                c <= i,
            decreases blocks@.len() - i,
        {
            assert(blocks@.take(i + 1).drop_last() =~= blocks@.take(i as int));
            if blocks[i].id != 0 {
                c = c + 1;
            }
            i = i + 1;
        }
        assert(blocks@.take(i as int) =~= blocks@);
        c
    }

    /// Recomputes the non-air count from the blocks.
    pub fn recount(&mut self)
        requires
            old(self).blocks@.len() <= u32::MAX,
        ensures
            final(self).blocks == old(self).blocks,
            final(self).skylight == old(self).skylight,
            final(self).blocklight == old(self).blocklight,
            final(self).count == count_non_air(old(self).blocks@),
    {
        self.count = Self::count_of(&self.blocks);
    }

    /// Position of local block `(x, y, z)` in the block array; `y` is taken
    /// modulo 16.
    pub fn index(x: u16, y: u16, z: u16) -> (r: u16)
        requires
            x < 16,
            z < 16,
        ensures
            r == section_index(x, y, z),
    {
        (y % 16) * 256 + z * 16 + x
    }

    /// Metadata of the block at `(x, y, z)`; 0 where a truncated section has
    /// no block.
    pub fn metadata(&self, x: u16, y: u16, z: u16) -> (r: u8)
        requires
            x < 16,
            z < 16,
        ensures
            r == if section_index(x, y, z) < self.blocks@.len() {
                self.blocks@[section_index(x, y, z)].metadata
            } else {
                0
            },
    {
        let index = ChunkSection::index(x, y, z) as usize;
        if index >= self.blocks.len() {
            return 0;
        }
        self.blocks[index].metadata
    }

    /// Type id of the block at `(x, y, z)`; air where a truncated section has
    /// no block.
    pub fn block_id(&self, x: u16, y: u16, z: u16) -> (r: u16)
        requires
            x < 16,
            z < 16,
        ensures
            r == if section_index(x, y, z) < self.blocks@.len() {
                self.blocks@[section_index(x, y, z)].id
            } else {
                0
            },
    {
        let index = ChunkSection::index(x, y, z) as usize;
        if index >= self.blocks.len() {
            return 0;
        }
        self.blocks[index].id
    }

    /// Decodes a section from `buf` at `*pos`, advancing `*pos` past it.
    pub fn decode(buf: &[u8], pos: &mut usize) -> (r: Result<ChunkSection, CodecError>)
        requires
            *old(pos) <= buf@.len(),
        ensures
            match parse_section(buf@.subrange(*old(pos) as int, buf@.len() as int)) {
                Ok((v, n)) => r is Ok && r->Ok_0@ == v && r->Ok_0.count == count_non_air(v.blocks)
                    && *final(pos) == *old(pos) + n && *final(pos) <= buf@.len(),
                Err(e) => r is Err && r->Err_0 == e,
            },
    {
        let ghost s = buf@.subrange(*old(pos) as int, buf@.len() as int);
        let start = *pos;
        let total = buf.len();
        let mut blocks: Vec<NetworkBlock> = Vec::new();
        let mut i: usize = 0;
        while i < ARRAY_SIZE
            invariant
                i <= 4096,
                start == *old(pos),
                *pos == start,
                start <= total,
                total == buf@.len(),
                s == buf@.subrange(start as int, buf@.len() as int),
                blocks@ == blocks_prefix(s, i as nat),
                first_sentinel(s, 0) == first_sentinel(s, i as nat),
            decreases 4096 - i,
        {
            if total - start < 2 * i + 2 {
                assert(first_sentinel(s, i as nat) == Err::<Option<nat>, CodecError>(
                    CodecError::UnexpectedEof,
                ));
                return Err(CodecError::UnexpectedEof);
            }
            let raw: u16 = buf[start + 2 * i] as u16 + 256 * (buf[start + 2 * i + 1] as u16);
            assert(raw == raw_block(s, i as int));
            let block = NetworkBlock::from_u16(raw);
            if i > 0 && block.id == 0xFFF {
                *pos = start + 2 * i + 2;
                let light = zeros(LIGHT_BYTES);
                let sky = zeros(LIGHT_BYTES);
                assert(first_sentinel(s, i as nat) == Ok::<Option<nat>, CodecError>(Some(i as nat)));
                assert(light@ =~= zero_light());
                assert(sky@ =~= zero_light());
                return Ok(
                    ChunkSection::new(blocks, NibbleArray::from_bytes(sky), NibbleArray::from_bytes(light)),
                );
            }
            blocks.push(block);
            i = i + 1;
            assert(blocks@ =~= blocks_prefix(s, i as nat));
        }
        if total - start < SECTION_BYTES {
            return Err(CodecError::UnexpectedEof);
        }
        let light = copy_bytes(buf, start + 8192, LIGHT_BYTES);
        let sky = copy_bytes(buf, start + 10240, LIGHT_BYTES);
        assert(light@ =~= s.subrange(8192, 10240));
        assert(sky@ =~= s.subrange(10240, 12288));
        *pos = start + SECTION_BYTES;
        Ok(ChunkSection::new(blocks, NibbleArray::from_bytes(sky), NibbleArray::from_bytes(light)))
    }
}

pub open spec fn pow2(n: nat) -> nat
    decreases n,
{
    if n == 0 {
        1
    } else {
        2 * pow2((n - 1) as nat)
    }
}

/// Whether bit `i` of `mask` is set.
pub open spec fn mask_has(mask: u16, i: nat) -> bool {
    (mask as nat / pow2(i)) % 2 == 1
}

proof fn lemma_shift_step(mask: u16, i: nat)
    ensures
        (mask as nat / pow2(i)) / 2 == mask as nat / pow2(i + 1),
        pow2(i) > 0,
{
    lemma_pow2_pos(i);
    vstd::arithmetic::div_mod::lemma_div_denominator(mask as int, pow2(i) as int, 2);
    assert(pow2(i + 1) == pow2(i) * 2);
}

proof fn lemma_pow2_pos(i: nat)
    ensures
        pow2(i) > 0,
    decreases i,
{
    if i > 0 {
        lemma_pow2_pos((i - 1) as nat);
    }
}

pub open spec fn slot_view(o: Option<ChunkSection>) -> Option<SectionView> {
    match o {
        Some(s) => Some(s@),
        None => None,
    }
}

pub open spec fn slots_view(v: Seq<Option<ChunkSection>>) -> Seq<Option<SectionView>> {
    Seq::new(v.len(), |i: int| slot_view(v[i]))
}

/// Reading the sections that `mask` announces for slots `i` to 15, lowest
/// slot first; a slot whose bit is clear stays empty and reads nothing.
pub open spec fn parse_slots(s: Seq<u8>, mask: u16, i: nat) -> Result<
    (Seq<Option<SectionView>>, nat),
    CodecError,
>
    decreases 16 - i,
{
    if i >= 16 {
        Ok((seq![], 0))
    } else if mask_has(mask, i) {
        match parse_section(s) {
            Err(e) => Err(e),
            Ok((sec, n)) => match parse_slots(s.skip(n as int), mask, i + 1) {
                Err(e) => Err(e),
                Ok((rest, m)) => Ok((seq![Some(sec)] + rest, n + m)),
            },
        }
    } else {
        match parse_slots(s, mask, i + 1) {
            Err(e) => Err(e),
            Ok((rest, m)) => Ok((seq![None] + rest, m)),
        }
    }
}

/// Decodes the sections that `mask` announces into sixteen slots.
pub fn decode_slots(buf: &[u8], pos: &mut usize, mask: u16) -> (r: Result<
    Vec<Option<ChunkSection>>,
    CodecError,
>)
    requires
        *old(pos) <= buf@.len(),
    ensures
        match parse_slots(buf@.subrange(*old(pos) as int, buf@.len() as int), mask, 0) {
            Ok((v, n)) => r is Ok && slots_view(r->Ok_0@) == v && r->Ok_0@.len() == 16
                && *final(pos) == *old(pos) + n && *final(pos) <= buf@.len(),
            Err(e) => r is Err && r->Err_0 == e,
        },
{
    let ghost s0 = buf@.subrange(*old(pos) as int, buf@.len() as int);
    let start = *pos;
    let mut out: Vec<Option<ChunkSection>> = Vec::new();
    let mut m: u16 = mask;
    let mut i: usize = 0;
    proof {
        assert(pow2(0) == 1);
        match parse_slots(s0, mask, 0) {
            Ok((rest, k)) => {
                assert(slots_view(out@) + rest =~= rest);
            },
            Err(e) => {},
        }
    }
    while i < 16
        invariant
            i <= 16,
            start == *old(pos),
            start <= *pos <= buf@.len(),
            s0 == buf@.subrange(start as int, buf@.len() as int),
            out@.len() == i,
            m as nat == mask as nat / pow2(i as nat),
            parse_slots(s0, mask, 0) == match parse_slots(
                buf@.subrange(*pos as int, buf@.len() as int),
                mask,
                i as nat,
            ) {
                Ok((rest, k)) => Ok::<(Seq<Option<SectionView>>, nat), CodecError>(
                    (slots_view(out@) + rest, (*pos - start + k) as nat),
                ),
                Err(e) => Err(e),
            },
        decreases 16 - i,
    {
        let ghost si = buf@.subrange(*pos as int, buf@.len() as int);
        let ghost p = *pos;
        proof {
            lemma_shift_step(mask, i as nat);
        }
        if m % 2 == 1 {
            let sec = match ChunkSection::decode(buf, pos) {
                Ok(sec) => sec,
                Err(e) => return Err(e),
            };
            proof {
                let n = (*pos - p) as nat;
                assert(si.skip(n as int) =~= buf@.subrange(*pos as int, buf@.len() as int));
                let ghost prev = out@;
                assert(slots_view(prev.push(Some(sec))) =~= slots_view(prev) + seq![Some(sec@)]);
                match parse_slots(si.skip(n as int), mask, i as nat + 1) {
                    Ok((rest, k)) => {
                        assert(slots_view(prev) + (seq![Some(sec@)] + rest) =~= slots_view(
                            prev.push(Some(sec)),
                        ) + rest);
                    },
                    Err(e) => {},
                }
            }
            out.push(Some(sec));
        } else {
            proof {
                let ghost prev = out@;
                assert(slots_view(prev.push(None)) =~= slots_view(prev) + seq![None]);
                match parse_slots(si, mask, i as nat + 1) {
                    Ok((rest, k)) => {
                        assert(slots_view(prev) + (seq![None] + rest) =~= slots_view(
                            prev.push(None),
                        ) + rest);
                    },
                    Err(e) => {},
                }
            }
            out.push(None);
        }
        m = m / 2;
        i = i + 1;
    }
    proof {
        assert(slots_view(out@) + seq![] =~= slots_view(out@));
    }
    Ok(out)
}

/// What a column holds, as the contracts see it.
pub struct ColumnView {
    pub sections: Seq<Option<SectionView>>,
    pub biomes: Seq<u8>,
    pub x: i32,
    pub z: i32,
}

/// A 16x256x16 column: sixteen optional sections stacked from Y=0, a biome
/// per X-Z position, and its position in chunk units.
#[derive(Debug, Clone, PartialEq)]
pub struct ChunkColumn {
    /// Sixteen slots; slot `i` holds blocks Y = 16i .. 16i+15.
    pub sections: Vec<Option<ChunkSection>>,
    /// 256 biome ids.
    pub biomes: Vec<u8>,
    pub x: i32,
    pub z: i32,
}

impl View for ChunkColumn {
    type V = ColumnView;

    open spec fn view(&self) -> ColumnView {
        ColumnView { sections: slots_view(self.sections@), biomes: self.biomes@, x: self.x, z: self.z }
    }
}

/// How many bits of `mask` below `i` are set.
pub open spec fn rank(mask: u16, i: nat) -> nat
    decreases i,
{
    if i == 0 {
        0
    } else {
        rank(mask, (i - 1) as nat) + if mask_has(mask, (i - 1) as nat) {
            1nat
        } else {
            0nat
        }
    }
}

/// The world position of local block `(lx, ly, lz)` of the column at `(x, z)`.
pub open spec fn world_of(x: i32, z: i32, lx: u32, ly: u32, lz: u32) -> (int, int, int) {
    (x * 16 + lx, ly as int, z * 16 + lz)
}

impl ChunkColumn {
    pub open spec fn wf(&self) -> bool {
        self.sections@.len() == 16 && self.biomes@.len() == 256
    }

    /// A column at `(x, z)` with no biomes set whose sections are taken in
    /// order for the set bits of `bitmask`, lowest first; a set bit left
    /// without a section stays empty.
    pub fn from_sections(sections: Vec<ChunkSection>, bitmask: u16, x: i32, z: i32) -> (r:
        ChunkColumn)
        ensures
            r.wf(),
            r.x == x,
            r.z == z,
            r.biomes@ == Seq::new(256, |j: int| 0u8),
            forall|i: int|
                0 <= i < 16 ==> #[trigger] r.sections@[i] == if mask_has(bitmask, i as nat) && rank(
                    bitmask,
                    i as nat,
                ) < sections@.len() {
                    Some(sections@[rank(bitmask, i as nat) as int])
                } else {
                    None
                },
    {
        let ghost orig = sections@;
        let mut rest = sections;
        let mut slots: Vec<Option<ChunkSection>> = Vec::new();
        let mut m: u16 = bitmask;
        let mut taken: usize = 0;
        let mut i: usize = 0;
        assert(pow2(0) == 1);
        while i < 16
            invariant
                i <= 16,
                taken <= i,
                taken == rank(bitmask, i as nat),
                taken <= orig.len() ==> rest@ == orig.skip(taken as int),
                taken > orig.len() ==> rest@.len() == 0,
                m as nat == bitmask as nat / pow2(i as nat),
                slots@.len() == i,
                forall|j: int|
                    0 <= j < i ==> #[trigger] slots@[j] == if mask_has(bitmask, j as nat) && rank(
                        bitmask,
                        j as nat,
                    ) < orig.len() {
                        Some(orig[rank(bitmask, j as nat) as int])
                    } else {
                        None
                    },
            decreases 16 - i,
        {
            proof {
                lemma_shift_step(bitmask, i as nat);
            }
            if m % 2 == 1 {
                if rest.len() > 0 {
                    let sec = rest.remove(0);
                    slots.push(Some(sec));
                    proof {
                        assert(rest@ =~= orig.skip(taken + 1));
                    }
                } else {
                    slots.push(None);
                }
                taken = taken + 1;
            } else {
                slots.push(None);
            }
            m = m / 2;
            i = i + 1;
        }
        let mut biomes: Vec<u8> = Vec::new();
        let mut k: usize = 0;
        while k < 256
            invariant
                k <= 256,
                biomes@ == Seq::new(k as nat, |j: int| 0u8),
            decreases 256 - k,
        {
            biomes.push(0);
            k = k + 1;
            assert(biomes@ =~= Seq::new(k as nat, |j: int| 0u8));
        }
        ChunkColumn { sections: slots, biomes, x, z }
    }

    /// World coordinates of local block `(local_x, local_y, local_z)`.
    pub fn block_coordinates(&self, local_x: u32, local_y: u32, local_z: u32) -> (r: (i32, u32, i32))
        requires
            local_x <= 16,
            local_y <= 16,
            local_z <= 16,
            i32::MIN <= self.x * 16,
            self.x * 16 + 16 <= i32::MAX,
            i32::MIN <= self.z * 16,
            self.z * 16 + 16 <= i32::MAX,
        ensures
            (r.0 as int, r.1 as int, r.2 as int) == world_of(self.x, self.z, local_x, local_y, local_z),
    {
        (self.x * 16 + local_x as i32, local_y, self.z * 16 + local_z as i32)
    }

    /// The lowest and highest world block positions of the column.
    pub fn get_world_coordinates(&self) -> (r: ((i32, i32, i32), (i32, i32, i32)))
        requires
            i32::MIN <= self.x * 16,
            self.x * 16 + 15 <= i32::MAX,
            i32::MIN <= self.z * 16,
            self.z * 16 + 15 <= i32::MAX,
        ensures
            r.0.0 == self.x * 16 && r.0.1 == 0 && r.0.2 == self.z * 16,
            r.1.0 == self.x * 16 + 15 && r.1.1 == 255 && r.1.2 == self.z * 16 + 15,
    {
        let start_x = self.x * 16;
        let start_z = self.z * 16;
        ((start_x, 0, start_z), (start_x + 15, 255, start_z + 15))
    }

    /// Block id at `(x, y, z)` with `y` in world units (taken modulo 256);
    /// `None` where that section is absent.
    pub fn block_id_of(&self, x: u16, y: u16, z: u16) -> (r: Option<u16>)
        requires
            self.wf(),
            x < 16,
            z < 16,
        ensures
            match self.sections@[((y / 16) % 16) as int] {
                None => r is None,
                Some(s) => r == Some(
                    if section_index(x, y, z) < s.blocks@.len() {
                        s.blocks@[section_index(x, y, z)].id
                    } else {
                        0u16
                    },
                ),
            },
    {
        match &self.sections[((y / 16) % 16) as usize] {
            Some(s) => Some(s.block_id(x, y, z)),
            None => None,
        }
    }

    /// Block metadata at `(x, y, z)` with `y` in world units; 0 where that
    /// section is absent.
    pub fn metadata_of(&self, x: u16, y: u16, z: u16) -> (r: u8)
        requires
            self.wf(),
            x < 16,
            y < 256,
            z < 16,
        ensures
            match self.sections@[(y / 16) as int] {
                None => r == 0,
                Some(s) => r == if section_index(x, y, z) < s.blocks@.len() {
                    s.blocks@[section_index(x, y, z)].metadata
                } else {
                    0u8
                },
            },
    {
        match &self.sections[(y / 16) as usize] {
            Some(s) => s.metadata(x, y, z),
            None => 0,
        }
    }
}

/// A section held as raw packed block values, Y, then Z, then X.
#[derive(Clone, Debug, PartialEq)]
pub struct Section {
    pub blocks: Vec<u16>,
    pub block_light: Vec<u8>,
    pub sky_light: Vec<u8>,
}

impl Section {
    /// The low 12 bits of the value stored for `(x, y, z)`.
    pub fn get_block_id(&self, x: u8, y: u8, z: u8) -> (r: u16)
        requires
            y * 256 + z * 16 + x < self.blocks@.len(),
        ensures
            r == self.blocks@[y * 256 + z * 16 + x] % 4096,
    {
        self.blocks[y as usize * 256 + z as usize * 16 + x as usize] % 4096
    }
}

/// Position of `(x, y, z)` in a 16x16x16 array laid out Y, then Z, then X.
pub fn coord_to_index(x: usize, y: usize, z: usize) -> (r: usize)
    requires
        x <= 16,
        y <= 16,
        z <= 16,
    ensures
        r == (y * 16 + z) * 16 + x,
{
    (y * 16 + z) * 16 + x
}

} // verus!
