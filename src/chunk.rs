//! Chunk encoder: block sections, the height-map fragment, biomes, and the
//! chunk-data packet that carries them.

use vstd::prelude::*;
use crate::bitarray::{BitArray, mask_of, values_of, words_after_set};
use crate::builder::{PacketBuilder, be_i32_seq, be_u16, be_u32, be_u64_seq, framed, varint_i32};
use crate::varint::varint_bytes;
use vstd::arithmetic::div_mod::lemma_add_mod_noop;

verus! {

/// Bits per block in a chunk section.
pub const BIT_PER_BLOCK: u8 = 14;

/// The kinds of block that a section can hold.
#[derive(Debug, Clone, Copy, PartialEq, Eq, Structural)]
pub enum Block {
    Air,
    Grass,
    Dirt,
}

/// The protocol id of a block.
pub open spec fn block_id(b: Block) -> u64 {
    match b {
        Block::Air => 0x00,
        Block::Grass => 0x20,
        Block::Dirt => 0x30,
    }
}

/// Ids that name a block.
pub open spec fn is_block_id(v: u64) -> bool {
    v == 0x00 || v == 0x20 || v == 0x30
}

impl Block {
    /// The protocol id of this block.
    pub fn id(&self) -> (r: u64)
        ensures
            r == block_id(*self),
    {
        match self {
            Block::Air => 0x00,
            Block::Grass => 0x20,
            Block::Dirt => 0x30,
        }
    }

    /// The block with protocol id `v`.
    pub fn from_id(v: u64) -> (r: Result<Block, UnknownBlockId>)
        ensures
            match r {
                Ok(b) => is_block_id(v) && block_id(b) == v,
                Err(e) => !is_block_id(v) && e.id == v,
            },
    {
        if v == 0x00 {
            Ok(Block::Air)
        } else if v == 0x20 {
            Ok(Block::Grass)
        } else if v == 0x30 {
            Ok(Block::Dirt)
        } else {
            Err(UnknownBlockId { id: v })
        }
    }
}

/// A block array held a value that names no block.
#[derive(Debug, Clone, Copy, PartialEq, Eq, Structural)]
pub struct UnknownBlockId {
    pub id: u64,
}

/// The index of block `(x, y, z)` in a section.
pub open spec fn block_index(x: int, y: int, z: int) -> int {
    y * 256 + z * 16 + x
}

/// The number of entries of `s` that are not air.
pub open spec fn non_air_count(s: Seq<u64>) -> nat
    decreases s.len(),
{
    if s.len() == 0 {
        0
    } else {
        non_air_count(s.drop_last()) + if s.last() != 0 {
            1nat
        } else {
            0nat
        }
    }
}

proof fn lemma_non_air_count_bound(s: Seq<u64>)
    ensures
        non_air_count(s) <= s.len(),
    decreases s.len(),
{
    if s.len() > 0 {
        lemma_non_air_count_bound(s.drop_last());
    }
}

proof fn lemma_non_air_count_update(s: Seq<u64>, i: int, v: u64)
    requires
        0 <= i < s.len(),
    ensures
        non_air_count(s.update(i, v)) + (if s[i] != 0 {
            1nat
        } else {
            0nat
        }) == non_air_count(s) + (if v != 0 {
            1nat
        } else {
            0nat
        }),
    decreases s.len(),
{
    let t = s.update(i, v);
    if i == s.len() - 1 {
        assert(t.drop_last() =~= s.drop_last());
    } else {
        assert(t.drop_last() =~= s.drop_last().update(i, v));
        lemma_non_air_count_update(s.drop_last(), i, v);
    }
}

/// The blocks of a section after the lower 15 by 15 by 15 corner is filled
/// with grass: `0x20` there, air elsewhere.
pub open spec fn grass_section_blocks() -> Seq<u64> {
    Seq::new(
        4096,
        |i: int|
            if i % 16 < 15 && (i / 16) % 16 < 15 && i / 256 < 15 {
                0x20u64
            } else {
                0u64
            },
    )
}

/// A 16 by 16 by 16 cube of blocks, 14 bits each, with its count of blocks
/// that are not air.
pub struct ChunkSection {
    block_count: u16,
    bits_per_block: u8,
    data: BitArray,
}

impl ChunkSection {
    /// The block id at each index.
    pub closed spec fn blocks(&self) -> Seq<u64> {
        self.data@
    }

    /// The words that hold the blocks.
    pub closed spec fn words(&self) -> Seq<u64> {
        self.data.words()
    }

    /// The number of blocks that are not air, as kept by the section.
    pub closed spec fn block_count(&self) -> nat {
        self.block_count as nat
    }

    /// 4096 blocks of 14 bits in 896 words, every one a known block, and the
    /// count matching the blocks that are not air.
    pub closed spec fn wf(&self) -> bool {
        &&& self.data.wf()
        &&& self.data.bits() == 14
        &&& self.data.cap() == 4096
        &&& self.data.words().len() == 896
        &&& self.bits_per_block == 14
        &&& self.data@.len() == 4096
        &&& forall|i: int| 0 <= i < 4096 ==> is_block_id(#[trigger] self.data@[i])
        &&& self.block_count == non_air_count(self.data@)
    }

    /// A well-formed section holds 4096 known blocks, and its count is the
    /// number of them that are not air.
    pub proof fn lemma_wf(&self)
        requires
            self.wf(),
        ensures
            self.blocks().len() == 4096,
            self.words().len() == 896,
            forall|i: int| 0 <= i < 4096 ==> is_block_id(#[trigger] self.blocks()[i]),
            self.block_count() == non_air_count(self.blocks()),
    {
    }

    /// A section of air.
    pub fn new() -> (r: ChunkSection)
        ensures
            r.wf(),
            r.blocks() == Seq::new(4096, |i: int| 0u64),
            r.words() == Seq::new(896, |i: int| 0u64),
            r.block_count() == 0,
    {
        let data = BitArray::new(BIT_PER_BLOCK, 4096);
        assert(data.words() =~= Seq::new(896, |i: int| 0u64));
        proof {
            data.lemma_view_values();
            lemma_zero_count(data@);
        }
        ChunkSection { block_count: 0, bits_per_block: BIT_PER_BLOCK, data }
    }

    /// The block at `(x, y, z)`.
    pub fn block_at(&self, x: usize, y: usize, z: usize) -> (r: Result<Block, UnknownBlockId>)
        requires
            self.wf(),
            x < 16,
            y < 16,
            z < 16,
        ensures
            r matches Ok(b) && block_id(b) == self.blocks()[block_index(x as int, y as int, z as int)],
    {
        let index: usize = y * 256 + z * 16 + x;
        Block::from_id(self.data.get(index))
    }

    /// Puts `block` at `(x, y, z)`, counting one more block that is not air
    /// where air is replaced, one fewer where air comes in.
    pub fn set_block_at(&mut self, x: usize, y: usize, z: usize, block: Block)
        requires
            old(self).wf(),
            x < 16,
            y < 16,
            z < 16,
        ensures
            final(self).wf(),
            final(self).blocks().len() == 4096,
            final(self).blocks() == old(self).blocks().update(
                block_index(x as int, y as int, z as int),
                block_id(block),
            ),
            final(self).block_count() == old(self).block_count() + (if block_id(block) != 0
                && old(self).blocks()[block_index(x as int, y as int, z as int)] == 0 {
                1int
            } else {
                0int
            }) - (if block_id(block) == 0 && old(self).blocks()[block_index(
                x as int,
                y as int,
                z as int,
            )] != 0 {
                1int
            } else {
                0int
            }),
    {
        let index: usize = y * 256 + z * 16 + x;
        let old_block = self.data.get(index);
        let new_id = block.id();
        proof {
            lemma_non_air_count_update(self.data@, index as int, new_id);
            lemma_non_air_count_bound(self.data@);
            lemma_non_air_count_bound(self.data@.update(index as int, new_id));
            assert(mask_of(14) == 0x3fff) by (bit_vector);
        }
        if new_id == 0 {
            if old_block != 0 {
                self.block_count = self.block_count - 1;
            }
        } else if old_block == 0 {
            self.block_count = self.block_count + 1;
        }
        self.data.set(index, new_id);
        proof {
            self.data.lemma_view_values();
            assert forall|i: int| 0 <= i < 4096 implies is_block_id(#[trigger] self.data@[i]) by {
                if i != index {
                    assert(self.data@[i] == old(self).data@[i]);
                }
            }
        }
    }

    /// The words that hold the blocks.
    pub fn words_vec(&self) -> (r: &Vec<u64>)
        ensures
            r@ == self.words(),
    {
        self.data.inner()
    }
}

impl Default for ChunkSection {
    fn default() -> (r: ChunkSection)
        ensures
            r.wf(),
            r.blocks() == Seq::new(4096, |i: int| 0u64),
    {
        Self::new()
    }
}

proof fn lemma_zero_count(s: Seq<u64>)
    requires
        forall|i: int| 0 <= i < s.len() ==> s[i] == 0,
    ensures
        non_air_count(s) == 0,
    decreases s.len(),
{
    if s.len() > 0 {
        lemma_zero_count(s.drop_last());
    }
}

/// Block `i` of a section has been filled once the loops over `x`, then `y`,
/// then `z` have passed `(x, y, z)`.
spec fn filled_before(i: int, x: int, y: int, z: int) -> bool {
    let (ix, iz, iy) = (i % 16, (i / 16) % 16, i / 256);
    &&& ix < 15 && iz < 15 && iy < 15
    &&& (ix < x || (ix == x && (iy < y || (iy == y && iz < z))))
}

proof fn lemma_index_parts(x: int, y: int, z: int)
    requires
        0 <= x < 16,
        0 <= y < 16,
        0 <= z < 16,
    ensures
        block_index(x, y, z) % 16 == x,
        (block_index(x, y, z) / 16) % 16 == z,
        block_index(x, y, z) / 256 == y,
        0 <= block_index(x, y, z) < 4096,
{
}

/// A section whose lower 15 by 15 by 15 corner is grass.
pub fn grass_chunk_section() -> (r: ChunkSection)
    ensures
        r.wf(),
        r.blocks() == grass_section_blocks(),
        r.block_count() == 3375,
{
    let mut section = ChunkSection::new();
    let mut x: usize = 0;
    while x < 15
        invariant
            x <= 15,
            section.wf(),
            section.block_count() == 225 * x,
            forall|i: int|
                0 <= i < 4096 ==> #[trigger] section.blocks()[i] == if filled_before(
                    i,
                    x as int,
                    0,
                    0,
                ) {
                    0x20u64
                } else {
                    0u64
                },
        decreases 15 - x,
    {
        let mut y: usize = 0;
        while y < 15
            invariant
                x < 15,
                y <= 15,
                section.wf(),
                section.block_count() == 225 * x + 15 * y,
                forall|i: int|
                    0 <= i < 4096 ==> #[trigger] section.blocks()[i] == if filled_before(
                        i,
                        x as int,
                        y as int,
                        0,
                    ) {
                        0x20u64
                    } else {
                        0u64
                    },
            decreases 15 - y,
        {
            let mut z: usize = 0;
            while z < 15
                invariant
                    x < 15,
                    y < 15,
                    z <= 15,
                    section.wf(),
                    section.block_count() == 225 * x + 15 * y + z,
                    forall|i: int|
                        0 <= i < 4096 ==> #[trigger] section.blocks()[i] == if filled_before(
                            i,
                            x as int,
                            y as int,
                            z as int,
                        ) {
                            0x20u64
                        } else {
                            0u64
                        },
                decreases 15 - z,
            {
                proof {
                    lemma_index_parts(x as int, y as int, z as int);
                }
                section.set_block_at(x, y, z, Block::Grass);
                z = z + 1;
            }
            y = y + 1;
        }
        x = x + 1;
    }
    assert(section.blocks() =~= grass_section_blocks());
    section
}

/// The ASCII bytes of the height map's name, `MOTION_BLOCKING`.
pub open spec fn motion_blocking() -> Seq<u8> {
    seq![77u8, 79, 84, 73, 79, 78, 95, 66, 76, 79, 67, 75, 73, 78, 71]
}

/// The height-map fragment over the given words: an unnamed compound tag
/// holding one long-array tag, `MOTION_BLOCKING`, of 36 words.
pub open spec fn height_map_fragment(words: Seq<u64>) -> Seq<u8> {
    seq![10u8, 0, 0, 12] + be_u16(15) + motion_blocking() + be_u32(36) + be_u64_seq(words) + seq![
        0u8,
    ]
}

/// The words of a 9-bit array of 256 entries, first all zero, after the
/// first `n` entries are set to 16 in order.
pub open spec fn height_words(n: nat) -> Seq<u64>
    decreases n,
{
    if n == 0 {
        Seq::new(36, |k: int| 0u64)
    } else {
        words_after_set(height_words((n - 1) as nat), 9, (n - 1) as nat, 16)
    }
}

/// The surface heights of a chunk column, in their encoded form.
pub struct HeightMaps {
    data: Vec<u8>,
    words: Ghost<Seq<u64>>,
}

impl HeightMaps {
    /// The encoded fragment.
    pub closed spec fn bytes(&self) -> Seq<u8> {
        self.data@
    }

    /// The words of the packed heights.
    pub closed spec fn words(&self) -> Seq<u64> {
        self.words@
    }

    /// A height of 16 for each of the 256 columns, packed 9 bits each.
    pub fn new() -> (r: HeightMaps)
        ensures
            r.words() == height_words(256),
            r.words().len() == 36,
            values_of(r.words(), 9, 256) == Seq::new(256, |i: int| 16u64),
            r.bytes() == height_map_fragment(r.words()),
    {
        let mut height_map = BitArray::new(9, 256);
        proof {
            height_map.lemma_view_values();
            assert(mask_of(9) == 511) by (bit_vector);
            assert(height_map.words() =~= height_words(0));
        }
        let mut i: usize = 0;
        while i < 256
            invariant
                i <= 256,
                height_map.wf(),
                height_map.bits() == 9,
                height_map.cap() == 256,
                height_map.words().len() == 36,
                height_map@.len() == 256,
                mask_of(9) == 511,
                forall|j: int| 0 <= j < i ==> #[trigger] height_map@[j] == 16,
                height_map.words() == height_words(i as nat),
            decreases 256 - i,
        {
            height_map.set(i, 16);
            i = i + 1;
        }
        let mut builder = PacketBuilder::new();
        builder.push_byte(10);
        builder.push_byte(0);
        builder.push_byte(0);
        builder.push_byte(12);
        builder.push_unsigned_char(15);
        let tag: [u8; 15] = [77, 79, 84, 73, 79, 78, 95, 66, 76, 79, 67, 75, 73, 78, 71];
        assert(tag@ =~= motion_blocking());
        builder.push_vec_u8(&tag);
        builder.push_int(36);
        builder.push_vec_u64(height_map.inner().as_slice());
        builder.push_byte(0);
        proof {
            height_map.lemma_view_values();
            assert(height_map@ =~= Seq::new(256, |i: int| 16u64));
        }
        let data = builder.into_bytes();
        assert(data@ =~= height_map_fragment(height_map.words()));
        HeightMaps { data, words: Ghost(height_map.words()) }
    }

    /// The encoded fragment.
    pub fn as_bytes(&self) -> (r: &Vec<u8>)
        ensures
            r@ == self.bytes(),
    {
        &self.data
    }
}

impl Default for HeightMaps {
    fn default() -> (r: HeightMaps)
        ensures
            r.words().len() == 36,
            values_of(r.words(), 9, 256) == Seq::new(256, |i: int| 16u64),
            r.bytes() == height_map_fragment(r.words()),
    {
        Self::new()
    }
}

/// The biome of each of the 1024 cells of a chunk column.
pub struct Biomes {
    data: Vec<i32>,
}

impl Biomes {
    /// The biome ids.
    pub closed spec fn ids(&self) -> Seq<i32> {
        self.data@
    }

    /// Biome 21 everywhere.
    pub fn new() -> (r: Biomes)
        ensures
            r.ids() == Seq::new(1024, |i: int| 21i32),
    {
        let mut data: Vec<i32> = Vec::new();
        while data.len() < 1024
            invariant
                data@.len() <= 1024,
                forall|j: int| 0 <= j < data@.len() ==> data@[j] == 21,
            decreases 1024 - data@.len(),
        {
            data.push(21);
        }
        assert(data@ =~= Seq::new(1024, |i: int| 21i32));
        Biomes { data }
    }
}

impl Default for Biomes {
    fn default() -> (r: Biomes)
        ensures
            r.ids() == Seq::new(1024, |i: int| 21i32),
    {
        Self::new()
    }
}

/// The bit mask of the sections that a chunk packet carries.
pub struct PrimaryBitMask;

/// The block entities of a chunk column: none.
pub struct BlockEntities;

/// A column of sections at chunk coordinates `(x, z)`.
pub struct ChunkColumn {
    location: (i32, i32),
    sections: Vec<ChunkSection>,
}

impl ChunkColumn {
    /// The chunk coordinates `(x, z)`.
    pub closed spec fn location(&self) -> (i32, i32) {
        self.location
    }

    /// The sections, lowest first.
    pub closed spec fn sections(&self) -> Seq<ChunkSection> {
        self.sections@
    }

    /// Every section is well formed.
    pub closed spec fn wf(&self) -> bool {
        forall|i: int| 0 <= i < self.sections@.len() ==> #[trigger] self.sections@[i].wf()
    }

    /// A column at `location` with one section at ground level, grass in its
    /// lower corner.
    pub fn new(location: (i32, i32)) -> (r: ChunkColumn)
        ensures
            r.wf(),
            r.location() == location,
            r.sections().len() == 1,
            r.sections()[0].blocks() == grass_section_blocks(),
    {
        let mut sections: Vec<ChunkSection> = Vec::new();
        sections.push(grass_chunk_section());
        ChunkColumn { location, sections }
    }
}

/// The bytes of the block words of each section, in order.
pub open spec fn sections_bytes(s: Seq<ChunkSection>) -> Seq<u8>
    decreases s.len(),
{
    if s.len() == 0 {
        Seq::empty()
    } else {
        sections_bytes(s.drop_last()) + be_u64_seq(s.last().words())
    }
}

/// The number of bytes that the block words of the sections take.
pub open spec fn sections_size(s: Seq<ChunkSection>) -> nat
    decreases s.len(),
{
    if s.len() == 0 {
        0
    } else {
        sections_size(s.drop_last()) + 8 * s.last().words().len()
    }
}

/// A chunk-data packet for one column.
pub struct ChunkPacket {
    full_chunk: bool,
    primary_bit_mask: i32,
    height_maps: HeightMaps,
    biomes: Biomes,
    data: ChunkColumn,
    block_entities: BlockEntities,
}

impl ChunkPacket {
    /// The column carried.
    pub closed spec fn column(&self) -> ChunkColumn {
        self.data
    }

    /// Whether the packet carries the full column.
    pub closed spec fn full_chunk(&self) -> bool {
        self.full_chunk
    }

    /// One bit per section carried.
    pub closed spec fn primary_bit_mask(&self) -> i32 {
        self.primary_bit_mask
    }

    /// The height-map fragment.
    pub closed spec fn height_maps(&self) -> HeightMaps {
        self.height_maps
    }

    /// The biomes.
    pub closed spec fn biomes(&self) -> Biomes {
        self.biomes
    }

    /// The packet is full-chunk with one section, heights of 16 and biome 21
    /// throughout, as `new` makes it.
    pub open spec fn is_default_for(&self, data: ChunkColumn) -> bool {
        &&& self.column() == data
        &&& self.full_chunk()
        &&& self.primary_bit_mask() == 1
        &&& self.height_maps().words() == height_words(256)
        &&& self.height_maps().bytes() == height_map_fragment(height_words(256))
        &&& self.biomes().ids() == Seq::new(1024, |i: int| 21i32)
    }

    /// A full-chunk packet for `data` with one section at ground level,
    /// default heights and biomes.
    pub fn new(data: ChunkColumn) -> (r: ChunkPacket)
        ensures
            r.is_default_for(data),
            values_of(r.height_maps().words(), 9, 256) == Seq::new(256, |i: int| 16u64),
    {
        ChunkPacket {
            full_chunk: true,
            primary_bit_mask: 0x1,
            height_maps: HeightMaps::new(),
            biomes: Biomes::new(),
            data,
            block_entities: BlockEntities,
        }
    }

    /// The finished chunk-data packet.
    pub fn build(self) -> (r: Vec<u8>)
        requires
            self.column().wf(),
        ensures
            r@ == framed(chunk_body(self)),
    {
        let mut builder = PacketBuilder::new();
        builder.push_varint(0x22);
        builder.push_int(self.data.location.0);
        builder.push_int(self.data.location.1);
        builder.push_bool(self.full_chunk);
        builder.push_varint(self.primary_bit_mask);
        builder.push_vec_u8(self.height_maps.as_bytes().as_slice());
        builder.push_vec_i32(self.biomes.data.as_slice());
        let sections = &self.data.sections;
        let mut size: u64 = 0;
        let mut i: usize = 0;
        while i < sections.len()
            invariant
                i <= sections@.len(),
                forall|k: int| 0 <= k < sections@.len() ==> #[trigger] sections@[k].wf(),
                size == sections_size(sections@.take(i as int)) % 0x1_0000_0000,
            decreases sections@.len() - i,
        {
            let n: usize = sections[i].words_vec().len();
            assert(sections@[i as int].wf());
            assert(n == 896);
            assert(sections@.take(i + 1).drop_last() =~= sections@.take(i as int));
            assert(sections_size(sections@.take(i + 1)) == sections_size(sections@.take(i as int))
                + 8 * n);
            proof {
                lemma_add_mod_noop(
                    sections_size(sections@.take(i as int)) as int,
                    8 * n as int,
                    0x1_0000_0000,
                );
            }
            size = (size + 8 * (n as u64)) % 0x1_0000_0000;
            i = i + 1;
        }
        assert(sections@.take(i as int) =~= sections@);
        let size32: u32 = size as u32;
        assert(((size32 as i32) as u32) == size32) by (bit_vector);
        builder.push_varint(#[verifier::truncate] (size32 as i32));
        let mut j: usize = 0;
        let ghost start = builder@;
        while j < sections.len()
            invariant
                j <= sections@.len(),
                builder@ == start + sections_bytes(sections@.take(j as int)),
            decreases sections@.len() - j,
        {
            builder.push_vec_u64(sections[j].words_vec().as_slice());
            assert(sections@.take(j + 1).drop_last() =~= sections@.take(j as int));
            j = j + 1;
        }
        assert(sections@.take(j as int) =~= sections@);
        builder.push_varint(0);
        let r = builder.build();
        assert(r@ =~= framed(chunk_body(self)));
        r
    }
}

/// The body of the chunk-data packet for `p`: packet id `0x22`, the column's
/// coordinates, the full-chunk flag, the section mask, the height-map
/// fragment, the biomes, the size and words of the sections, and no block
/// entities.
pub open spec fn chunk_body(p: ChunkPacket) -> Seq<u8> {
    varint_i32(0x22) + be_u32(p.column().location().0 as u32) + be_u32(
        p.column().location().1 as u32,
    ) + seq![if p.full_chunk() { 1u8 } else { 0u8 }] + varint_i32(p.primary_bit_mask())
        + p.height_maps().bytes() + be_i32_seq(p.biomes().ids()) + varint_bytes(
        sections_size(p.column().sections()) % 0x1_0000_0000,
    ) + sections_bytes(p.column().sections()) + varint_i32(0)
}

/// Encoding a column is deterministic: two packets made by `new` from equal
/// columns build to byte-identical packets.
pub proof fn lemma_chunk_encoding_deterministic(c: ChunkColumn, p1: ChunkPacket, p2: ChunkPacket)
    requires
        p1.is_default_for(c),
        p2.is_default_for(c),
    ensures
        framed(chunk_body(p1)) == framed(chunk_body(p2)),
{
    assert(chunk_body(p1) =~= chunk_body(p2));
}

} // verus!
