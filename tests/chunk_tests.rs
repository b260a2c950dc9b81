use mycraft::bitarray::BitArray;
use mycraft::chunk::{grass_chunk_section, Block, Biomes, ChunkColumn, ChunkPacket, ChunkSection, HeightMaps, UnknownBlockId};

#[test]
fn bit_array_sizes_and_mask() {
    let a = BitArray::new(14, 4096);
    assert_eq!(a.inner().len(), 896);
    assert_eq!(a.highest_possible_value(), 0x3fff);
    let b = BitArray::new(64, 3);
    assert_eq!(b.inner().len(), 3);
    assert_eq!(b.highest_possible_value(), u64::MAX);
    let c = BitArray::new(5, 13);
    assert_eq!(c.inner().len(), 2);
}

#[test]
fn bit_array_round_trip_across_word_boundary() {
    let mut a = BitArray::new(14, 4096);
    // 4 * 14 = 56: the value covers bits 56..70, across two words.
    let idx = 4;
    assert!((idx * 14) % 64 > 50);
    a.set(idx, 0x3fff);
    assert_eq!(a.get(idx), 0x3fff);
    assert_eq!(a.get(idx - 1), 0);
    assert_eq!(a.get(idx + 1), 0);
    a.set(idx, 0x1234);
    assert_eq!(a.get(idx), 0x1234);
}

#[test]
fn bit_array_every_width() {
    for bits in 1u8..=64 {
        let mut a = BitArray::new(bits, 100);
        let max = a.highest_possible_value();
        for i in 0..100usize {
            a.set(i, (i as u64 * 0x9e37_79b9_7f4a_7c15) & max);
        }
        for i in 0..100usize {
            assert_eq!(a.get(i), (i as u64 * 0x9e37_79b9_7f4a_7c15) & max, "bits {}", bits);
        }
    }
}

#[test]
fn bit_array_isolation() {
    let mut a = BitArray::new(9, 256);
    for i in 0..256 {
        a.set(i, 16);
    }
    a.set(7, 511);
    for i in 0..256 {
        assert_eq!(a.get(i), if i == 7 { 511 } else { 16 });
    }
    let raw = BitArray::from_raw(a.inner().clone(), 9, 256);
    assert_eq!(raw.get(7), 511);
    assert_eq!(raw.get(8), 16);
}

#[test]
fn block_ids() {
    assert_eq!(Block::Grass.id(), 0x20);
    assert_eq!(Block::from_id(0x30), Ok(Block::Dirt));
    assert_eq!(Block::from_id(5), Err(UnknownBlockId { id: 5 }));
}

#[test]
fn section_set_and_read_blocks() {
    let mut s = ChunkSection::new();
    assert_eq!(s.block_at(3, 4, 5), Ok(Block::Air));
    s.set_block_at(3, 4, 5, Block::Dirt);
    assert_eq!(s.block_at(3, 4, 5), Ok(Block::Dirt));
    assert_eq!(s.block_at(4, 4, 5), Ok(Block::Air));
    s.set_block_at(3, 4, 5, Block::Air);
    assert_eq!(s.block_at(3, 4, 5), Ok(Block::Air));
}

#[test]
fn grass_section_fills_lower_corner() {
    let s = grass_chunk_section();
    assert_eq!(s.block_at(0, 0, 0), Ok(Block::Grass));
    assert_eq!(s.block_at(14, 14, 14), Ok(Block::Grass));
    assert_eq!(s.block_at(15, 0, 0), Ok(Block::Air));
    assert_eq!(s.block_at(0, 15, 0), Ok(Block::Air));
    assert_eq!(s.block_at(0, 0, 15), Ok(Block::Air));
}

#[test]
fn height_map_fragment_layout() {
    let h = HeightMaps::new();
    let b = h.as_bytes();
    assert_eq!(b.len(), 4 + 2 + 15 + 4 + 36 * 8 + 1);
    assert_eq!(&b[..6], &[10, 0, 0, 12, 0, 15]);
    assert_eq!(&b[6..21], b"MOTION_BLOCKING");
    assert_eq!(&b[21..25], &[0, 0, 0, 36]);
    assert_eq!(*b.last().unwrap(), 0);
    let mut words = Vec::new();
    for k in 0..36 {
        let mut w = [0u8; 8];
        w.copy_from_slice(&b[25 + 8 * k..33 + 8 * k]);
        words.push(u64::from_be_bytes(w));
    }
    let a = BitArray::from_raw(words, 9, 256);
    for i in 0..256 {
        assert_eq!(a.get(i), 16);
    }
}

#[test]
fn chunk_packet_layout() {
    let bytes = ChunkPacket::new(ChunkColumn::new((1, -1))).build();
    let body_len = 1 + 4 + 4 + 1 + 1 + 314 + 4096 + 2 + 7168 + 1;
    assert_eq!(body_len, 11592);
    assert_eq!(&bytes[..2], &[0xc8, 0x5a]);
    assert_eq!(bytes.len(), 2 + body_len);
    assert_eq!(&bytes[2..13], &[0x22, 0, 0, 0, 1, 0xff, 0xff, 0xff, 0xff, 1, 1]);
    assert_eq!(&bytes[13..19], &[10, 0, 0, 12, 0, 15]);
    let biomes = 13 + 314;
    assert_eq!(&bytes[biomes..biomes + 4], &[0, 0, 0, 21]);
    let size = biomes + 4096;
    assert_eq!(&bytes[size..size + 2], &[0x80, 0x38]);
    assert_eq!(*bytes.last().unwrap(), 0);
    let _ = Biomes::new();
}

#[test]
fn chunk_encoding_is_deterministic() {
    let a = ChunkPacket::new(ChunkColumn::new((3, 4))).build();
    let b = ChunkPacket::new(ChunkColumn::new((3, 4))).build();
    assert_eq!(a, b);
}
