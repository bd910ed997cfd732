use gyra::chunk_packets::{ChunkData, MapChunkBulk};
use gyra::coding::Decoder;
use gyra::smp::{coord_to_index, ChunkColumn, ChunkSection, NetworkBlock};

fn section_bytes(value: u16) -> Vec<u8> {
    let mut data = vec![];
    for _ in 0..4096 {
        let raw = value.to_le_bytes();
        data.push(raw[0]);
        data.push(raw[1]);
    }
    for _ in 0..2048 {
        data.push(0);
    }
    for _ in 0..2048 {
        data.push(0);
    }
    data
}

#[test]
fn parse_end_stone_block() {
    let num = 1936;
    let block = NetworkBlock::from_u16(num);
    assert_eq!(block.id, 121);
    assert_eq!(block.metadata, 0);
}

#[test]
fn parse_example_chunk_section() {
    // a single section full of end stone
    let mut data = vec![];

    for _ in 0..4096 {
        let raw = 1936u16.to_le_bytes();
        data.push(raw[0]);
        data.push(raw[1]);
    }

    for _ in 0..2048 {
        data.push(0);
    }

    for _ in 0..2048 {
        data.push(0);
    }

    let section = ChunkSection::decode(&data, &mut 0).unwrap();

    let id = section.block_id(1, 1, 1);
    assert_eq!(id, 121);
}

#[test]
fn end_stone_section_metadata_and_count() {
    let data = section_bytes(0x0790);
    let mut pos = 0;
    let section = ChunkSection::decode(&data, &mut pos).unwrap();
    assert_eq!(pos, 12288);
    assert_eq!(section.block_id(1, 1, 1), 121);
    assert_eq!(section.metadata(1, 1, 1), 0);
    assert_eq!(section.count, 4096);
    assert_eq!(section.blocks.len(), 4096);
}

#[test]
fn section_blocks_follow_stream_order() {
    let mut data = Vec::new();
    for i in 0..4096u32 {
        let v = ((i % 4000) as u16) << 4 | (i % 16) as u16;
        data.extend_from_slice(&v.to_le_bytes());
    }
    data.extend(std::iter::repeat(0x21u8).take(2048));
    data.extend(std::iter::repeat(0x43u8).take(2048));
    let section = ChunkSection::decode(&data, &mut 0).unwrap();
    for (x, y, z) in [(0u16, 0u16, 0u16), (3, 7, 9), (15, 15, 15), (1, 2, 3)] {
        let idx = ((y & 0xF) << 8 | z << 4 | x) as usize;
        let raw = u16::from_le_bytes([data[2 * idx], data[2 * idx + 1]]);
        assert_eq!(section.block_id(x, y, z), raw >> 4);
        assert_eq!(section.metadata(x, y, z) as u16, raw & 0xF);
    }
    assert_eq!(section.blocklight.get(0), 1);
    assert_eq!(section.blocklight.get(1), 2);
    assert_eq!(section.skylight.get(0), 3);
    assert_eq!(section.skylight.get(1), 4);
}

#[test]
fn sentinel_truncates_a_section() {
    let mut data = Vec::new();
    for _ in 0..10 {
        data.extend_from_slice(&0x0010u16.to_le_bytes());
    }
    data.extend_from_slice(&0xFFF0u16.to_le_bytes());
    data.extend_from_slice(&[9, 9, 9]);
    let mut pos = 0;
    let section = ChunkSection::decode(&data, &mut pos).unwrap();
    assert_eq!(pos, 22);
    assert_eq!(section.blocks.len(), 10);
    assert_eq!(section.count, 10);
    assert_eq!(section.block_id(9, 0, 0), 1);
    assert_eq!(section.block_id(10, 0, 0), 0);
}

#[test]
fn short_section_is_an_error() {
    let data = section_bytes(0x10);
    assert!(ChunkSection::decode(&data[..12287], &mut 0).is_err());
    assert!(ChunkSection::decode(&data[..5], &mut 0).is_err());
}

#[test]
fn map_chunk_bulk_two_columns() {
    let mut data = vec![1u8, 2];
    for (x, z, mask) in [(0i32, 0i32, 0x0001u16), (1, 0, 0x0003)] {
        data.extend_from_slice(&x.to_be_bytes());
        data.extend_from_slice(&z.to_be_bytes());
        data.extend_from_slice(&mask.to_be_bytes());
    }
    data.extend(section_bytes(0x0010));
    data.extend(std::iter::repeat(7u8).take(256));
    data.extend(section_bytes(0x0020));
    data.extend(section_bytes(0x0030));
    data.extend(std::iter::repeat(8u8).take(256));
    let mut pos = 0;
    let bulk = MapChunkBulk::decode(&data, &mut pos).unwrap();
    assert_eq!(pos, data.len());
    assert!(bulk.sky_light_sent);
    assert_eq!(bulk.columns.len(), 2);
    let a = &bulk.columns[0];
    assert_eq!((a.x, a.z), (0, 0));
    assert!(a.sections[0].is_some());
    assert!(a.sections[1..].iter().all(|s| s.is_none()));
    assert_eq!(a.biomes, vec![7u8; 256]);
    let b = &bulk.columns[1];
    assert_eq!((b.x, b.z), (1, 0));
    assert!(b.sections[0].is_some() && b.sections[1].is_some());
    assert!(b.sections[2..].iter().all(|s| s.is_none()));
    assert_eq!(b.block_id_of(0, 17, 0), Some(3));
    assert_eq!(b.block_id_of(0, 40, 0), None);
}

#[test]
fn chunk_data_with_biomes() {
    let mut data = Vec::new();
    data.extend_from_slice(&3i32.to_be_bytes());
    data.extend_from_slice(&(-2i32).to_be_bytes());
    data.push(1);
    data.extend_from_slice(&0x8000u16.to_be_bytes());
    data.push(0);
    data.extend(section_bytes(0x0790));
    data.extend(std::iter::repeat(5u8).take(256));
    let mut pos = 0;
    let d = ChunkData::decode(&data, &mut pos).unwrap();
    assert_eq!(pos, data.len());
    assert_eq!((d.x, d.z), (3, -2));
    assert!(d.sections[15].is_some());
    assert!(d.sections[..15].iter().all(|s| s.is_none()));
    assert_eq!(d.biomes.len(), 256);
}

#[test]
fn column_from_sections_and_coordinates() {
    let s = ChunkSection::decode(&section_bytes(0x0790), &mut 0).unwrap();
    let t = ChunkSection::decode(&section_bytes(0x0010), &mut 0).unwrap();
    let col = ChunkColumn::from_sections(vec![s, t], 0b1010, 2, -1);
    assert!(col.sections[1].is_some() && col.sections[3].is_some());
    assert!(col.sections[0].is_none() && col.sections[2].is_none());
    assert_eq!(col.block_id_of(0, 16, 0), Some(121));
    assert_eq!(col.block_id_of(0, 48, 0), Some(1));
    assert_eq!(col.metadata_of(0, 0, 0), 0);
    assert_eq!(col.block_coordinates(1, 2, 3), (33, 2, -13));
    assert_eq!(col.get_world_coordinates(), ((32, 0, -16), (47, 255, -1)));
    assert_eq!(coord_to_index(1, 2, 3), 2 * 256 + 3 * 16 + 1);
}
