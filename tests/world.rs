use gyra::chunk_cons::{
    face_corners, face_normal, greedy, quad_indices, quad_uvs, Block, ChunkConstructor, Face, FaceQuad,
    Quad, Shape,
};
use gyra::nibble::NibbleArray;
use gyra::distance::ChunkVec2;
use gyra::smp::{ChunkColumn, ChunkSection, NetworkBlock};
use gyra::world::{next_rendered, render_changes, ActiveChunks, ChunkStore};

fn empty_column(x: i32, z: i32) -> ChunkColumn {
    ChunkColumn::from_sections(vec![], 0, x, z)
}

fn full_section(value: u16) -> ChunkSection {
    let mut data = Vec::new();
    for _ in 0..4096 {
        data.extend_from_slice(&value.to_le_bytes());
    }
    data.extend(std::iter::repeat(0u8).take(4096));
    ChunkSection::decode(&data, &mut 0).unwrap()
}

#[test]
fn full_section_gives_six_quads() {
    let col = ChunkColumn::from_sections(vec![full_section(0x0010)], 1, 0, 0);
    let k = ChunkConstructor::new(col, None, None, None, None);
    let quads = k.construct();
    assert_eq!(quads.len(), 6);
    let mut faces: Vec<Face> = quads.iter().map(|q| q.face).collect();
    faces.dedup();
    assert_eq!(faces.len(), 6);
    for q in &quads {
        assert_eq!(q.quad, Quad { x: 0, y: 0, width: 16, height: 16 });
        let expected_layer = match q.face {
            Face::Top | Face::Right | Face::Front => 15,
            _ => 0,
        };
        assert_eq!(q.layer, expected_layer);
    }
    // two triangles per quad
    assert_eq!(quads.len() * 6, 36);
}

#[test]
fn neighbour_culls_shared_face() {
    let col = ChunkColumn::from_sections(vec![full_section(0x0010)], 1, 0, 0);
    let east = ChunkColumn::from_sections(vec![full_section(0x0010)], 1, 1, 0);
    let k = ChunkConstructor::new(col, None, Some(east), None, None);
    let quads = k.construct();
    assert!(quads.iter().all(|q| q.face != Face::Right));
    assert_eq!(quads.len(), 5);
}

#[test]
fn greedy_merges_rectangles() {
    let mut board = vec![0u16; 16];
    board[0] = 0b0111;
    board[1] = 0b0111;
    board[2] = 0b0001;
    let quads = greedy(&mut board);
    assert_eq!(
        quads,
        vec![Quad { x: 0, y: 0, width: 2, height: 3 }, Quad { x: 2, y: 0, width: 1, height: 1 }]
    );
    let mut full = vec![0xFFFFu16; 16];
    assert_eq!(greedy(&mut full), vec![Quad { x: 0, y: 0, width: 16, height: 16 }]);
    let mut empty = vec![0u16; 16];
    assert!(greedy(&mut empty).is_empty());
}

#[test]
fn store_replaces_same_position() {
    let mut store = ChunkStore::new();
    store.insert(empty_column(1, 2));
    store.insert(empty_column(3, 4));
    let mut again = empty_column(1, 2);
    again.biomes[0] = 9;
    store.insert(again);
    assert_eq!(store.len(), 2);
    assert_eq!(store.get(1, 2).unwrap().biomes[0], 9);
    assert!(store.contains(3, 4));
    assert!(!store.contains(5, 5));
}

#[test]
fn active_set_is_bounded() {
    let mut store = ChunkStore::new();
    for x in -6..=6 {
        for z in -6..=6 {
            store.insert(empty_column(x, z));
        }
    }
    let mut active = ActiveChunks::new(2);
    assert!(active.update(&store, 5, 5, false));
    assert_eq!(active.keys.len(), 25);
    assert!(active.keys.iter().all(|k| k.x.abs() <= 2 && k.z.abs() <= 2));
    // same position, nothing changed: kept as it is
    assert!(!active.update(&store, 5, 5, false));
    // move by one chunk to the west
    assert!(active.update(&store, -12, 5, false));
    assert_eq!(active.keys.len(), 25);
    assert!(active.keys.contains(&ChunkVec2 { x: -3, z: 0 }));
    // at the corner of the loaded square only part of it is loaded
    assert!(active.update(&store, 6 * 16, 6 * 16, false));
    assert_eq!(active.keys.len(), 9);
}

#[test]
fn chunk_positions() {
    assert_eq!(ChunkVec2::new_global(-1, 17), ChunkVec2 { x: -1, z: 1 });
    assert_eq!(ChunkVec2::new_global(-16, -17), ChunkVec2 { x: -1, z: -2 });
    assert_eq!(ChunkVec2::new_local(3, 4).as_global(), (48, 64));
    assert_eq!(ChunkVec2::new_local(3, 4).as_local(), (3, 4));
}

#[test]
fn render_set_changes() {
    let a = ChunkVec2 { x: 0, z: 0 };
    let b = ChunkVec2 { x: 1, z: 0 };
    let c = ChunkVec2 { x: 2, z: 0 };
    let (start, stop) = render_changes(&vec![a, b], &vec![b, c]);
    assert_eq!(start, vec![a]);
    assert_eq!(stop, vec![c]);
}

#[test]
fn blocks_and_shapes() {
    assert_eq!(Block::from_id(0), Block::Air);
    assert_eq!(Block::from_id(2), Block::Grass);
    assert_eq!(Block::from_id(121), Block::Unknown);
    assert_eq!(Block::from_id(0).shape(), Shape::Air);
    assert_eq!(Block::from_id(1).shape(), Shape::Cube);
    assert!(Shape::Cube.is_visible() && Shape::Cube.is_solid());
    assert!(!Shape::Air.is_visible() && !Shape::Air.is_solid());
}

#[test]
fn packed_blocks_and_nibbles() {
    assert_eq!(NetworkBlock { id: 121, metadata: 3 }.to_u16(), 0x0793);
    assert_eq!(NetworkBlock::from_u16(0x0793), NetworkBlock { id: 121, metadata: 3 });
    let mut n = NibbleArray::from_bytes(vec![0x21, 0x43]);
    assert_eq!(n.size(), 4);
    assert_eq!((n.get(0), n.get(1), n.get(2), n.get(3)), (1, 2, 3, 4));
    n.set(1, 0xF);
    n.set(2, 0x1A);
    assert_eq!((n.get(0), n.get(1), n.get(2), n.get(3)), (1, 15, 10, 4));
}

#[test]
fn section_recount() {
    let mut s = full_section(0x0010);
    s.blocks[0].id = 0;
    s.blocks[5].id = 0;
    s.recount();
    assert_eq!(s.count, 4094);
    assert_eq!(gyra::packet::When::Play.describe(), "playing");
}

#[test]
fn greedy_leftover_and_order() {
    let mut full = vec![0xFFFFu16; 16];
    greedy(&mut full);
    let mut expected = vec![0u16; 16];
    expected[0] = 0xFFFF;
    assert_eq!(full, expected);
    let mut empty = vec![0u16; 16];
    assert!(greedy(&mut empty).is_empty());
    assert_eq!(empty, vec![0u16; 16]);
    let mut board = vec![0u16; 16];
    board[0] = 0b1011;
    board[3] = 0b0110;
    board[4] = 0b0110;
    let quads = greedy(&mut board);
    for w in quads.windows(2) {
        assert!(w[0].x < w[1].x || (w[0].x == w[1].x && w[0].y < w[1].y));
    }
    assert_eq!(quads.len(), 3);
    assert_eq!(board[4], 0);
}

#[test]
fn render_changes_once_per_key() {
    let keys: Vec<ChunkVec2> = (0..5).map(|x| ChunkVec2 { x, z: 0 }).collect();
    let (start, stop) = render_changes(&keys, &vec![keys[1], ChunkVec2 { x: 9, z: 9 }]);
    assert_eq!(start.len(), 4);
    assert_eq!(stop, vec![ChunkVec2 { x: 9, z: 9 }]);
}

#[test]
fn legacy_section_ids() {
    let s = gyra::smp::Section { blocks: vec![0x1790; 4096], block_light: vec![], sky_light: vec![] };
    assert_eq!(s.get_block_id(1, 2, 3), 0x790);
}

fn cross(a: (u32, u32, u32), b: (u32, u32, u32), c: (u32, u32, u32)) -> (i64, i64, i64) {
    let e1 = (b.0 as i64 - a.0 as i64, b.1 as i64 - a.1 as i64, b.2 as i64 - a.2 as i64);
    let e2 = (c.0 as i64 - a.0 as i64, c.1 as i64 - a.1 as i64, c.2 as i64 - a.2 as i64);
    (e1.1 * e2.2 - e1.2 * e2.1, e1.2 * e2.0 - e1.0 * e2.2, e1.0 * e2.1 - e1.1 * e2.0)
}

#[test]
fn face_geometry_points_outward() {
    let faces = [Face::Top, Face::Bottom, Face::Left, Face::Right, Face::Front, Face::Back];
    for face in faces {
        let q = FaceQuad { section: 0, face, layer: 15, quad: Quad { x: 2, y: 3, width: 4, height: 5 } };
        let c = face_corners(&q);
        assert_eq!(c.len(), 4);
        let n = face_normal(face);
        let x = cross(c[0], c[1], c[2]);
        assert_eq!(x, (n.0 as i64 * 20, n.1 as i64 * 20, n.2 as i64 * 20));
    }
    let top = FaceQuad { section: 0, face: Face::Top, layer: 15, quad: Quad { x: 0, y: 0, width: 16, height: 16 } };
    assert_eq!(face_corners(&top), vec![(0, 16, 0), (0, 16, 16), (16, 16, 16), (16, 16, 0)]);
    assert_eq!(face_normal(Face::Left), (-1, 0, 0));
    assert_eq!(quad_indices(4), vec![4, 5, 6, 6, 7, 4]);
    assert_eq!(quad_uvs(), vec![(0, 0), (1, 0), (1, 1), (0, 1)]);
}

#[test]
fn rendered_set_becomes_in_front_set() {
    let a = ChunkVec2 { x: 0, z: 0 };
    let b = ChunkVec2 { x: 1, z: 0 };
    let c = ChunkVec2 { x: 2, z: 0 };
    assert_eq!(next_rendered(&vec![a, b, a], &vec![b, c]), vec![b, a]);
    assert!(next_rendered(&vec![], &vec![a]).is_empty());
}
