use voxel::chunk::UNIT;
use voxel::texture::uv_debug_texture_data;
use voxel::{BlockKind, Chunk, GridPos, Shape, Visibility, WorldPos};

fn at(x: i64, y: i64, z: i64) -> WorldPos {
    WorldPos { x: x * UNIT, y: y * UNIT, z: z * UNIT }
}

fn chunk_4x8x4(kind: BlockKind) -> Chunk {
    Chunk::filled(kind, Shape::new(4, 8, 4).unwrap())
}

#[test]
fn shape_new_accepts_small_and_refuses_huge() {
    assert_eq!(Shape::new(4, 8, 4), Some(Shape { width: 4, height: 8, depth: 4 }));
    assert!(Shape::new(0, 0, 0).is_some());
    assert_eq!(Shape::new(u32::MAX, 1, 1), None);
    assert_eq!(Shape::new(1000, 1000, 1000), None);
}

#[test]
fn shape_volume_and_index() {
    let s = Shape::new(4, 8, 4).unwrap();
    assert_eq!(s.volume(), 128);
    assert_eq!(s.to_index(GridPos { x: 0, y: 0, z: 0 }), 0);
    assert_eq!(s.to_index(GridPos { x: 2, y: 2, z: 2 }), 74);
    assert_eq!(s.to_index(GridPos { x: 3, y: 7, z: 3 }), 127);
    assert_eq!(s.to_coord(74), GridPos { x: 2, y: 2, z: 2 });
}

#[test]
fn shape_index_round_trip() {
    let s = Shape::new(3, 5, 2).unwrap();
    let mut seen = vec![false; s.volume()];
    for z in 0..2 {
        for y in 0..5 {
            for x in 0..3 {
                let p = GridPos { x, y, z };
                let i = s.to_index(p);
                assert!(i < s.volume());
                assert!(!seen[i]);
                seen[i] = true;
                assert_eq!(s.to_coord(i), p);
            }
        }
    }
    assert!(seen.iter().all(|b| *b));
}

#[test]
fn filled_sets_every_cell() {
    let c = chunk_4x8x4(BlockKind::Grass);
    assert_eq!(c.blocks.len(), 128);
    assert!(c.blocks.iter().all(|k| *k == BlockKind::Grass));
}

#[test]
fn set_then_get_returns_kind() {
    let mut c = chunk_4x8x4(BlockKind::Air);
    for &(x, y, z) in &[(0, 0, 0), (2, 2, 2), (3, 7, 3), (1, 6, 0)] {
        c.set_block(at(x, y, z), BlockKind::Grass);
        let b = c.block(at(x, y, z)).unwrap();
        assert_eq!(b.kind, BlockKind::Grass);
        assert_eq!(b.position, GridPos { x: x as u32, y: y as u32, z: z as u32 });
        assert_eq!(b.index, c.shape.to_index(b.position));
        c.set_block(at(x, y, z), BlockKind::Air);
        assert_eq!(c.block(at(x, y, z)).unwrap().kind, BlockKind::Air);
    }
}

#[test]
fn out_of_range_get_is_none_and_set_is_ignored() {
    let mut c = chunk_4x8x4(BlockKind::Air);
    let before = c.blocks.clone();
    for p in [at(-1, 0, 0), at(0, -1, 0), at(0, 0, -1), at(4, 0, 0), at(0, 8, 0), at(0, 0, 4), at(9, 9, 9)] {
        assert!(c.block(p).is_none());
        c.set_block(p, BlockKind::Grass);
        assert_eq!(c.blocks, before);
    }
}

#[test]
fn positions_round_to_nearest_cell() {
    let mut c = chunk_4x8x4(BlockKind::Air);
    c.set_block(at(1, 2, 3), BlockKind::Grass);
    let b = c.block(WorldPos { x: 1499, y: 2400, z: 2500 }).unwrap();
    assert_eq!(b.position, GridPos { x: 1, y: 2, z: 3 });
    assert_eq!(b.kind, BlockKind::Grass);
    assert_eq!(c.block(WorldPos { x: 1500, y: 0, z: 0 }).unwrap().position, GridPos { x: 2, y: 0, z: 0 });
    // -0.499 rounds to 0, which is inside; -0.5 rounds to -1, which is not.
    assert_eq!(c.block(WorldPos { x: -499, y: 0, z: 0 }).unwrap().position, GridPos { x: 0, y: 0, z: 0 });
    assert!(c.block(WorldPos { x: -500, y: 0, z: 0 }).is_none());
    assert!(c.block(WorldPos { x: 3499, y: 0, z: 0 }).is_some());
    assert!(c.block(WorldPos { x: 3500, y: 0, z: 0 }).is_none());
}

#[test]
fn iterate_visits_every_cell_once_in_order() {
    let mut c = chunk_4x8x4(BlockKind::Air);
    c.set_block(at(2, 2, 2), BlockKind::Grass);
    let all = c.iterate();
    assert_eq!(all.len(), 128);
    let mut seen = std::collections::HashSet::new();
    for (i, b) in all.iter().enumerate() {
        assert_eq!(b.index, i);
        assert_eq!(c.shape.to_index(b.position), i);
        assert!(seen.insert((b.position.x, b.position.y, b.position.z)));
        let expected = if b.position == (GridPos { x: 2, y: 2, z: 2 }) { BlockKind::Grass } else { BlockKind::Air };
        assert_eq!(b.kind, expected);
    }
    assert_eq!(all[0].position, GridPos { x: 0, y: 0, z: 0 });
    assert_eq!(all[1].position, GridPos { x: 1, y: 0, z: 0 });
    assert_eq!(all[4].position, GridPos { x: 0, y: 1, z: 0 });
    assert_eq!(all[32].position, GridPos { x: 0, y: 0, z: 1 });
    assert_eq!(c.iterate(), all);
}

#[test]
fn iter_cursor_ends_after_last_cell() {
    let c = Chunk::filled(BlockKind::Grass, Shape::new(2, 1, 2).unwrap());
    let mut it = c.iter();
    let mut n = 0;
    while let Some(b) = it.next() {
        assert_eq!(b.index, n);
        n += 1;
    }
    assert_eq!(n, 4);
    assert!(it.next().is_none());
}

#[test]
fn edit_at_applies_clicks() {
    let mut c = chunk_4x8x4(BlockKind::Air);
    c.edit_at(5, false, true);
    assert_eq!(c.blocks[5], BlockKind::Grass);
    c.edit_at(5, true, false);
    assert_eq!(c.blocks[5], BlockKind::Air);
    c.edit_at(5, true, true);
    assert_eq!(c.blocks[5], BlockKind::Grass);
    let before = c.blocks.clone();
    c.edit_at(5, false, false);
    c.edit_at(128, true, true);
    assert_eq!(c.blocks, before);
}

#[test]
fn block_kind_capabilities() {
    assert_eq!(BlockKind::Air.get_visibility(), Visibility::Empty);
    assert_eq!(BlockKind::Grass.get_visibility(), Visibility::Opaque);
    assert_eq!(BlockKind::Grass.merge_value(), BlockKind::Grass);
    assert_eq!(BlockKind::Air.merge_value(), BlockKind::Air);
}

#[test]
fn debug_texture_rows_turn_right() {
    let t = uv_debug_texture_data();
    assert_eq!(t.len(), 256);
    assert_eq!(&t[0..4], &[255, 102, 159, 255]);
    assert_eq!(&t[32..36], &[236, 102, 255, 255]);
    assert_eq!(&t[36..40], &[255, 102, 159, 255]);
    assert_eq!(&t[224..228], &[255, 159, 102, 255]);
}

#[test]
fn from_blocks_keeps_storage() {
    let s = Shape::new(2, 2, 1).unwrap();
    let c = Chunk::from_blocks(s, vec![BlockKind::Air, BlockKind::Grass, BlockKind::Air, BlockKind::Grass]);
    assert_eq!(c.block(WorldPos { x: 1000, y: 0, z: 0 }).unwrap().kind, BlockKind::Grass);
    assert_eq!(c.block(WorldPos { x: 0, y: 1000, z: 0 }).unwrap().kind, BlockKind::Air);
    assert_eq!(c.block(WorldPos { x: 1000, y: 1000, z: 0 }).unwrap().index, 3);
}
