use voxel::chunk::UNIT;
use voxel::raycast::STEP;
use voxel::{raycast, BlockKind, Chunk, GridPos, Shape, WorldPos};

fn at(x: i64, y: i64, z: i64) -> WorldPos {
    WorldPos { x: x * UNIT, y: y * UNIT, z: z * UNIT }
}

fn grid_with_one_cell() -> Chunk {
    let mut c = Chunk::filled(BlockKind::Air, Shape::new(4, 8, 4).unwrap());
    c.set_block(at(2, 2, 2), BlockKind::Grass);
    c
}

#[test]
fn ray_finds_the_solid_cell() {
    let c = grid_with_one_cell();
    let b = raycast(&c, at(2, 2, -10), WorldPos { x: 0, y: 0, z: 1000 }, 20 * UNIT).unwrap();
    assert_eq!(b.position, GridPos { x: 2, y: 2, z: 2 });
    assert_eq!(b.index, c.shape.to_index(GridPos { x: 2, y: 2, z: 2 }));
    assert_eq!(b.kind, BlockKind::Grass);
}

#[test]
fn zero_distance_finds_nothing() {
    let c = Chunk::filled(BlockKind::Grass, Shape::new(4, 8, 4).unwrap());
    assert!(raycast(&c, at(1, 1, 1), WorldPos { x: 0, y: 0, z: 1000 }, 0).is_none());
    assert!(raycast(&c, at(1, 1, 1), WorldPos { x: 1000, y: 0, z: 0 }, -5).is_none());
    assert!(raycast(&c, at(1, 1, 1), WorldPos { x: 1000, y: 0, z: 0 }, STEP - 1).is_none());
    assert!(raycast(&c, at(1, 1, 1), WorldPos { x: 1000, y: 0, z: 0 }, STEP).is_some());
}

#[test]
fn ray_that_falls_short_finds_nothing() {
    let c = grid_with_one_cell();
    assert!(raycast(&c, at(2, 2, -10), WorldPos { x: 0, y: 0, z: 1000 }, 11 * UNIT).is_none());
    assert!(raycast(&c, at(2, 2, -10), WorldPos { x: 0, y: 0, z: 1000 }, 12 * UNIT).is_some());
}

#[test]
fn ray_that_misses_the_grid_finds_nothing() {
    let c = Chunk::filled(BlockKind::Grass, Shape::new(4, 8, 4).unwrap());
    assert!(raycast(&c, at(2, 2, -10), WorldPos { x: 0, y: 0, z: -1000 }, 100 * UNIT).is_none());
    assert!(raycast(&c, at(20, 2, 2), WorldPos { x: 0, y: 1000, z: 0 }, 100 * UNIT).is_none());
}

#[test]
fn ray_passes_through_empty_cells() {
    let c = Chunk::filled(BlockKind::Air, Shape::new(4, 8, 4).unwrap());
    assert!(raycast(&c, at(2, 2, -10), WorldPos { x: 0, y: 0, z: 1000 }, 30 * UNIT).is_none());
}

#[test]
fn ray_from_above_stops_at_top_solid_cell() {
    let mut c = Chunk::filled(BlockKind::Air, Shape::new(4, 8, 4).unwrap());
    c.set_block(at(1, 0, 1), BlockKind::Grass);
    c.set_block(at(1, 3, 1), BlockKind::Grass);
    let b = raycast(&c, at(1, 20, 1), WorldPos { x: 0, y: -1000, z: 0 }, 30 * UNIT).unwrap();
    assert_eq!(b.position, GridPos { x: 1, y: 3, z: 1 });
}

#[test]
fn diagonal_ray_hits_cell() {
    let c = grid_with_one_cell();
    // Unit vector (0.6, 0, 0.8) in thousandths.
    let b = raycast(&c, WorldPos { x: -1000, y: 2000, z: -2000 }, WorldPos { x: 600, y: 0, z: 800 }, 10 * UNIT).unwrap();
    assert_eq!(b.position, GridPos { x: 2, y: 2, z: 2 });
}
