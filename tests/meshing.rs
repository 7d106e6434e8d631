use voxel::chunk::UNIT;
use voxel::{BlockKind, Chunk, ChunkMesh, GridPos, Shape, WorldPos};

fn at(x: i64, y: i64, z: i64) -> WorldPos {
    WorldPos { x: x * UNIT, y: y * UNIT, z: z * UNIT }
}

fn solid(w: u32, h: u32, d: u32) -> Chunk {
    Chunk::filled(BlockKind::Grass, Shape::new(w, h, d).unwrap())
}

const NORMAL_AXIS: [usize; 6] = [0, 1, 2, 0, 1, 2];
const U_AXIS: [usize; 6] = [2, 2, 0, 2, 2, 0];
const V_AXIS: [usize; 6] = [1, 0, 1, 1, 0, 1];
const SIGN: [i64; 6] = [-1, -1, -1, 1, 1, 1];

fn kind(c: &Chunk, p: [i64; 3]) -> BlockKind {
    match c.block(at(p[0], p[1], p[2])) {
        Some(b) => b.kind,
        None => BlockKind::Air,
    }
}

/// Every unit face that a quad covers is an exposed face of an opaque cell of the quad's kind.
fn check_surface(c: &Chunk, m: &ChunkMesh) {
    for mq in &m.quads {
        let f = mq.face;
        let q = mq.quad;
        let min = [q.x as i64, q.y as i64, q.z as i64];
        let k0 = kind(c, min);
        assert_eq!(k0, BlockKind::Grass);
        for du in 0..q.width as i64 {
            for dv in 0..q.height as i64 {
                let mut p = min;
                p[U_AXIS[f]] += du;
                p[V_AXIS[f]] += dv;
                assert_eq!(kind(c, p), k0);
                let mut n = p;
                n[NORMAL_AXIS[f]] += SIGN[f];
                assert_eq!(kind(c, n), BlockKind::Air);
            }
        }
    }
}

fn covered_faces(m: &ChunkMesh) -> usize {
    m.quads.iter().map(|mq| (mq.quad.width * mq.quad.height) as usize).sum()
}

#[test]
fn empty_grid_has_no_geometry() {
    let c = Chunk::filled(BlockKind::Air, Shape::new(4, 8, 4).unwrap());
    let m = c.mesh();
    assert_eq!(m.quads.len(), 0);
    assert_eq!(m.indices.len(), 0);
}

#[test]
fn solid_grid_has_six_quads() {
    for &(w, h, d) in &[(4, 8, 4), (1, 1, 1), (3, 2, 5), (16, 16, 16)] {
        let c = solid(w, h, d);
        let m = c.mesh();
        assert_eq!(m.quads.len(), 6);
        assert_eq!(m.quads.len() * 4, 24);
        assert_eq!(m.indices.len(), 36);
        for (f, mq) in m.quads.iter().enumerate() {
            assert_eq!(mq.face, f);
        }
        check_surface(&c, &m);
        assert_eq!(covered_faces(&m) as u32, 2 * (w * h + h * d + w * d));
    }
}

#[test]
fn single_cell_has_one_quad_per_face() {
    let mut c = Chunk::filled(BlockKind::Air, Shape::new(4, 8, 4).unwrap());
    c.set_block(at(2, 2, 2), BlockKind::Grass);
    let m = c.mesh();
    assert_eq!(m.quads.len(), 6);
    for (f, mq) in m.quads.iter().enumerate() {
        assert_eq!(mq.face, f);
        assert_eq!((mq.quad.x, mq.quad.y, mq.quad.z), (2, 2, 2));
        assert_eq!((mq.quad.width, mq.quad.height), (1, 1));
    }
    assert_eq!(&m.indices[0..6], &[0, 1, 2, 1, 3, 2]);
    assert_eq!(&m.indices[6..12], &[4, 6, 5, 5, 6, 7]);
    assert_eq!(&m.indices[12..18], &[8, 10, 9, 9, 10, 11]);
    assert_eq!(&m.indices[18..24], &[12, 14, 13, 13, 14, 15]);
    assert_eq!(&m.indices[24..30], &[16, 17, 18, 17, 19, 18]);
    assert_eq!(&m.indices[30..36], &[20, 21, 22, 21, 23, 22]);
}

#[test]
fn adjacent_cells_share_no_face() {
    let mut c = Chunk::filled(BlockKind::Air, Shape::new(4, 8, 4).unwrap());
    c.set_block(at(1, 1, 1), BlockKind::Grass);
    c.set_block(at(2, 1, 1), BlockKind::Grass);
    let m = c.mesh();
    check_surface(&c, &m);
    assert_eq!(covered_faces(&m), 10);
    assert_eq!(m.quads.len(), 6);
    let minus_x: Vec<_> = m.quads.iter().filter(|q| q.face == 0).collect();
    let plus_x: Vec<_> = m.quads.iter().filter(|q| q.face == 3).collect();
    assert_eq!(minus_x.len(), 1);
    assert_eq!(plus_x.len(), 1);
    assert_eq!(minus_x[0].quad.x, 1);
    assert_eq!(plus_x[0].quad.x, 2);
}

#[test]
fn carved_grid_surface_is_exposed_faces_only() {
    let mut c = solid(4, 8, 4);
    c.set_block(at(1, 3, 1), BlockKind::Air);
    c.set_block(at(0, 0, 0), BlockKind::Air);
    c.set_block(at(2, 7, 3), BlockKind::Air);
    let m = c.mesh();
    check_surface(&c, &m);
    // Outer faces: 2 * (32 + 32 + 16) = 160. The inner hole adds 6; the
    // removed corner takes 3 outer faces and bares 3 inner ones; the removed
    // edge cell takes 2 outer faces and bares 4.
    assert_eq!(covered_faces(&m), 168);
    assert_eq!(m.indices.len(), 6 * m.quads.len());
    assert_eq!(m.indices[m.indices.len() - 1] as usize, 4 * m.quads.len() - 2);
}

#[test]
fn meshing_is_deterministic() {
    let mut c = solid(4, 8, 4);
    c.set_block(at(1, 3, 1), BlockKind::Air);
    let a = c.mesh();
    let b = c.mesh();
    assert_eq!(a.quads, b.quads);
    assert_eq!(a.indices, b.indices);
    let _ = GridPos { x: 0, y: 0, z: 0 };
}
