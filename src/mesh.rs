use vstd::prelude::*;
use vstd::set_lib::{lemma_int_range, lemma_len_subset, set_int_range};
use crate::block::{BlockKind, Visibility, visibility_of};
use crate::chunk::Chunk;
use crate::shape::{GridPos, MAX_PADDED_CELLS, delinear, linear, lemma_delinear_linear, lemma_linear_bound, lemma_index_coord_inverse};

verus! {

/// A rectangle of unit faces: its minimum cell, and how many cells it spans
/// along the face's `u` and `v` axes.
#[derive(Clone, Copy, Debug, PartialEq, Eq, Structural)]
pub struct Quad {
    pub x: u32,
    pub y: u32,
    pub z: u32,
    pub width: u32,
    pub height: u32,
}

/// A quad of the surface, with the face direction it looks towards.
#[derive(Clone, Copy, Debug, PartialEq, Eq, Structural)]
pub struct MeshQuad {
    pub face: usize,
    pub quad: Quad,
}

/// The surface of a grid: its quads in emission order, and the triangle
/// indices into the four vertices that each quad contributes in that order.
pub struct ChunkMesh {
    pub quads: Vec<MeshQuad>,
    pub indices: Vec<u32>,
}

/// The six face directions, in the order of the right-handed, y-up face
/// configuration: -x, -y, -z, +x, +y, +z. Axis 0 is x, 1 is y, 2 is z.
pub open spec fn normal_axis(f: int) -> int {
    if f == 0 || f == 3 { 0 } else if f == 1 || f == 4 { 1 } else { 2 }
}

pub open spec fn normal_sign(f: int) -> int {
    if f < 3 { -1 } else { 1 }
}

/// The axis along which a quad's width runs.
pub open spec fn u_axis(f: int) -> int {
    if normal_axis(f) == 2 { 0 } else { 2 }
}

/// The axis along which a quad's height runs.
pub open spec fn v_axis(f: int) -> int {
    if normal_axis(f) == 1 { 0 } else { 1 }
}

/// Whether the quads of face `f` are wound counter-clockwise.
pub open spec fn counter_clockwise(f: int) -> bool {
    f == 0 || f == 4 || f == 5
}

pub open spec fn comp(p: (int, int, int), a: int) -> int {
    if a == 0 { p.0 } else if a == 1 { p.1 } else { p.2 }
}

/// `p` moved by `k` along axis `a`.
pub open spec fn step(p: (int, int, int), a: int, k: int) -> (int, int, int) {
    if a == 0 { (p.0 + k, p.1, p.2) } else if a == 1 { (p.0, p.1 + k, p.2) } else { (p.0, p.1, p.2 + k) }
}

/// The cell that shares face `f` of cell `c`.
pub open spec fn neighbour(c: (int, int, int), f: int) -> (int, int, int) {
    step(c, normal_axis(f), normal_sign(f))
}

pub open spec fn quad_min(q: Quad) -> (int, int, int) {
    (q.x as int, q.y as int, q.z as int)
}

/// Whether face `f` of cell `c` is one of the unit faces that quad `q` covers.
pub open spec fn covers(q: Quad, f: int, c: (int, int, int)) -> bool {
    let m = quad_min(q);
    &&& comp(c, normal_axis(f)) == comp(m, normal_axis(f))
    &&& comp(m, u_axis(f)) <= comp(c, u_axis(f)) < comp(m, u_axis(f)) + q.width
    &&& comp(m, v_axis(f)) <= comp(c, v_axis(f)) < comp(m, v_axis(f)) + q.height
}

/// The cell `c` of a box of extents `dims` whose cells are laid out in `voxels`.
pub open spec fn voxel_at(voxels: Seq<BlockKind>, dims: (u32, u32, u32), c: (int, int, int)) -> BlockKind {
    voxels[linear(c.0, c.1, c.2, dims.0 as int, dims.1 as int)]
}

/// Whether `c` lies in a box of extents `dims` with its outermost layer taken off.
pub open spec fn interior(dims: (u32, u32, u32), c: (int, int, int)) -> bool {
    &&& 1 <= c.0 <= dims.0 - 2
    &&& 1 <= c.1 <= dims.1 - 2
    &&& 1 <= c.2 <= dims.2 - 2
}

/// Face `f` of cell `c` of the box is exposed: the cell is opaque and the
/// cell beyond that face is empty.
pub open spec fn voxel_face_visible(voxels: Seq<BlockKind>, dims: (u32, u32, u32), c: (int, int, int), f: int) -> bool {
    &&& visibility_of(voxel_at(voxels, dims, c)) == Visibility::Opaque
    &&& visibility_of(voxel_at(voxels, dims, neighbour(c, f))) == Visibility::Empty
}

/// What the greedy mesher finds in a box of cells: one group of quads for each face direction.
pub uninterp spec fn greedy_quads_of(voxels: Seq<BlockKind>, dims: (u32, u32, u32)) -> Seq<Seq<Quad>>;

/// A quad of face `f` that the greedy mesher may emit for the box: it is
/// non-empty, and every unit face it covers is an exposed face of an interior
/// cell of the same kind as the quad's minimum cell.
pub open spec fn greedy_quad_sound(voxels: Seq<BlockKind>, dims: (u32, u32, u32), q: Quad, f: int) -> bool {
    &&& q.width >= 1
    &&& q.height >= 1
    &&& forall|c: (int, int, int)| #[trigger] covers(q, f, c) ==> {
        &&& interior(dims, c)
        &&& voxel_face_visible(voxels, dims, c, f)
        &&& voxel_at(voxels, dims, c) == voxel_at(voxels, dims, quad_min(q))
    }
}

/// Relies on block_mesh::greedy_quads, run on `voxels` laid out by
/// ndshape::RuntimeShape over extents `dims`, between the corners `0` and
/// `last`, with the faces of block_mesh::RIGHT_HANDED_Y_UP_CONFIG. Its source
/// shows that it emits one group per face; that a quad grows only over cells
/// whose face needs a mesh (non-empty, not yet visited, the cell beyond the
/// face empty) and whose merge value is that of the quad's minimum cell, inside
/// the interior of the box; that it marks what a quad covers as visited, so no
/// two quads of a group share their minimum cell. Its documentation states that
/// every visible face of an interior cell is part of some quad.
#[verifier::external_body]
fn greedy_quads_padded(voxels: &Vec<BlockKind>, dx: u32, dy: u32, dz: u32, lx: u32, ly: u32, lz: u32) -> (r: Vec<Vec<Quad>>)
    requires
        2 <= dx && 2 <= dy && 2 <= dz,
        lx == dx - 1 && ly == dy - 1 && lz == dz - 1,
        dx * dy * dz <= u32::MAX,
        voxels@.len() == dx * dy * dz,
    ensures
        r@.len() == 6,
        r@.map_values(|group: Vec<Quad>| group@) == greedy_quads_of(voxels@, (dx, dy, dz)),
        forall|g: int, i: int|
            0 <= g < 6 && 0 <= i < r@[g]@.len() ==> greedy_quad_sound(voxels@, (dx, dy, dz), #[trigger] r@[g]@[i], g),
        forall|g: int, i: int, j: int|
            0 <= g < 6 && 0 <= i < r@[g]@.len() && 0 <= j < r@[g]@.len() && i != j
                ==> quad_min(#[trigger] r@[g]@[i]) != quad_min(#[trigger] r@[g]@[j]),
        forall|g: int, c: (int, int, int)|
            0 <= g < 6 && interior((dx, dy, dz), c) && #[trigger] voxel_face_visible(voxels@, (dx, dy, dz), c, g)
                ==> exists|i: int| 0 <= i < r@[g]@.len() && #[trigger] covers(r@[g]@[i], g, c),
{
    let shape = block_mesh::ndshape::RuntimeShape::<u32, 3>::new([dx, dy, dz]);
    let mut buffer = block_mesh::GreedyQuadsBuffer::new(voxels.len());
    let faces = &block_mesh::RIGHT_HANDED_Y_UP_CONFIG.faces;
    block_mesh::greedy_quads(voxels.as_slice(), &shape, [0; 3], [lx, ly, lz], faces, &mut buffer);
    buffer.quads.groups.iter().map(|g| g.iter().map(|q| Quad {
        x: q.minimum[0], y: q.minimum[1], z: q.minimum[2], width: q.width, height: q.height,
    }).collect()).collect()
}

/// A quad moved from the coordinates of the bordered box to those of the grid.
pub open spec fn shifted(q: Quad) -> Quad {
    Quad { x: (q.x - 1) as u32, y: (q.y - 1) as u32, z: (q.z - 1) as u32, width: q.width, height: q.height }
}

/// The quads of one group, moved into grid coordinates and tagged with face `f`.
pub open spec fn tagged(group: Seq<Quad>, f: int) -> Seq<MeshQuad> {
    group.map_values(|q: Quad| MeshQuad { face: f as usize, quad: shifted(q) })
}

/// The tagged quads of the first `g` groups, one group after the other.
pub open spec fn flat_prefix(groups: Seq<Seq<Quad>>, g: nat) -> Seq<MeshQuad>
    decreases g,
{
    if g == 0 {
        Seq::empty()
    } else {
        flat_prefix(groups, (g - 1) as nat) + tagged(groups[g - 1], g - 1)
    }
}

/// The six indices that make two triangles of the four vertices from `start`.
pub open spec fn quad_indices(start: int, ccw: bool) -> Seq<u32> {
    let (a, b, c, d) = (start as u32, (start + 1) as u32, (start + 2) as u32, (start + 3) as u32);
    if ccw {
        seq![a, b, c, b, d, c]
    } else {
        seq![a, c, b, b, c, d]
    }
}

/// The triangle indices of a sequence of quads: six for each, quad `k` using
/// the vertices from `4k`.
pub open spec fn mesh_indices(quads: Seq<MeshQuad>) -> Seq<u32>
    decreases quads.len(),
{
    if quads.len() == 0 {
        Seq::empty()
    } else {
        mesh_indices(quads.drop_last()) + quad_indices(
            4 * (quads.len() - 1),
            counter_clockwise(quads.last().face as int),
        )
    }
}

proof fn lemma_mesh_indices_len(quads: Seq<MeshQuad>)
    ensures
        mesh_indices(quads).len() == 6 * quads.len(),
    decreases quads.len(),
{
    if quads.len() > 0 {
        lemma_mesh_indices_len(quads.drop_last());
    }
}

proof fn lemma_flat_prefix_index(groups: Seq<Seq<Quad>>, g: nat, f: nat, i: int)
    requires
        f < g,
        g <= groups.len(),
        0 <= i < groups[f as int].len(),
    ensures
        flat_prefix(groups, f).len() + i < flat_prefix(groups, g).len(),
        flat_prefix(groups, g)[flat_prefix(groups, f).len() + i] == tagged(groups[f as int], f as int)[i],
    decreases g,
{
    if f + 1 < g {
        lemma_flat_prefix_index(groups, (g - 1) as nat, f, i);
    }
}

/// No two quads of a group share their minimum cell, and every minimum cell is
/// interior, so a group holds at most as many quads as the box has interior cells.
proof fn lemma_group_len(voxels: Seq<BlockKind>, dims: (u32, u32, u32), group: Seq<Quad>, f: int)
    requires
        2 <= dims.0 && 2 <= dims.1 && 2 <= dims.2,
        forall|i: int| 0 <= i < group.len() ==> greedy_quad_sound(voxels, dims, #[trigger] group[i], f),
        forall|i: int, j: int|
            0 <= i < group.len() && 0 <= j < group.len() && i != j
                ==> quad_min(#[trigger] group[i]) != quad_min(#[trigger] group[j]),
    ensures
        group.len() <= (dims.0 - 2) * (dims.1 - 2) * (dims.2 - 2),
{
    let (w, h, d) = (dims.0 - 2, dims.1 - 2, dims.2 - 2);
    let key = |q: Quad| linear(q.x - 1, q.y - 1, q.z - 1, w, h);
    let keys = Seq::new(group.len(), |i: int| key(group[i]));
    assert forall|i: int| 0 <= i < group.len() implies interior(dims, quad_min(#[trigger] group[i])) by {
        assert(covers(group[i], f, quad_min(group[i])));
    }
    assert forall|i: int, j: int| 0 <= i < keys.len() && 0 <= j < keys.len() && i != j implies keys[i] != keys[j] by {
        let (a, b) = (quad_min(group[i]), quad_min(group[j]));
        lemma_delinear_linear(a.0 - 1, a.1 - 1, a.2 - 1, w, h);
        lemma_delinear_linear(b.0 - 1, b.1 - 1, b.2 - 1, w, h);
    }
    assert(keys.no_duplicates());
    keys.unique_seq_to_set();
    assert forall|k: int| keys.to_set().contains(k) implies set_int_range(0, w * h * d).contains(k) by {
        let i = choose|i: int| 0 <= i < keys.len() && keys[i] == k;
        let a = quad_min(group[i]);
        lemma_linear_bound(a.0 - 1, a.1 - 1, a.2 - 1, w, h, d);
    }
    assert(0 <= w * h * d) by (nonlinear_arith)
        requires 0 <= w, 0 <= h, 0 <= d;
    lemma_int_range(0, w * h * d);
    lemma_len_subset(keys.to_set(), set_int_range(0, w * h * d));
}

impl Chunk {
    /// The extents of the grid with a border one cell thick on every side.
    pub open spec fn padded_dims(&self) -> (u32, u32, u32) {
        ((self.shape.width + 2) as u32, (self.shape.height + 2) as u32, (self.shape.depth + 2) as u32)
    }

    /// Cell `c` of the bordered box: the grid's cell one step lower on each
    /// axis, or air in the border.
    pub open spec fn padded_cell(&self, c: (int, int, int)) -> BlockKind {
        let g = (c.0 - 1, c.1 - 1, c.2 - 1);
        if self.shape.contains(g) {
            self.kind_at(g)
        } else {
            BlockKind::Air
        }
    }

    /// The cells of the bordered box, in storage order.
    pub open spec fn padded(&self) -> Seq<BlockKind> {
        Seq::new(
            self.shape.padded_volume() as nat,
            |i: int| self.padded_cell(delinear(i, self.shape.width + 2, self.shape.height + 2)),
        )
    }

    /// Face `f` of cell `c` is on the surface: the cell is opaque, and the
    /// cell beyond that face is empty or outside the grid.
    pub open spec fn face_visible(&self, c: (int, int, int), f: int) -> bool {
        &&& self.shape.contains(c)
        &&& visibility_of(self.kind_at(c)) == Visibility::Opaque
        &&& (!self.shape.contains(neighbour(c, f)) || visibility_of(self.kind_at(neighbour(c, f))) == Visibility::Empty)
    }

    /// A quad that belongs on the surface: it faces one of the six directions,
    /// is non-empty, and each unit face it covers is a surface face of a cell
    /// of the same kind as the quad's minimum cell.
    pub open spec fn quad_sound(&self, mq: MeshQuad) -> bool {
        &&& mq.face < 6
        &&& mq.quad.width >= 1
        &&& mq.quad.height >= 1
        &&& forall|c: (int, int, int)| #[trigger] covers(mq.quad, mq.face as int, c) ==> {
            &&& self.face_visible(c, mq.face as int)
            &&& self.kind_at(c) == self.kind_at(quad_min(mq.quad))
        }
    }

    /// The quads of the surface, face direction by face direction, in the
    /// order the greedy mesher emits them.
    pub open spec fn mesh_quads(&self) -> Seq<MeshQuad> {
        flat_prefix(greedy_quads_of(self.padded(), self.padded_dims()), 6)
    }

    proof fn lemma_padded_at(&self, c: (int, int, int))
        requires
            self.wf(),
            0 <= c.0 < self.shape.width + 2,
            0 <= c.1 < self.shape.height + 2,
            0 <= c.2 < self.shape.depth + 2,
        ensures
            voxel_at(self.padded(), self.padded_dims(), c) == self.padded_cell(c),
    {
        let (w, h, d) = (self.shape.width + 2, self.shape.height + 2, self.shape.depth + 2);
        self.shape.lemma_wf_bounds();
        lemma_linear_bound(c.0, c.1, c.2, w, h, d);
        lemma_delinear_linear(c.0, c.1, c.2, w, h);
    }

    proof fn lemma_shift_sound(&self, q: Quad, f: int)
        requires
            self.wf(),
            0 <= f < 6,
            greedy_quad_sound(self.padded(), self.padded_dims(), q, f),
        ensures
            self.quad_sound(MeshQuad { face: f as usize, quad: shifted(q) }),
            q.x >= 1 && q.y >= 1 && q.z >= 1,
    {
        assert(covers(q, f, quad_min(q)));
        assert forall|c: (int, int, int)| #[trigger] covers(shifted(q), f, c) implies {
            &&& self.face_visible(c, f)
            &&& self.kind_at(c) == self.kind_at(quad_min(shifted(q)))
        } by {
            let p = (c.0 + 1, c.1 + 1, c.2 + 1);
            assert(covers(q, f, p));
            self.lemma_padded_at(p);
            self.lemma_padded_at(neighbour(p, f));
            self.lemma_padded_at(quad_min(q));
        }
    }

    proof fn lemma_visible_padded(&self, c: (int, int, int), f: int)
        requires
            self.wf(),
            0 <= f < 6,
            self.face_visible(c, f),
        ensures
            interior(self.padded_dims(), (c.0 + 1, c.1 + 1, c.2 + 1)),
            voxel_face_visible(self.padded(), self.padded_dims(), (c.0 + 1, c.1 + 1, c.2 + 1), f),
    {
        let p = (c.0 + 1, c.1 + 1, c.2 + 1);
        self.shape.lemma_wf_bounds();
        self.lemma_padded_at(p);
        self.lemma_padded_at(neighbour(p, f));
    }

    /// The bordered box, cell by cell.
    fn padded_voxels(&self) -> (r: Vec<BlockKind>)
        requires
            self.wf(),
        ensures
            r@ == self.padded(),
    {
        proof {
            self.shape.lemma_wf_bounds();
        }
        let (w, h, d) = (self.shape.width, self.shape.height, self.shape.depth);
        let (px, py, pz) = (w + 2, h + 2, d + 2);
        assert(px * py <= px * py * pz) by (nonlinear_arith)
            requires pz >= 2, px >= 0, py >= 0;
        let n = (px as u64 * py as u64 * pz as u64) as usize;
        let mut out: Vec<BlockKind> = Vec::with_capacity(n);
        let mut i: usize = 0;
        while i < n
            invariant
                self.wf(),
                n == self.shape.padded_volume(),
                n <= MAX_PADDED_CELLS,
                w == self.shape.width,
                h == self.shape.height,
                d == self.shape.depth,
                px == self.shape.width + 2,
                py == self.shape.height + 2,
                i <= n,
                out@.len() == i,
                forall|j: int| 0 <= j < i ==> out@[j] == self.padded_cell(delinear(j, px as int, py as int)),
            decreases n - i,
        {
            let iu = i as u32;
            let x = iu % px;
            let q = iu / px;
            let y = q % py;
            let z = q / py;
            assert(delinear(i as int, px as int, py as int) == (x as int, y as int, z as int));
            let k = if 1 <= x && x <= w && 1 <= y && y <= h && 1 <= z && z <= d {
                let p = GridPos { x: x - 1, y: y - 1, z: z - 1 };
                assert(self.shape.contains((p.x as int, p.y as int, p.z as int)));
                let index = self.shape.to_index(p);
                self.blocks[index]
            } else {
                BlockKind::Air
            };
            out.push(k);
            i += 1;
        }
        assert(out@ =~= self.padded());
        out
    }
}

impl Chunk {
    /// The surface of the grid, merged into quads by the greedy mesher.
    ///
    /// Cells outside the grid count as empty. The quads are those that the
    /// mesher emits, face direction by face direction; each one covers only
    /// surface faces of cells of one kind, and every surface face is covered.
    /// Quad `k` owns vertices `4k .. 4k + 4` and indices `6k .. 6k + 6`, which
    /// wind its two triangles so that their front side faces outwards.
    pub fn mesh(&self) -> (r: ChunkMesh)
        requires
            self.wf(),
        ensures
            r.quads@ == self.mesh_quads(),
            forall|k: int| 0 <= k < r.quads@.len() ==> self.quad_sound(#[trigger] r.quads@[k]),
            forall|c: (int, int, int), f: int|
                0 <= f < 6 && #[trigger] self.face_visible(c, f) ==> exists|k: int|
                    0 <= k < r.quads@.len() && r.quads@[k].face == f && #[trigger] covers(r.quads@[k].quad, f, c),
            r.indices@ == mesh_indices(r.quads@),
            (forall|i: int| 0 <= i < self.blocks@.len() ==> self.blocks@[i] == BlockKind::Air) ==> {
                &&& r.quads@.len() == 0
                &&& r.indices@.len() == 0
            },
            r.indices@.len() == 6 * r.quads@.len(),
    {
        proof {
            self.shape.lemma_wf_bounds();
        }
        let voxels = self.padded_voxels();
        let (px, py, pz) = (self.shape.width + 2, self.shape.height + 2, self.shape.depth + 2);
        let groups = greedy_quads_padded(&voxels, px, py, pz, px - 1, py - 1, pz - 1);
        let ghost gq = greedy_quads_of(self.padded(), self.padded_dims());
        let ghost vol = self.shape.volume_spec();
        assert((px - 2) * (py - 2) * (pz - 2) == vol);
        assert forall|j: int| 0 <= j < 6 implies #[trigger] groups@[j]@ == gq[j] by {
            assert(groups@.map_values(|group: Vec<Quad>| group@)[j] == gq[j]);
        }
        let mut quads: Vec<MeshQuad> = Vec::new();
        let mut indices: Vec<u32> = Vec::new();
        let mut g: usize = 0;
        while g < 6
            invariant
                self.wf(),
                voxels@ == self.padded(),
                (px, py, pz) == self.padded_dims(),
                px >= 2 && py >= 2 && pz >= 2,
                gq == greedy_quads_of(voxels@, (px, py, pz)),
                gq.len() == 6,
                vol == self.shape.volume_spec(),
                (px - 2) * (py - 2) * (pz - 2) == vol,
                vol < MAX_PADDED_CELLS,
                groups@.len() == 6,
                forall|j: int| 0 <= j < 6 ==> #[trigger] groups@[j]@ == gq[j],
                forall|j: int, i: int|
                    0 <= j < 6 && 0 <= i < groups@[j]@.len() ==> greedy_quad_sound(voxels@, (px, py, pz), #[trigger] groups@[j]@[i], j),
                forall|j: int, i: int, l: int|
                    0 <= j < 6 && 0 <= i < groups@[j]@.len() && 0 <= l < groups@[j]@.len() && i != l
                        ==> quad_min(#[trigger] groups@[j]@[i]) != quad_min(#[trigger] groups@[j]@[l]),
                g <= 6,
                quads@ == flat_prefix(gq, g as nat),
                quads@.len() <= g * vol,
                forall|k: int| 0 <= k < quads@.len() ==> self.quad_sound(#[trigger] quads@[k]),
                indices@ == mesh_indices(quads@),
            decreases 6 - g,
        {
            let group = &groups[g];
            proof {
                lemma_group_len(voxels@, (px, py, pz), group@, g as int);
            }
            let ccw = g == 0 || g == 4 || g == 5;
            let mut i: usize = 0;
            while i < group.len()
                invariant
                    self.wf(),
                    voxels@ == self.padded(),
                    (px, py, pz) == self.padded_dims(),
                    gq == greedy_quads_of(voxels@, (px, py, pz)),
                    vol == self.shape.volume_spec(),
                    vol < MAX_PADDED_CELLS,
                    g < 6,
                    ccw == counter_clockwise(g as int),
                    group@ == gq[g as int],
                    group@.len() <= vol,
                    forall|i: int| 0 <= i < group@.len() ==> greedy_quad_sound(voxels@, (px, py, pz), #[trigger] group@[i], g as int),
                    i <= group@.len(),
                    quads@ == flat_prefix(gq, g as nat) + tagged(gq[g as int], g as int).take(i as int),
                    quads@.len() <= g * vol + i,
                    forall|k: int| 0 <= k < quads@.len() ==> self.quad_sound(#[trigger] quads@[k]),
                    indices@ == mesh_indices(quads@),
                decreases group@.len() - i,
            {
                let q = group[i];
                proof {
                    self.lemma_shift_sound(q, g as int);
                    assert(quads@.len() < 6 * vol) by (nonlinear_arith)
                        requires quads@.len() <= g * vol + i, i < vol, g < 6, i >= 0, g >= 0;
                    assert(6 * vol * 4 <= 0xffff_ffff) by (nonlinear_arith)
                        requires vol < MAX_PADDED_CELLS;
                }
                let mq = MeshQuad {
                    face: g,
                    quad: Quad { x: q.x - 1, y: q.y - 1, z: q.z - 1, width: q.width, height: q.height },
                };
                let ghost old_indices = indices@;
                let ghost n = quads@.len();
                let ghost old_quads = quads@;
                let s = (quads.len() * 4) as u32;
                if ccw {
                    indices.push(s);
                    indices.push(s + 1);
                    indices.push(s + 2);
                    indices.push(s + 1);
                    indices.push(s + 3);
                    indices.push(s + 2);
                } else {
                    indices.push(s);
                    indices.push(s + 2);
                    indices.push(s + 1);
                    indices.push(s + 1);
                    indices.push(s + 2);
                    indices.push(s + 3);
                }
                quads.push(mq);
                proof {
                    assert(tagged(gq[g as int], g as int).take(i + 1) =~= tagged(gq[g as int], g as int).take(i as int).push(mq));
                    assert(quads@.drop_last() =~= old_quads);
                    assert(indices@ =~= old_indices + quad_indices(4 * (n as int), ccw));
                }
                i += 1;
            }
            assert(tagged(gq[g as int], g as int).take(group@.len() as int) =~= tagged(gq[g as int], g as int));
            proof {
                assert(quads@.len() <= (g + 1) * vol) by (nonlinear_arith)
                    requires quads@.len() <= g * vol + group@.len(), group@.len() <= vol;
            }
            g += 1;
        }
        let ghost quads_view = quads@;
        proof {
            assert forall|c: (int, int, int), f: int|
                0 <= f < 6 && #[trigger] self.face_visible(c, f) implies exists|k: int|
                    0 <= k < quads@.len() && quads@[k].face == f && #[trigger] covers(quads@[k].quad, f, c) by {
                self.lemma_visible_padded(c, f);
                let p = (c.0 + 1, c.1 + 1, c.2 + 1);
                assert(voxel_face_visible(voxels@, (px, py, pz), p, f));
                let i = choose|i: int| 0 <= i < groups@[f]@.len() && #[trigger] covers(groups@[f]@[i], f, p);
                lemma_flat_prefix_index(gq, 6, f as nat, i);
                let k = flat_prefix(gq, f as nat).len() + i;
                let q = gq[f][i];
                assert(groups@[f]@[i] == q);
                self.lemma_shift_sound(q, f);
                assert(quads@[k] == tagged(gq[f], f)[i]);
                assert(quads@[k].quad == shifted(q));
                assert(covers(quads@[k].quad, f, c));
            }
            if forall|i: int| 0 <= i < self.blocks@.len() ==> self.blocks@[i] == BlockKind::Air {
                if quads@.len() > 0 {
                    let mq = quads@[0];
                    assert(covers(mq.quad, mq.face as int, quad_min(mq.quad)));
                    lemma_index_coord_inverse(self.shape, quad_min(mq.quad), 0);
                }
            }
        }
        proof {
            lemma_mesh_indices_len(quads@);
        }
        let r = ChunkMesh { quads, indices };
        assert forall|c: (int, int, int), f: int|
            0 <= f < 6 && #[trigger] self.face_visible(c, f) implies exists|k: int|
                0 <= k < r.quads@.len() && r.quads@[k].face == f && #[trigger] covers(r.quads@[k].quad, f, c) by {
            let k = choose|k: int| 0 <= k < quads_view.len() && quads_view[k].face == f && #[trigger] covers(quads_view[k].quad, f, c);
            assert(r.quads@[k] == quads_view[k]);
        }
        r
    }
}

} // verus!
