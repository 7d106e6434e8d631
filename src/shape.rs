use vstd::prelude::*;
use vstd::arithmetic::div_mod::{lemma_fundamental_div_mod, lemma_fundamental_div_mod_converse};

verus! {

/// The linear index of `(x, y, z)` in a box `w` wide and `h` high: `x` varies
/// fastest, then `y`, then `z`.
pub open spec fn linear(x: int, y: int, z: int, w: int, h: int) -> int {
    x + w * (y + h * z)
}

/// The coordinate that sits at linear index `i` of a box `w` wide and `h` high.
pub open spec fn delinear(i: int, w: int, h: int) -> (int, int, int) {
    (i % w, (i / w) % h, (i / w) / h)
}

pub proof fn lemma_linear_bound(x: int, y: int, z: int, w: int, h: int, d: int)
    requires
        0 <= x < w,
        0 <= y < h,
        0 <= z < d,
    ensures
        0 <= linear(x, y, z, w, h) < w * h * d,
{
    assert(0 <= y + h * z < h * d) by (nonlinear_arith)
        requires 0 <= y < h, 0 <= z < d;
    assert(0 <= x + w * (y + h * z) < w * (h * d)) by (nonlinear_arith)
        requires 0 <= x < w, 0 <= y + h * z < h * d;
    assert(w * (h * d) == w * h * d) by (nonlinear_arith);
}

pub proof fn lemma_delinear_linear(x: int, y: int, z: int, w: int, h: int)
    requires
        0 <= x < w,
        0 <= y < h,
        0 <= z,
    ensures
        delinear(linear(x, y, z, w, h), w, h) == (x, y, z),
{
    let i = linear(x, y, z, w, h);
    assert(i == (y + h * z) * w + x) by (nonlinear_arith)
        requires i == x + w * (y + h * z);
    lemma_fundamental_div_mod_converse(i, w, y + h * z, x);
    assert(y + h * z == z * h + y) by (nonlinear_arith);
    lemma_fundamental_div_mod_converse(i / w, h, z, y);
}

pub proof fn lemma_linear_delinear(i: int, w: int, h: int, d: int)
    requires
        0 <= i < w * h * d,
        0 < w,
        0 < h,
    ensures
        0 <= delinear(i, w, h).0 < w,
        0 <= delinear(i, w, h).1 < h,
        0 <= delinear(i, w, h).2 < d,
        linear(delinear(i, w, h).0, delinear(i, w, h).1, delinear(i, w, h).2, w, h) == i,
{
    lemma_fundamental_div_mod(i, w);
    let q = i / w;
    lemma_fundamental_div_mod(q, h);
    assert(0 <= q) by (nonlinear_arith)
        requires i == w * q + i % w, 0 <= i % w < w, 0 <= i;
    assert(q < h * d) by (nonlinear_arith)
        requires i == w * q + i % w, 0 <= i % w, i < w * h * d, 0 < w;
    assert(q / h < d) by (nonlinear_arith)
        requires q == h * (q / h) + q % h, 0 <= q % h, q < h * d, 0 < h;
    assert(0 <= q / h) by (nonlinear_arith)
        requires q == h * (q / h) + q % h, q % h < h, 0 <= q;
    assert(i == i % w + w * (q % h + h * (q / h)));
}

/// The extents of a grid: `width` along x, `height` along y, `depth` along z.
#[derive(Clone, Copy, Debug, PartialEq, Eq, Structural)]
pub struct Shape {
    pub width: u32,
    pub height: u32,
    pub depth: u32,
}

/// A cell of a grid, by its integer coordinates.
#[derive(Clone, Copy, Debug, PartialEq, Eq, Structural)]
pub struct GridPos {
    pub x: u32,
    pub y: u32,
    pub z: u32,
}

/// The largest number of cells, border included, that a meshable grid may have:
/// each cell has six faces of four vertices, and every vertex must be reachable
/// by a `u32` index.
pub const MAX_PADDED_CELLS: u64 = 178956970;

impl Shape {
    /// The extents once a border one cell thick is added on every side.
    pub open spec fn padded_volume(self) -> int {
        (self.width + 2) * (self.height + 2) * (self.depth + 2)
    }

    pub open spec fn wf(self) -> bool {
        self.padded_volume() <= MAX_PADDED_CELLS
    }

    pub open spec fn volume_spec(self) -> int {
        self.width * self.height * self.depth
    }

    pub open spec fn contains(self, p: (int, int, int)) -> bool {
        &&& 0 <= p.0 < self.width
        &&& 0 <= p.1 < self.height
        &&& 0 <= p.2 < self.depth
    }

    pub open spec fn index_of(self, p: (int, int, int)) -> int {
        linear(p.0, p.1, p.2, self.width as int, self.height as int)
    }

    pub open spec fn coord_of(self, i: int) -> (int, int, int) {
        delinear(i, self.width as int, self.height as int)
    }

    pub proof fn lemma_wf_bounds(self)
        requires
            self.wf(),
        ensures
            self.volume_spec() < self.padded_volume(),
            self.padded_volume() <= MAX_PADDED_CELLS,
            self.width < MAX_PADDED_CELLS,
            self.height < MAX_PADDED_CELLS,
            self.depth < MAX_PADDED_CELLS,
    {
        let (w, h, d) = (self.width as int, self.height as int, self.depth as int);
        assert(w * h * d < (w + 2) * (h + 2) * (d + 2)) by (nonlinear_arith)
            requires 0 <= w, 0 <= h, 0 <= d;
        assert(w < (w + 2) * (h + 2) * (d + 2)) by (nonlinear_arith)
            requires 0 <= w, 0 <= h, 0 <= d;
        assert(h < (w + 2) * (h + 2) * (d + 2)) by (nonlinear_arith)
            requires 0 <= w, 0 <= h, 0 <= d;
        assert(d < (w + 2) * (h + 2) * (d + 2)) by (nonlinear_arith)
            requires 0 <= w, 0 <= h, 0 <= d;
    }

    /// A shape of the given extents, if a grid of it can be meshed.
    pub fn new(width: u32, height: u32, depth: u32) -> (r: Option<Shape>)
        ensures
            r.is_some() <==> (Shape { width, height, depth }).wf(),
            r.is_some() ==> r.unwrap() == (Shape { width, height, depth }),
    {
        let w = width as u128 + 2;
        let h = height as u128 + 2;
        let d = depth as u128 + 2;
        assert(w * h <= 0x1_0000_0001 * 0x1_0000_0001) by (nonlinear_arith)
            requires w <= 0x1_0000_0001, h <= 0x1_0000_0001, w >= 0, h >= 0;
        assert(w * h * d <= 0x1_0000_0001 * 0x1_0000_0001 * 0x1_0000_0001) by (nonlinear_arith)
            requires w * h <= 0x1_0000_0001 * 0x1_0000_0001, d <= 0x1_0000_0001, d >= 0, w * h >= 0;
        if w * h * d > MAX_PADDED_CELLS as u128 {
            None
        } else {
            Some(Shape { width, height, depth })
        }
    }

    /// The number of cells: `width * height * depth`.
    pub fn volume(&self) -> (r: usize)
        requires
            self.wf(),
        ensures
            r == self.volume_spec(),
    {
        proof {
            self.lemma_wf_bounds();
        }
        let (w, h, d) = (self.width as u64, self.height as u64, self.depth as u64);
        assert(w * h <= w * h * d || d == 0) by (nonlinear_arith)
            requires d >= 0, w >= 0, h >= 0;
        assert(w * h < MAX_PADDED_CELLS) by (nonlinear_arith)
            requires w * h * d < MAX_PADDED_CELLS || d == 0, (w + 2) * (h + 2) * (d + 2) <= MAX_PADDED_CELLS, w >= 0, h >= 0, d >= 0;
        (w * h * d) as usize
    }

    /// Whether `p` is a cell of this shape.
    pub fn contains_pos(&self, p: GridPos) -> (r: bool)
        ensures
            r == self.contains((p.x as int, p.y as int, p.z as int)),
    {
        p.x < self.width && p.y < self.height && p.z < self.depth
    }

    /// The storage index of a cell.
    pub fn to_index(&self, p: GridPos) -> (r: usize)
        requires
            self.wf(),
            self.contains((p.x as int, p.y as int, p.z as int)),
        ensures
            r == self.index_of((p.x as int, p.y as int, p.z as int)),
            r < self.volume_spec(),
    {
        proof {
            self.lemma_wf_bounds();
            lemma_linear_bound(p.x as int, p.y as int, p.z as int, self.width as int, self.height as int, self.depth as int);
        }
        let w = self.width as u64;
        let h = self.height as u64;
        let (x, y, z) = (p.x as u64, p.y as u64, p.z as u64);
        assert(h * z <= w * (y + h * z)) by (nonlinear_arith)
            requires w >= 1, y >= 0, h >= 0, z >= 0;
        (x + w * (y + h * z)) as usize
    }

    /// The cell stored at index `i`.
    pub fn to_coord(&self, i: usize) -> (r: GridPos)
        requires
            self.wf(),
            i < self.volume_spec(),
        ensures
            (r.x as int, r.y as int, r.z as int) == self.coord_of(i as int),
            self.contains((r.x as int, r.y as int, r.z as int)),
    {
        proof {
            self.lemma_wf_bounds();
            if self.width == 0 || self.height == 0 {
                assert(self.volume_spec() == 0) by (nonlinear_arith)
                    requires self.width == 0 || self.height == 0,
                        self.volume_spec() == self.width * self.height * self.depth;
            }
            lemma_linear_delinear(i as int, self.width as int, self.height as int, self.depth as int);
        }
        let q = i as u32 / self.width;
        GridPos { x: i as u32 % self.width, y: q % self.height, z: q / self.height }
    }
}

/// Cell coordinates and storage indices are in one-to-one correspondence:
/// every cell has an index below the volume, from which the cell comes back,
/// and every index below the volume names a cell whose index it is.
pub proof fn lemma_index_coord_inverse(s: Shape, p: (int, int, int), i: int)
    requires
        s.wf(),
    ensures
        s.contains(p) ==> 0 <= s.index_of(p) < s.volume_spec() && s.coord_of(s.index_of(p)) == p,
        0 <= i < s.volume_spec() ==> s.contains(s.coord_of(i)) && s.index_of(s.coord_of(i)) == i,
{
    let (w, h, d) = (s.width as int, s.height as int, s.depth as int);
    if s.contains(p) {
        lemma_linear_bound(p.0, p.1, p.2, w, h, d);
        lemma_delinear_linear(p.0, p.1, p.2, w, h);
    }
    if 0 <= i < s.volume_spec() {
        if w == 0 || h == 0 {
            assert(w * h * d == 0) by (nonlinear_arith)
                requires w == 0 || h == 0;
        }
        lemma_linear_delinear(i, w, h, d);
    }
}

} // verus!
