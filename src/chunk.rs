use vstd::prelude::*;
use crate::block::BlockKind;
use crate::shape::{GridPos, Shape, lemma_index_coord_inverse};

verus! {

/// Fixed-point steps in one grid unit of world space.
pub const UNIT: i64 = 1000;

/// A point of world space, each component in thousandths of a grid unit.
#[derive(Clone, Copy, Debug, PartialEq, Eq, Structural)]
pub struct WorldPos {
    pub x: i64,
    pub y: i64,
    pub z: i64,
}

/// `v / m` rounded to the nearest integer, halves away from zero.
pub open spec fn round_div(v: int, m: int) -> int {
    if v >= 0 {
        (v + m / 2) / m
    } else {
        -((-v + m / 2) / m)
    }
}

/// The grid coordinate nearest to a world point.
pub open spec fn cell_of(p: WorldPos) -> (int, int, int) {
    (round_div(p.x as int, UNIT as int), round_div(p.y as int, UNIT as int), round_div(p.z as int, UNIT as int))
}

pub open spec fn pos_tuple(p: GridPos) -> (int, int, int) {
    (p.x as int, p.y as int, p.z as int)
}

pub open spec fn pos_of(c: (int, int, int)) -> GridPos {
    GridPos { x: c.0 as u32, y: c.1 as u32, z: c.2 as u32 }
}

/// Rounds `v / m` to the nearest integer, halves away from zero.
pub fn round_div_i128(v: i128, m: i128) -> (r: i128)
    requires
        0 < m < 0x1_0000_0000_0000_0000,
        -0x7fff_ffff_ffff_ffff_0000_0000_0000_0000 <= v <= 0x7fff_ffff_ffff_ffff_0000_0000_0000_0000,
    ensures
        r == round_div(v as int, m as int),
{
    if v >= 0 {
        (v + m / 2) / m
    } else {
        -((-v + m / 2) / m)
    }
}

/// The world point at the centre of the cell with integer coordinates `c`.
pub open spec fn centre_of(c: (int, int, int)) -> WorldPos {
    WorldPos { x: (c.0 * UNIT) as i64, y: (c.1 * UNIT) as i64, z: (c.2 * UNIT) as i64 }
}

/// The block view of the cell stored at index `i` of a grid of `shape`.
pub open spec fn block_view(shape: Shape, blocks: Seq<BlockKind>, i: int) -> Block {
    Block { kind: blocks[i], position: pos_of(shape.coord_of(i)), index: i as usize }
}

/// What a lookup at a world point finds in a grid of `shape` holding `blocks`.
pub open spec fn lookup(shape: Shape, blocks: Seq<BlockKind>, p: WorldPos) -> Option<Block> {
    if shape.contains(cell_of(p)) {
        Some(block_view(shape, blocks, shape.index_of(cell_of(p))))
    } else {
        None
    }
}

/// The cells of a grid of `shape` after `kind` is stored at a world point.
pub open spec fn stored(shape: Shape, blocks: Seq<BlockKind>, p: WorldPos, kind: BlockKind) -> Seq<BlockKind> {
    if shape.contains(cell_of(p)) {
        blocks.update(shape.index_of(cell_of(p)), kind)
    } else {
        blocks
    }
}

/// What a lookup finds: the kind of a cell, where the cell is, and its storage index.
#[derive(Clone, Copy, Debug, PartialEq, Eq, Structural)]
pub struct Block {
    pub kind: BlockKind,
    pub position: GridPos,
    pub index: usize,
}

/// A grid of cells of one shape, stored densely in index order.
pub struct Chunk {
    pub shape: Shape,
    pub blocks: Vec<BlockKind>,
}

impl Chunk {
    pub open spec fn wf(&self) -> bool {
        &&& self.shape.wf()
        &&& self.blocks@.len() == self.shape.volume_spec()
    }

    /// The kind stored at cell `c`.
    pub open spec fn kind_at(&self, c: (int, int, int)) -> BlockKind {
        self.blocks@[self.shape.index_of(c)]
    }

    /// The block view of the cell stored at index `i`.
    pub open spec fn block_at(&self, i: int) -> Block {
        block_view(self.shape, self.blocks@, i)
    }

    /// Every cell in storage order.
    pub open spec fn iteration(&self) -> Seq<Block> {
        Seq::new(self.shape.volume_spec() as nat, |i: int| self.block_at(i))
    }

    /// A grid of `shape` whose every cell holds `block`.
    pub fn filled(block: BlockKind, shape: Shape) -> (r: Chunk)
        requires
            shape.wf(),
        ensures
            r.wf(),
            r.shape == shape,
            r.blocks@ == Seq::new(shape.volume_spec() as nat, |i: int| block),
    {
        let n = shape.volume();
        let mut blocks: Vec<BlockKind> = Vec::with_capacity(n);
        let mut i: usize = 0;
        while i < n
            invariant
                i <= n,
                blocks@.len() == i,
                forall|j: int| 0 <= j < i ==> blocks@[j] == block,
            decreases n - i,
        {
            blocks.push(block);
            i += 1;
        }
        assert(blocks@ =~= Seq::new(shape.volume_spec() as nat, |i: int| block));
        Chunk { shape, blocks }
    }

    /// A grid of `shape` holding `blocks` in storage order; there must be
    /// exactly one block per cell.
    pub fn from_blocks(shape: Shape, blocks: Vec<BlockKind>) -> (r: Chunk)
        requires
            shape.wf(),
            blocks@.len() == shape.volume_spec(),
        ensures
            r.wf(),
            r.shape == shape,
            r.blocks@ == blocks@,
    {
        Chunk { shape, blocks }
    }

    /// The cell nearest to a world point, if the grid has it.
    pub fn locate(&self, position: WorldPos) -> (r: Option<GridPos>)
        ensures
            r.is_some() <==> self.shape.contains(cell_of(position)),
            r.is_some() ==> pos_tuple(r.unwrap()) == cell_of(position),
    {
        let x = round_div_i128(position.x as i128, UNIT as i128);
        let y = round_div_i128(position.y as i128, UNIT as i128);
        let z = round_div_i128(position.z as i128, UNIT as i128);
        if 0 <= x && x < self.shape.width as i128 && 0 <= y && y < self.shape.height as i128
            && 0 <= z && z < self.shape.depth as i128 {
            Some(GridPos { x: x as u32, y: y as u32, z: z as u32 })
        } else {
            None
        }
    }

    /// The view of cell `p`.
    pub fn block_at_pos(&self, p: GridPos) -> (r: Block)
        requires
            self.wf(),
            self.shape.contains(pos_tuple(p)),
        ensures
            r == self.block_at(self.shape.index_of(pos_tuple(p))),
            r.kind == self.blocks@[self.shape.index_of(pos_tuple(p))],
            r.position == p,
            r.index == self.shape.index_of(pos_tuple(p)),
    {
        let index = self.shape.to_index(p);
        proof {
            lemma_index_coord_inverse(self.shape, pos_tuple(p), 0);
        }
        Block { kind: self.blocks[index], position: p, index }
    }

    /// The cell nearest to a world point, or `None` when that cell lies
    /// outside the grid.
    pub fn block(&self, position: WorldPos) -> (r: Option<Block>)
        requires
            self.wf(),
        ensures
            r == lookup(self.shape, self.blocks@, position),
            r.is_some() ==> pos_tuple(r.unwrap().position) == cell_of(position),
    {
        match self.locate(position) {
            Some(p) => Some(self.block_at_pos(p)),
            None => None,
        }
    }

    /// Stores `kind` in the cell nearest to a world point; a point whose
    /// nearest cell lies outside the grid leaves the grid unchanged.
    pub fn set_block(&mut self, position: WorldPos, kind: BlockKind)
        requires
            old(self).wf(),
        ensures
            final(self).wf(),
            final(self).shape == old(self).shape,
            final(self).blocks@ == stored(old(self).shape, old(self).blocks@, position, kind),
    {
        match self.locate(position) {
            Some(p) => {
                proof {
                    lemma_index_coord_inverse(self.shape, pos_tuple(p), 0);
                }
                let index = self.shape.to_index(p);
                self.blocks.set(index, kind);
            },
            None => {},
        }
    }

    /// Applies a click to the cell stored at `index`: the primary action
    /// clears it to air, the secondary action fills it with grass, and when
    /// both come together the secondary one wins. An index past the last
    /// cell changes nothing.
    pub fn edit_at(&mut self, index: usize, primary: bool, secondary: bool)
        requires
            old(self).wf(),
        ensures
            final(self).wf(),
            final(self).shape == old(self).shape,
            final(self).blocks@ == (if index < old(self).blocks@.len() && (primary || secondary) {
                old(self).blocks@.update(index as int, if secondary { BlockKind::Grass } else { BlockKind::Air })
            } else {
                old(self).blocks@
            }),
    {
        if index < self.blocks.len() {
            if primary {
                self.blocks.set(index, BlockKind::Air);
            }
            if secondary {
                self.blocks.set(index, BlockKind::Grass);
            }
        }
        proof {
            if index < old(self).blocks@.len() && primary && secondary {
                assert(self.blocks@ =~= old(self).blocks@.update(index as int, BlockKind::Grass));
            }
        }
    }

    /// A cursor over every cell, in storage order.
    pub fn iter(&self) -> (r: Iter<'_>)
        ensures
            r.chunk == self,
            r.next_index == 0,
    {
        Iter { chunk: self, next_index: 0 }
    }

    /// Every cell, in storage order: `x` fastest, then `y`, then `z`.
    pub fn iterate(&self) -> (r: Vec<Block>)
        requires
            self.wf(),
        ensures
            r@ == self.iteration(),
    {
        let mut it = self.iter();
        let mut out: Vec<Block> = Vec::new();
        let n = self.shape.volume();
        while it.next_index < n
            invariant
                self.wf(),
                n == self.shape.volume_spec(),
                it.chunk == self,
                it.next_index <= n,
                out@.len() == it.next_index,
                forall|j: int| 0 <= j < it.next_index ==> out@[j] == self.block_at(j),
            decreases n - it.next_index,
        {
            match it.next() {
                Some(b) => out.push(b),
                None => {},
            }
        }
        assert(out@ =~= self.iteration());
        out
    }
}

/// A cursor over the cells of a grid; `next_index` is the storage index of
/// the cell that comes next.
pub struct Iter<'a> {
    pub chunk: &'a Chunk,
    pub next_index: usize,
}

impl<'a> Iter<'a> {
    /// The next cell, or `None` once every cell has been visited.
    pub fn next(&mut self) -> (r: Option<Block>)
        requires
            old(self).chunk.wf(),
        ensures
            final(self).chunk == old(self).chunk,
            old(self).next_index < old(self).chunk.shape.volume_spec() ==> {
                &&& r == Some(old(self).chunk.block_at(old(self).next_index as int))
                &&& final(self).next_index == old(self).next_index + 1
            },
            old(self).next_index >= old(self).chunk.shape.volume_spec() ==> {
                &&& r.is_none()
                &&& final(self).next_index == old(self).next_index
            },
    {
        if self.next_index >= self.chunk.shape.volume() {
            return None;
        }
        let p = self.chunk.shape.to_coord(self.next_index);
        let b = self.chunk.block_at_pos(p);
        proof {
            lemma_index_coord_inverse(self.chunk.shape, (0, 0, 0), self.next_index as int);
        }
        self.next_index = self.next_index + 1;
        Some(b)
    }
}

/// The world point at the centre of a cell rounds back to that cell.
pub proof fn lemma_cell_of_centre(c: (int, int, int))
    requires
        0 <= c.0 < 0x1_0000_0000,
        0 <= c.1 < 0x1_0000_0000,
        0 <= c.2 < 0x1_0000_0000,
    ensures
        cell_of(centre_of(c)) == c,
{
    assert(round_div(c.0 * 1000, 1000) == c.0) by (nonlinear_arith)
        requires 0 <= c.0;
    assert(round_div(c.1 * 1000, 1000) == c.1) by (nonlinear_arith)
        requires 0 <= c.1;
    assert(round_div(c.2 * 1000, 1000) == c.2) by (nonlinear_arith)
        requires 0 <= c.2;
}

/// Storing a kind at a cell inside the grid and then looking that cell up
/// finds the kind just stored, at that cell.
pub proof fn lemma_set_then_get(shape: Shape, blocks: Seq<BlockKind>, c: (int, int, int), kind: BlockKind)
    requires
        shape.wf(),
        blocks.len() == shape.volume_spec(),
        shape.contains(c),
    ensures
        lookup(shape, stored(shape, blocks, centre_of(c), kind), centre_of(c)) is Some,
        lookup(shape, stored(shape, blocks, centre_of(c), kind), centre_of(c))->0.kind == kind,
        pos_tuple(lookup(shape, stored(shape, blocks, centre_of(c), kind), centre_of(c))->0.position) == c,
{
    shape.lemma_wf_bounds();
    lemma_cell_of_centre(c);
    lemma_index_coord_inverse(shape, c, 0);
}

/// A world point whose nearest cell has a negative coordinate, or one at or
/// past the extent of its axis, finds nothing, and storing there changes
/// nothing.
pub proof fn lemma_outside_is_ignored(shape: Shape, blocks: Seq<BlockKind>, p: WorldPos, kind: BlockKind)
    requires
        cell_of(p).0 < 0 || cell_of(p).1 < 0 || cell_of(p).2 < 0
            || cell_of(p).0 >= shape.width || cell_of(p).1 >= shape.height || cell_of(p).2 >= shape.depth,
    ensures
        lookup(shape, blocks, p) is None,
        stored(shape, blocks, p, kind) == blocks,
{
}

/// Iterating a grid twice, with no change in between, yields the same
/// sequence both times.
pub proof fn lemma_iteration_repeats(c: Chunk, first: Seq<Block>, second: Seq<Block>)
    requires
        c.wf(),
        first == c.iteration(),
        second == c.iteration(),
    ensures
        first == second,
{
}

/// Iteration visits each cell of the grid exactly once: it yields as many
/// blocks as the grid has cells, no two at the same position, and every
/// position of the shape among them; each block carries the kind stored at
/// its index.
pub proof fn lemma_iteration_visits_every_cell(c: Chunk)
    requires
        c.wf(),
    ensures
        c.iteration().len() == c.shape.volume_spec(),
        forall|i: int, j: int|
            0 <= i < j < c.iteration().len() ==> c.iteration()[i].position != c.iteration()[j].position,
        forall|p: GridPos|
            c.shape.contains(pos_tuple(p)) ==> exists|i: int|
                0 <= i < c.iteration().len() && #[trigger] c.iteration()[i].position == p,
        forall|i: int|
            0 <= i < c.iteration().len() ==> {
                &&& c.shape.contains(pos_tuple(#[trigger] c.iteration()[i].position))
                &&& c.iteration()[i].index == i
                &&& c.iteration()[i].kind == c.blocks@[i]
            },
{
    let s = c.iteration();
    c.shape.lemma_wf_bounds();
    assert forall|i: int| 0 <= i < s.len() implies s[i].index == i by {}
    assert forall|i: int| 0 <= i < s.len() implies c.shape.contains(pos_tuple(#[trigger] s[i].position))
        && pos_tuple(s[i].position) == c.shape.coord_of(i) by {
        lemma_index_coord_inverse(c.shape, (0, 0, 0), i);
    }
    assert forall|i: int, j: int| 0 <= i < j < s.len() implies s[i].position != s[j].position by {
        lemma_index_coord_inverse(c.shape, (0, 0, 0), i);
        lemma_index_coord_inverse(c.shape, (0, 0, 0), j);
        assert(pos_tuple(s[i].position) == c.shape.coord_of(i));
        assert(pos_tuple(s[j].position) == c.shape.coord_of(j));
    }
    assert forall|p: GridPos| c.shape.contains(pos_tuple(p)) implies exists|i: int|
        0 <= i < s.len() && #[trigger] s[i].position == p by {
        lemma_index_coord_inverse(c.shape, pos_tuple(p), 0);
        let i = c.shape.index_of(pos_tuple(p));
        assert(pos_tuple(s[i].position) == c.shape.coord_of(i));
        assert(s[i].position == p);
    }
}

} // verus!
