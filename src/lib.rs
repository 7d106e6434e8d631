//! A fixed-size grid of voxel cells: lookup and editing by world position,
//! iteration, greedy meshing of the visible surface, and ray marching to find
//! the cell that a ray first meets.

use vstd::prelude::*;

pub mod block;
pub mod shape;
pub mod chunk;
pub mod mesh;
pub mod raycast;
pub mod texture;

pub use block::{BlockKind, Visibility};
pub use chunk::{Block, Chunk, Iter, WorldPos};
pub use mesh::{ChunkMesh, MeshQuad, Quad};
pub use raycast::raycast;
pub use shape::{GridPos, Shape};

verus! {

/// Marks what highlights the cell that the player is looking at.
#[derive(Clone, Copy, Debug, PartialEq, Eq)]
pub struct Selection;

} // verus!
