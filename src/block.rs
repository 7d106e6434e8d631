use vstd::prelude::*;

verus! {

/// What a cell of the grid holds.
#[derive(Clone, Copy, Debug, PartialEq, Eq, Structural)]
pub enum BlockKind {
    Air,
    Grass,
}

/// How a cell takes part in meshing.
#[derive(Clone, Copy, Debug, PartialEq, Eq, Structural)]
pub enum Visibility {
    Empty,
    Opaque,
}

/// Air is empty; every other kind is opaque.
pub open spec fn visibility_of(k: BlockKind) -> Visibility {
    match k {
        BlockKind::Air => Visibility::Empty,
        _ => Visibility::Opaque,
    }
}

impl BlockKind {
    pub fn get_visibility(&self) -> (r: Visibility)
        ensures
            r == visibility_of(*self),
    {
        match self {
            BlockKind::Air => Visibility::Empty,
            _ => Visibility::Opaque,
        }
    }

    /// Two faces may be merged into one quad only when their kinds are equal.
    pub fn merge_value(&self) -> (r: BlockKind)
        ensures
            r == *self,
    {
        *self
    }
}

#[verifier::external_type_specification]
#[verifier::external_body]
pub struct ExVoxelVisibility(block_mesh::VoxelVisibility);

/// Relies on block_mesh::VoxelVisibility: each visibility of this library
/// is handed to the mesher as the variant of the same name.
#[verifier::external_body]
fn mesher_visibility(v: Visibility) -> block_mesh::VoxelVisibility {
    match v {
        Visibility::Empty => block_mesh::VoxelVisibility::Empty,
        Visibility::Opaque => block_mesh::VoxelVisibility::Opaque,
    }
}

impl block_mesh::Voxel for BlockKind {
    fn get_visibility(&self) -> block_mesh::VoxelVisibility {
        mesher_visibility(BlockKind::get_visibility(self))
    }
}

impl block_mesh::MergeVoxel for BlockKind {
    type MergeValue = BlockKind;

    fn merge_value(&self) -> BlockKind {
        *self
    }
}

} // verus!
