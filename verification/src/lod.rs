use vstd::prelude::*;

verus! {

/// Level of detail: into how many cells a chunk is divided along each axis.
#[derive(Clone, Copy, Debug, PartialEq, Eq, Structural)]
pub enum Lod {
    L32,
    L16,
    L8,
    L4,
    L2,
}

impl Lod {
    /// The number of cells along each axis.
    pub open spec fn spec_size(self) -> int {
        match self {
            Lod::L32 => 32,
            Lod::L16 => 16,
            Lod::L8 => 8,
            Lod::L4 => 4,
            Lod::L2 => 2,
        }
    }

    /// The number of voxels that a cell spans along each axis.
    pub open spec fn spec_jump_index(self) -> int {
        match self {
            Lod::L32 => 1,
            Lod::L16 => 2,
            Lod::L8 => 4,
            Lod::L4 => 8,
            Lod::L2 => 16,
        }
    }

    /// The number of cells along each axis.
    pub fn size(&self) -> (size: i32)
        ensures
            size == self.spec_size(),
    {
        match self {
            Lod::L32 => 32,
            Lod::L16 => 16,
            Lod::L8 => 8,
            Lod::L4 => 4,
            Lod::L2 => 2,
        }
    }

    /// The number of voxels that a cell spans along each axis.
    pub fn jump_index(&self) -> (jump: i32)
        ensures
            jump == self.spec_jump_index(),
            jump * self.spec_size() == 32,
    {
        match self {
            Lod::L32 => 1,
            Lod::L16 => 2,
            Lod::L8 => 4,
            Lod::L4 => 8,
            Lod::L2 => 16,
        }
    }
}

} // verus!
