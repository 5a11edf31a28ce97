use crate::math::IVec3;
use vstd::prelude::*;

verus! {

/// The six directions in which a face of a voxel can look.
#[derive(Clone, Copy, Debug, PartialEq, Eq, Structural)]
pub enum FaceDir {
    /// Towards +Y.
    Up,
    /// Towards -Y.
    Down,
    /// Towards -X.
    Left,
    /// Towards +X.
    Right,
    /// Towards -Z.
    Forward,
    /// Towards +Z.
    Back,
}

impl FaceDir {
    /// The number of the direction in a packed vertex: +X, -X, +Y, -Y, +Z,
    /// -Z are 0 to 5.
    pub open spec fn spec_normal_index(self) -> u32 {
        match self {
            FaceDir::Right => 0u32,
            FaceDir::Left => 1u32,
            FaceDir::Up => 2u32,
            FaceDir::Down => 3u32,
            FaceDir::Back => 4u32,
            FaceDir::Forward => 5u32,
        }
    }

    /// The direction with the given number.
    pub open spec fn spec_from_normal_index(index: int) -> FaceDir {
        if index == 0 {
            FaceDir::Right
        } else if index == 1 {
            FaceDir::Left
        } else if index == 2 {
            FaceDir::Up
        } else if index == 3 {
            FaceDir::Down
        } else if index == 4 {
            FaceDir::Back
        } else {
            FaceDir::Forward
        }
    }

    /// The step from a voxel to the voxel that its face in this direction
    /// looks at.
    pub open spec fn spec_air_sample_dir(self) -> IVec3 {
        match self {
            FaceDir::Up => IVec3 { x: 0, y: 1, z: 0 },
            FaceDir::Down => IVec3 { x: 0, y: -1i32, z: 0 },
            FaceDir::Left => IVec3 { x: -1i32, y: 0, z: 0 },
            FaceDir::Right => IVec3 { x: 1, y: 0, z: 0 },
            FaceDir::Forward => IVec3 { x: 0, y: 0, z: -1i32 },
            FaceDir::Back => IVec3 { x: 0, y: 0, z: 1 },
        }
    }

    /// The cell at depth `axis` along the direction's axis, at row `x` and
    /// bit `y` of the plane across it. Rows run along z for the directions
    /// along x and along x for the others; bits run along z for the
    /// directions along y and along y for the others.
    pub open spec fn spec_cell(self, axis: int, x: int, y: int) -> (int, int, int) {
        match self {
            FaceDir::Up | FaceDir::Down => (x, axis, y),
            FaceDir::Left | FaceDir::Right => (axis, y, x),
            FaceDir::Forward | FaceDir::Back => (x, y, axis),
        }
    }

    /// The corner of the vertex grid at depth `axis`, row `x` and bit `y`,
    /// on the side of the cells at that depth to which this direction looks.
    pub open spec fn spec_world_to_sample(self, axis: int, x: int, y: int) -> (int, int, int) {
        match self {
            FaceDir::Up => (x, axis + 1, y),
            FaceDir::Down => (x, axis, y),
            FaceDir::Left => (axis, y, x),
            FaceDir::Right => (axis + 1, y, x),
            FaceDir::Forward => (x, y, axis),
            FaceDir::Back => (x, y, axis + 1),
        }
    }

    /// The cell that lies `row` rows and `bit` bits from the cell at
    /// (`axis`, `x`, `y`), one step further in this direction.
    pub open spec fn spec_ao_cell(self, axis: int, x: int, y: int, row: int, bit: int) -> (
        int,
        int,
        int,
    ) {
        let step = match self {
            FaceDir::Up | FaceDir::Right | FaceDir::Back => 1int,
            FaceDir::Down | FaceDir::Left | FaceDir::Forward => -1int,
        };
        self.spec_cell(axis + step, x + row, y + bit)
    }

    /// Whether the corners of a quad, taken row first, run clockwise as
    /// seen from outside, so that their order has to be turned round.
    pub open spec fn spec_reverse_order(self) -> bool {
        match self {
            FaceDir::Up => true,
            FaceDir::Down => false,
            FaceDir::Left => false,
            FaceDir::Right => true,
            FaceDir::Forward => true,
            FaceDir::Back => false,
        }
    }

    /// Whether this direction looks towards rising coordinates.
    pub open spec fn spec_is_positive(self) -> bool {
        match self {
            FaceDir::Up | FaceDir::Right | FaceDir::Back => true,
            FaceDir::Down | FaceDir::Left | FaceDir::Forward => false,
        }
    }

    /// The number of the direction in a packed vertex.
    pub fn normal_index(&self) -> (index: u32)
        ensures
            index == self.spec_normal_index(),
            index < 6,
    {
        match self {
            FaceDir::Right => 0u32,
            FaceDir::Left => 1u32,
            FaceDir::Up => 2u32,
            FaceDir::Down => 3u32,
            FaceDir::Back => 4u32,
            FaceDir::Forward => 5u32,
        }
    }

    /// The direction with the number `index`; a number above 5 counts as 5.
    pub fn from_normal_index(index: u32) -> (dir: FaceDir)
        ensures
            dir == Self::spec_from_normal_index(index as int),
            index < 6 ==> dir.spec_normal_index() == index,
    {
        if index == 0 {
            FaceDir::Right
        } else if index == 1 {
            FaceDir::Left
        } else if index == 2 {
            FaceDir::Up
        } else if index == 3 {
            FaceDir::Down
        } else if index == 4 {
            FaceDir::Back
        } else {
            FaceDir::Forward
        }
    }

    /// The step from a voxel to the voxel that its face in this direction
    /// looks at.
    pub fn air_sample_dir(&self) -> (dir: IVec3)
        ensures
            dir == self.spec_air_sample_dir(),
    {
        match self {
            FaceDir::Up => IVec3::new(0, 1, 0),
            FaceDir::Down => IVec3::new(0, -1, 0),
            FaceDir::Left => IVec3::new(-1, 0, 0),
            FaceDir::Right => IVec3::new(1, 0, 0),
            FaceDir::Forward => IVec3::new(0, 0, -1),
            FaceDir::Back => IVec3::new(0, 0, 1),
        }
    }

    /// The cell at depth `axis`, row `x` and bit `y`.
    pub fn cell(&self, axis: i32, x: i32, y: i32) -> (cell: IVec3)
        ensures
            (cell.x as int, cell.y as int, cell.z as int) == self.spec_cell(
                axis as int,
                x as int,
                y as int,
            ),
    {
        match self {
            FaceDir::Up | FaceDir::Down => IVec3::new(x, axis, y),
            FaceDir::Left | FaceDir::Right => IVec3::new(axis, y, x),
            FaceDir::Forward | FaceDir::Back => IVec3::new(x, y, axis),
        }
    }

    /// The corner of the vertex grid at depth `axis`, row `x` and bit `y`.
    pub fn world_to_sample(&self, axis: i32, x: i32, y: i32) -> (corner: IVec3)
        requires
            axis < i32::MAX,
        ensures
            (corner.x as int, corner.y as int, corner.z as int) == self.spec_world_to_sample(
                axis as int,
                x as int,
                y as int,
            ),
    {
        match self {
            FaceDir::Up => IVec3::new(x, axis + 1, y),
            FaceDir::Down => IVec3::new(x, axis, y),
            FaceDir::Left => IVec3::new(axis, y, x),
            FaceDir::Right => IVec3::new(axis + 1, y, x),
            FaceDir::Forward => IVec3::new(x, y, axis),
            FaceDir::Back => IVec3::new(x, y, axis + 1),
        }
    }

    /// Whether the order of the corners of a quad has to be turned round.
    pub fn reverse_order(&self) -> (reverse: bool)
        ensures
            reverse == self.spec_reverse_order(),
    {
        match self {
            FaceDir::Up => true,
            FaceDir::Down => false,
            FaceDir::Left => false,
            FaceDir::Right => true,
            FaceDir::Forward => true,
            FaceDir::Back => false,
        }
    }

    /// The step along the direction's axis from a cell to the cell that
    /// its face looks at: 1 or -1.
    pub fn axis_step(&self) -> (step: i32)
        ensures
            step == if self.spec_is_positive() {
                1int
            } else {
                -1int
            },
    {
        match self {
            FaceDir::Up | FaceDir::Right | FaceDir::Back => 1,
            FaceDir::Down | FaceDir::Left | FaceDir::Forward => -1,
        }
    }
}

} // verus!
