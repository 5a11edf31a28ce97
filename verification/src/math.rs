use vstd::prelude::*;

verus! {

/// A point or offset on the three-dimensional integer lattice.
#[derive(Clone, Copy, Debug, PartialEq, Eq, Structural, Hash)]
pub struct IVec3 {
    pub x: i32,
    pub y: i32,
    pub z: i32,
}

/// A point or offset on the two-dimensional integer lattice.
#[derive(Clone, Copy, Debug, PartialEq, Eq, Structural, Hash)]
pub struct IVec2 {
    pub x: i32,
    pub y: i32,
}

/// Whether `v` is representable as an `i32`.
pub open spec fn fits_i32(v: int) -> bool {
    i32::MIN <= v <= i32::MAX
}

impl IVec3 {
    /// The componentwise sum, as mathematical integers.
    pub open spec fn sum(self, rhs: IVec3) -> (int, int, int) {
        (self.x + rhs.x, self.y + rhs.y, self.z + rhs.z)
    }

    /// Whether the componentwise sum with `rhs` is representable.
    pub open spec fn can_add(self, rhs: IVec3) -> bool {
        fits_i32(self.x + rhs.x) && fits_i32(self.y + rhs.y) && fits_i32(self.z + rhs.z)
    }

    /// The componentwise sum; meaningful where [`IVec3::can_add`] holds.
    pub open spec fn spec_add(self, rhs: IVec3) -> IVec3 {
        IVec3 { x: (self.x + rhs.x) as i32, y: (self.y + rhs.y) as i32, z: (self.z + rhs.z) as i32 }
    }

    /// Squared Euclidean distance between two lattice points, as a mathematical integer.
    pub open spec fn spec_distance_squared(self, rhs: IVec3) -> int {
        (self.x - rhs.x) * (self.x - rhs.x) + (self.y - rhs.y) * (self.y - rhs.y) + (self.z
            - rhs.z) * (self.z - rhs.z)
    }

    /// The vector with the given components.
    pub fn new(x: i32, y: i32, z: i32) -> (v: IVec3)
        ensures
            v == (IVec3 { x, y, z }),
    {
        IVec3 { x, y, z }
    }

    /// The vector with every component equal to `v`.
    pub fn splat(v: i32) -> (r: IVec3)
        ensures
            r == (IVec3 { x: v, y: v, z: v }),
    {
        IVec3 { x: v, y: v, z: v }
    }

    /// Componentwise sum.
    pub fn add(self, rhs: IVec3) -> (r: IVec3)
        requires
            self.can_add(rhs),
        ensures
            r == self.spec_add(rhs),
            r.x == self.x + rhs.x,
            r.y == self.y + rhs.y,
            r.z == self.z + rhs.z,
    {
        IVec3 { x: self.x + rhs.x, y: self.y + rhs.y, z: self.z + rhs.z }
    }

    /// Componentwise sum, or `None` where a component would leave the `i32` range.
    pub fn checked_add(self, rhs: IVec3) -> (r: Option<IVec3>)
        ensures
            r.is_some() == self.can_add(rhs),
            r.is_some() ==> r.unwrap() == self.spec_add(rhs),
    {
        let x: i64 = self.x as i64 + rhs.x as i64;
        let y: i64 = self.y as i64 + rhs.y as i64;
        let z: i64 = self.z as i64 + rhs.z as i64;
        if x < i32::MIN as i64 || x > i32::MAX as i64 || y < i32::MIN as i64 || y > i32::MAX as i64
            || z < i32::MIN as i64 || z > i32::MAX as i64 {
            None
        } else {
            Some(IVec3 { x: x as i32, y: y as i32, z: z as i32 })
        }
    }

    /// Squared Euclidean distance to `rhs`, computed without overflow.
    pub fn distance_squared(self, rhs: IVec3) -> (r: i128)
        ensures
            r == self.spec_distance_squared(rhs),
            0 <= r <= 3 * 0xffff_ffff * 0xffff_ffff,
    {
        let dx: i128 = self.x as i128 - rhs.x as i128;
        let dy: i128 = self.y as i128 - rhs.y as i128;
        let dz: i128 = self.z as i128 - rhs.z as i128;
        assert(0 <= dx * dx <= 0xffff_ffff * 0xffff_ffff) by (nonlinear_arith)
            requires
                -0xffff_ffff <= dx <= 0xffff_ffff,
        ;
        assert(0 <= dy * dy <= 0xffff_ffff * 0xffff_ffff) by (nonlinear_arith)
            requires
                -0xffff_ffff <= dy <= 0xffff_ffff,
        ;
        assert(0 <= dz * dz <= 0xffff_ffff * 0xffff_ffff) by (nonlinear_arith)
            requires
                -0xffff_ffff <= dz <= 0xffff_ffff,
        ;
        dx * dx + dy * dy + dz * dz
    }

    /// Componentwise minimum.
    pub fn min(self, rhs: IVec3) -> (r: IVec3)
        ensures
            r.x == if self.x <= rhs.x { self.x } else { rhs.x },
            r.y == if self.y <= rhs.y { self.y } else { rhs.y },
            r.z == if self.z <= rhs.z { self.z } else { rhs.z },
    {
        IVec3 {
            x: if self.x <= rhs.x { self.x } else { rhs.x },
            y: if self.y <= rhs.y { self.y } else { rhs.y },
            z: if self.z <= rhs.z { self.z } else { rhs.z },
        }
    }

    /// Componentwise maximum.
    pub fn max(self, rhs: IVec3) -> (r: IVec3)
        ensures
            r.x == if self.x >= rhs.x { self.x } else { rhs.x },
            r.y == if self.y >= rhs.y { self.y } else { rhs.y },
            r.z == if self.z >= rhs.z { self.z } else { rhs.z },
    {
        IVec3 {
            x: if self.x >= rhs.x { self.x } else { rhs.x },
            y: if self.y >= rhs.y { self.y } else { rhs.y },
            z: if self.z >= rhs.z { self.z } else { rhs.z },
        }
    }
}

impl IVec2 {
    /// The vector with the given components.
    pub fn new(x: i32, y: i32) -> (v: IVec2)
        ensures
            v == (IVec2 { x, y }),
    {
        IVec2 { x, y }
    }
}

} // verus!
