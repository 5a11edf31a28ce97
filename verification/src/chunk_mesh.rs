use crate::math::IVec3;
use crate::utils::{get_pos_from_vertex_u32, spec_get_pos_from_vertex_u32};
use vstd::prelude::*;

verus! {

/// A mesh made of quads: packed vertices, four to a quad, and the indices
/// of the two triangles of each quad.
#[derive(Default, Debug)]
pub struct ChunkMesh {
    pub indices: Vec<u32>,
    pub vertices: Vec<u32>,
}

/// The smallest coordinate on each axis among the positions of the first
/// `n` of `vertices`; without vertices, the largest 32-bit number.
pub open spec fn spec_min_pos(vertices: Seq<u32>, n: int) -> IVec3
    decreases n,
{
    if n <= 0 {
        IVec3 { x: i32::MAX, y: i32::MAX, z: i32::MAX }
    } else {
        let rest = spec_min_pos(vertices, n - 1);
        let pos = spec_get_pos_from_vertex_u32(vertices[n - 1]);
        IVec3 {
            x: if rest.x <= pos.x {
                rest.x
            } else {
                pos.x
            },
            y: if rest.y <= pos.y {
                rest.y
            } else {
                pos.y
            },
            z: if rest.z <= pos.z {
                rest.z
            } else {
                pos.z
            },
        }
    }
}

/// The largest coordinate on each axis among the positions of the first
/// `n` of `vertices`; without vertices, the smallest 32-bit number.
pub open spec fn spec_max_pos(vertices: Seq<u32>, n: int) -> IVec3
    decreases n,
{
    if n <= 0 {
        IVec3 { x: i32::MIN, y: i32::MIN, z: i32::MIN }
    } else {
        let rest = spec_max_pos(vertices, n - 1);
        let pos = spec_get_pos_from_vertex_u32(vertices[n - 1]);
        IVec3 {
            x: if rest.x >= pos.x {
                rest.x
            } else {
                pos.x
            },
            y: if rest.y >= pos.y {
                rest.y
            } else {
                pos.y
            },
            z: if rest.z >= pos.z {
                rest.z
            } else {
                pos.z
            },
        }
    }
}

/// The bounds enclose the position of each vertex.
pub proof fn lemma_bounds(vertices: Seq<u32>, n: int)
    requires
        0 <= n <= vertices.len(),
    ensures
        forall|i: int|
            0 <= i < n ==> {
                let pos = spec_get_pos_from_vertex_u32(#[trigger] vertices[i]);
                &&& spec_min_pos(vertices, n).x <= pos.x <= spec_max_pos(vertices, n).x
                &&& spec_min_pos(vertices, n).y <= pos.y <= spec_max_pos(vertices, n).y
                &&& spec_min_pos(vertices, n).z <= pos.z <= spec_max_pos(vertices, n).z
            },
    decreases n,
{
    if n > 0 {
        lemma_bounds(vertices, n - 1);
    }
}

impl ChunkMesh {
    /// The corners of the smallest box, with edges along the axes, that
    /// holds the position of each vertex: the least and the greatest
    /// coordinate on each axis.
    pub fn calculate_aabb(&self) -> (bounds: (IVec3, IVec3))
        ensures
            bounds.0 == spec_min_pos(self.vertices@, self.vertices@.len() as int),
            bounds.1 == spec_max_pos(self.vertices@, self.vertices@.len() as int),
    {
        let mut min = IVec3::splat(i32::MAX);
        let mut max = IVec3::splat(i32::MIN);
        let mut i: usize = 0;
        while i < self.vertices.len()
            invariant
                i <= self.vertices@.len(),
                min == spec_min_pos(self.vertices@, i as int),
                max == spec_max_pos(self.vertices@, i as int),
            decreases self.vertices@.len() - i,
        {
            let pos = get_pos_from_vertex_u32(self.vertices[i]);
            min = min.min(pos);
            max = max.max(pos);
            i += 1;
        }
        (min, max)
    }

    /// The index list of the mesh and the position of each vertex: the mesh
    /// without what its vertices pack besides their place.
    pub fn into_uncompressed_mesh(self) -> (mesh: (Vec<u32>, Vec<IVec3>))
        ensures
            mesh.0@ == self.indices@,
            mesh.1@ == self.vertices@.map_values(|v: u32| spec_get_pos_from_vertex_u32(v)),
    {
        let mut positions: Vec<IVec3> = Vec::new();
        let mut i: usize = 0;
        while i < self.vertices.len()
            invariant
                i <= self.vertices@.len(),
                positions@.len() == i,
                forall|j: int|
                    0 <= j < i ==> positions@[j] == spec_get_pos_from_vertex_u32(
                        self.vertices@[j],
                    ),
            decreases self.vertices@.len() - i,
        {
            positions.push(get_pos_from_vertex_u32(self.vertices[i]));
            i += 1;
        }
        assert(positions@ =~= self.vertices@.map_values(|v: u32| spec_get_pos_from_vertex_u32(v)));
        (self.indices, positions)
    }
}

} // verus!
