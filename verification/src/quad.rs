use crate::face_direction::FaceDir;
use crate::lod::Lod;
use crate::math::IVec3;
use crate::utils::{make_vertex_u32, spec_make_vertex_u32};
use vstd::prelude::*;

verus! {

/// A rectangle of faces in one plane: `w` rows from row `x` and `h` bits
/// from bit `y`.
#[derive(Clone, Copy, Debug, PartialEq, Eq, Structural)]
pub struct GreedyQuad {
    pub x: u32,
    pub y: u32,
    pub w: u32,
    pub h: u32,
}

/// How dark a corner is, 0 to 3: how many of three cells beside it, given
/// by their bits in the mask `ao`, are solid.
pub open spec fn spec_corner_ao(ao: u32, first: u32, second: u32, third: u32) -> u32 {
    (((ao >> first) & 1u32) + ((ao >> second) & 1u32) + ((ao >> third) & 1u32)) as u32
}

/// The packed vertex of a quad's corner at row `x` and bit `y`.
pub open spec fn spec_quad_vertex(
    face_dir: FaceDir,
    axis: int,
    x: int,
    y: int,
    jump: int,
    ao: u32,
    block_type: u32,
) -> u32 {
    let corner = face_dir.spec_world_to_sample(axis, x, y);
    spec_make_vertex_u32(
        IVec3 {
            x: (corner.0 * jump) as i32,
            y: (corner.1 * jump) as i32,
            z: (corner.2 * jump) as i32,
        },
        ao,
        face_dir.spec_normal_index(),
        block_type,
    )
}

/// The order in which the four corners of a quad are emitted: as given,
/// or turned round behind the first where `reverse` is set; after that,
/// moved on by one where `flip` is set.
pub open spec fn spec_order(corners: Seq<u32>, reverse: bool, flip: bool) -> Seq<u32> {
    let turned = if reverse {
        seq![corners[0], corners[3], corners[2], corners[1]]
    } else {
        corners
    };
    if flip {
        seq![turned[1], turned[2], turned[3], turned[0]]
    } else {
        turned
    }
}

impl GreedyQuad {
    /// Whether the quad lies in a plane of 32 rows of 32 bits.
    pub open spec fn in_plane(self) -> bool {
        self.x + self.w <= 32 && self.y + self.h <= 32
    }

    /// The four packed vertices of the quad, as a face in direction
    /// `face_dir` at depth `axis`, counter-clockwise as seen from outside.
    ///
    /// `ao` holds one bit for each of the nine cells in front of a face of
    /// the quad, row by row; each corner is as dark as the three cells
    /// beside it say. The triangles of the quad meet along the diagonal
    /// from the first vertex; the order is moved on by one where just one
    /// end of the other diagonal is dark.
    pub open spec fn spec_vertices(
        self,
        face_dir: FaceDir,
        axis: u32,
        lod: Lod,
        ao: u32,
        block_type: u32,
    ) -> Seq<u32> {
        let jump = lod.spec_jump_index();
        let v1ao = spec_corner_ao(ao, 0, 1, 3);
        let v2ao = spec_corner_ao(ao, 3, 6, 7);
        let v3ao = spec_corner_ao(ao, 5, 8, 7);
        let v4ao = spec_corner_ao(ao, 1, 2, 5);
        let x = self.x as int;
        let y = self.y as int;
        let w = self.w as int;
        let h = self.h as int;
        let v1 = spec_quad_vertex(face_dir, axis as int, x, y, jump, v1ao, block_type);
        let v2 = spec_quad_vertex(face_dir, axis as int, x + w, y, jump, v2ao, block_type);
        let v3 = spec_quad_vertex(face_dir, axis as int, x + w, y + h, jump, v3ao, block_type);
        let v4 = spec_quad_vertex(face_dir, axis as int, x, y + h, jump, v4ao, block_type);
        spec_order(seq![v1, v2, v3, v4], face_dir.spec_reverse_order(), (v1ao > 0) != (v3ao > 0))
    }

    /// Appends the four packed vertices of the quad to `vertices`.
    pub fn append_vertices(
        &self,
        vertices: &mut Vec<u32>,
        face_dir: FaceDir,
        axis: u32,
        lod: &Lod,
        ao: u32,
        block_type: u32,
    )
        requires
            self.in_plane(),
            axis < 32,
        ensures
            final(vertices)@ == old(vertices)@ + self.spec_vertices(
                face_dir,
                axis,
                *lod,
                ao,
                block_type,
            ),
    {
        let jump: i32 = lod.jump_index();
        assert(((ao >> 0u32) & 1u32) <= 1 && ((ao >> 1u32) & 1u32) <= 1 && ((ao >> 2u32) & 1u32)
            <= 1 && ((ao >> 3u32) & 1u32) <= 1 && ((ao >> 5u32) & 1u32) <= 1 && ((ao >> 6u32)
            & 1u32) <= 1 && ((ao >> 7u32) & 1u32) <= 1 && ((ao >> 8u32) & 1u32) <= 1)
            by (bit_vector);
        let v1ao: u32 = ((ao >> 0u32) & 1) + ((ao >> 1u32) & 1) + ((ao >> 3u32) & 1);
        let v2ao: u32 = ((ao >> 3u32) & 1) + ((ao >> 6u32) & 1) + ((ao >> 7u32) & 1);
        let v3ao: u32 = ((ao >> 5u32) & 1) + ((ao >> 8u32) & 1) + ((ao >> 7u32) & 1);
        let v4ao: u32 = ((ao >> 1u32) & 1) + ((ao >> 2u32) & 1) + ((ao >> 5u32) & 1);
        let x: i32 = self.x as i32;
        let y: i32 = self.y as i32;
        let w: i32 = self.w as i32;
        let h: i32 = self.h as i32;
        let normal: u32 = face_dir.normal_index();
        let v1 = make_vertex_u32(
            scaled(face_dir.world_to_sample(axis as i32, x, y), jump),
            v1ao,
            normal,
            block_type,
        );
        let v2 = make_vertex_u32(
            scaled(face_dir.world_to_sample(axis as i32, x + w, y), jump),
            v2ao,
            normal,
            block_type,
        );
        let v3 = make_vertex_u32(
            scaled(face_dir.world_to_sample(axis as i32, x + w, y + h), jump),
            v3ao,
            normal,
            block_type,
        );
        let v4 = make_vertex_u32(
            scaled(face_dir.world_to_sample(axis as i32, x, y + h), jump),
            v4ao,
            normal,
            block_type,
        );
        let reverse: bool = face_dir.reverse_order();
        let flip: bool = (v1ao > 0) != (v3ao > 0);
        let (a, b, c, d) = if reverse {
            (v1, v4, v3, v2)
        } else {
            (v1, v2, v3, v4)
        };
        let ghost before = vertices@;
        if flip {
            vertices.push(b);
            vertices.push(c);
            vertices.push(d);
            vertices.push(a);
        } else {
            vertices.push(a);
            vertices.push(b);
            vertices.push(c);
            vertices.push(d);
        }
        assert(vertices@ =~= before + self.spec_vertices(face_dir, axis, *lod, ao, block_type));
    }
}

/// A corner of the vertex grid, in voxels: each coordinate times `jump`.
fn scaled(corner: IVec3, jump: i32) -> (pos: IVec3)
    requires
        0 <= corner.x <= 64,
        0 <= corner.y <= 64,
        0 <= corner.z <= 64,
        0 < jump <= 16,
    ensures
        pos.x == corner.x * jump,
        pos.y == corner.y * jump,
        pos.z == corner.z * jump,
{
    assert(corner.x * jump <= 1024 && corner.y * jump <= 1024 && corner.z * jump <= 1024
        && corner.x * jump >= 0 && corner.y * jump >= 0 && corner.z * jump >= 0)
        by (nonlinear_arith)
        requires
            0 <= corner.x <= 64,
            0 <= corner.y <= 64,
            0 <= corner.z <= 64,
            0 < jump <= 16,
    ;
    IVec3::new(corner.x * jump, corner.y * jump, corner.z * jump)
}

} // verus!
